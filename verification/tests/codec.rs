use bytes::BytesMut;

use protociolla::Codec;
use protociolla::Cookie;
use protociolla::Header;
use protociolla::Packets;

#[test]
fn encode_writes_header_then_payload() {
    let mut codec = Codec::default();
    let mut buf = BytesMut::new();
    codec.encode((Header::single(0x0102, Some(3)), bytes::Bytes::from(vec![9, 8, 7])), &mut buf);
    assert_eq!(&buf[..], &[0x01, 0x02, 0x00, 0x03, 9, 8, 7]);
}

#[test]
fn encode_appends() {
    let mut codec = Codec::default();
    let mut buf = BytesMut::new();
    codec.encode((Header::oneshot(Some(1)), bytes::Bytes::from(vec![0xaa])), &mut buf);
    codec.encode((Header::oneshot(Some(1)), bytes::Bytes::from(vec![0xbb])), &mut buf);
    assert_eq!(&buf[..], &[0, 0, 0, 1, 0xaa, 0, 0, 0, 1, 0xbb]);
}

#[test]
fn decode_needs_full_header() {
    let mut codec = Codec::default();
    let mut buf = BytesMut::from(&[0u8, 0, 0][..]);
    assert!(codec.decode(&mut buf).is_none());
    assert_eq!(buf.len(), 3);
}

#[test]
fn decode_needs_full_payload() {
    let mut codec = Codec::default();
    let mut buf = BytesMut::from(&[0u8, 0, 0, 2, 0xaa][..]);
    assert!(codec.decode(&mut buf).is_none());
    assert_eq!(&buf[..], &[0, 0, 0, 2, 0xaa]);
}

#[test]
fn decode_takes_one_frame() {
    let mut codec = Codec::default();
    let mut buf = BytesMut::from(&[0x80u8, 0x07, 0x00, 0x02, 0xaa, 0xbb, 0xff][..]);
    let (header, payload) = codec.decode(&mut buf).unwrap();
    assert_eq!(header, Header::stream(7, Some(2)));
    assert_eq!(&payload[..], &[0xaa, 0xbb]);
    assert_eq!(&buf[..], &[0xff]);
}

#[test]
fn header_roundtrips_through_codec() {
    let headers = [
        Header::oneshot(None),
        Header::oneshot(Some(0)),
        Header::single(0x0001, Some(0xfffe)),
        Header::single(0x7fff, None),
        Header::stream(0x1234, Some(5)),
    ];
    for h in headers {
        let mut codec = Codec::default();
        let mut buf = BytesMut::new();
        let payload = bytes::Bytes::from(vec![0x5a; h.length()]);
        codec.encode((h, payload.clone()), &mut buf);
        let (back, body) = codec.decode(&mut buf).unwrap();
        assert_eq!(back, h);
        assert_eq!(body, payload);
        assert!(buf.is_empty());
    }
}

#[test]
fn oneshot_roundtrip_end_to_end() {
    // Send a oneshot packet with payload [0xaa, 0xbb]; the wire must read
    // 00 00 00 02 aa bb, and the receiver must get the packet back whole.
    let packet: protociolla::Packet<()> =
        protociolla::Packet::new(Cookie::Oneshot, bytes::Bytes::from(vec![0xaa, 0xbb]));
    let mut codec = Codec::default();
    let mut wire = BytesMut::new();
    for frag in Packets::fragment(&packet) {
        codec.encode(frag, &mut wire);
    }
    assert_eq!(&wire[..], &[0x00, 0x00, 0x00, 0x02, 0xaa, 0xbb]);

    let mut defrag: Packets<()> = Packets::new();
    let mut received = Vec::new();
    while let Some((header, payload)) = codec.decode(&mut wire) {
        if let Some(whole) = defrag.push(header, &payload) {
            received.push(whole);
        }
    }
    assert_eq!(received.len(), 1);
    assert_eq!(received[0].cookie(), Cookie::Oneshot);
    assert_eq!(&received[0].bytes()[..], &[0xaa, 0xbb]);
}

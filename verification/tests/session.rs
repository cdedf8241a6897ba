use bytes::Bytes;

use protociolla::Cookie;
use protociolla::Message;
use protociolla::Mode;
use protociolla::Packet;
use protociolla::SessionEvent;
use protociolla::Sessions;

fn packet(cookie: Cookie, payload: Vec<u8>) -> Packet<()> {
    Packet::new(cookie, Bytes::from(payload))
}

#[test]
fn oneshot_becomes_reply_less_session() {
    let mut demux: Sessions<()> = Sessions::new();
    match demux.on_packet(packet(Cookie::Oneshot, vec![0xaa, 0xbb])) {
        SessionEvent::Oneshot(message) => {
            assert_eq!(message.mode(), Mode::NoReply);
            assert_eq!(&message.bytes()[..], &[0xaa, 0xbb]);
        }
        _ => panic!("expected a oneshot session"),
    }
}

#[test]
fn streaming_session_lifecycle() {
    // Three packets for cookie 7: two non-terminal, one terminal. One
    // session opens on the first packet; modes arrive More, More, End; the
    // cookie is retired after the terminal message.
    let mut demux: Sessions<()> = Sessions::new();

    match demux.on_packet(packet(Cookie::Stream(7), vec![1])) {
        SessionEvent::Opened(cookie, message) => {
            assert_eq!(cookie, 7);
            assert_eq!(message.mode(), Mode::More);
            assert_eq!(&message.bytes()[..], &[1]);
        }
        _ => panic!("expected a new session"),
    }
    assert!(demux.is_live(7));

    match demux.on_packet(packet(Cookie::Stream(7), vec![2])) {
        SessionEvent::Delivered(cookie, message) => {
            assert_eq!(cookie, 7);
            assert_eq!(message.mode(), Mode::More);
            assert_eq!(&message.bytes()[..], &[2]);
        }
        _ => panic!("expected delivery to the live session"),
    }

    match demux.on_packet(packet(Cookie::Single(7), vec![3])) {
        SessionEvent::Closed(cookie, message) => {
            assert_eq!(cookie, 7);
            assert_eq!(message.mode(), Mode::End);
            assert_eq!(&message.bytes()[..], &[3]);
        }
        _ => panic!("expected the terminal delivery"),
    }
    assert!(!demux.is_live(7));
}

#[test]
fn interleaved_sessions() {
    // Stream(1), Stream(2), Single(1), Single(2): two sessions open, each
    // sees More then End, and no cookie stays live.
    let mut demux: Sessions<()> = Sessions::new();

    assert!(matches!(
        demux.on_packet(packet(Cookie::Stream(1), vec![11])),
        SessionEvent::Opened(1, _)
    ));
    assert!(matches!(
        demux.on_packet(packet(Cookie::Stream(2), vec![21])),
        SessionEvent::Opened(2, _)
    ));
    assert!(demux.is_live(1) && demux.is_live(2));

    match demux.on_packet(packet(Cookie::Single(1), vec![12])) {
        SessionEvent::Closed(1, message) => assert_eq!(message.mode(), Mode::End),
        _ => panic!("expected session 1 to close"),
    }
    match demux.on_packet(packet(Cookie::Single(2), vec![22])) {
        SessionEvent::Closed(2, message) => assert_eq!(message.mode(), Mode::End),
        _ => panic!("expected session 2 to close"),
    }
    assert!(!demux.is_live(1) && !demux.is_live(2));
}

#[test]
fn terminal_for_unseen_cookie_is_transient() {
    let mut demux: Sessions<()> = Sessions::new();
    match demux.on_packet(packet(Cookie::Single(9), vec![5])) {
        SessionEvent::Transient(cookie, message) => {
            assert_eq!(cookie, 9);
            assert_eq!(message.mode(), Mode::End);
            assert_eq!(&message.bytes()[..], &[5]);
        }
        _ => panic!("expected a transient session"),
    }
    assert!(!demux.is_live(9));
}

#[test]
fn reopening_a_retired_cookie() {
    let mut demux: Sessions<()> = Sessions::new();
    assert!(matches!(
        demux.on_packet(packet(Cookie::Stream(3), vec![1])),
        SessionEvent::Opened(3, _)
    ));
    assert!(matches!(
        demux.on_packet(packet(Cookie::Single(3), vec![2])),
        SessionEvent::Closed(3, _)
    ));
    assert!(matches!(
        demux.on_packet(packet(Cookie::Stream(3), vec![3])),
        SessionEvent::Opened(3, _)
    ));
    assert!(demux.is_live(3));
}

#[test]
fn message_from_packet_maps_modes() {
    let m = Message::from(packet(Cookie::Oneshot, vec![1]));
    assert_eq!(m.mode(), Mode::NoReply);
    let m = Message::from(packet(Cookie::Stream(4), vec![2]));
    assert_eq!(m.mode(), Mode::More);
    let m = Message::from(packet(Cookie::Single(4), vec![3]));
    assert_eq!(m.mode(), Mode::End);
    assert_eq!(&m.bytes()[..], &[3]);
}

#[test]
fn message_into_packet_maps_modes() {
    let m: Message<()> = Message::new(Mode::More, Bytes::from(vec![6]));
    let p = m.into_packet(12);
    assert_eq!(p.cookie(), Cookie::Stream(12));
    assert_eq!(&p.bytes()[..], &[6]);

    let m: Message<()> = Message::new(Mode::End, Bytes::from(vec![7]));
    assert_eq!(m.into_packet(12).cookie(), Cookie::Single(12));

    let m: Message<()> = Message::new(Mode::NoReply, Bytes::from(vec![8]));
    assert_eq!(m.into_packet(12).cookie(), Cookie::Oneshot);
}

#[test]
fn message_with_format_keeps_contents() {
    let m: Message<()> = Message::new(Mode::More, Bytes::from(vec![1, 2]));
    let m: Message<protociolla::MessagePack> = m.with_format();
    assert_eq!(m.mode(), Mode::More);
    assert_eq!(&m.bytes()[..], &[1, 2]);
}

#[test]
fn cookie_allocation_is_fresh_and_bounded() {
    let mut allocator = protociolla::CookieAllocator::new();
    assert_eq!(allocator.allocate(), Some(1));
    assert_eq!(allocator.allocate(), Some(2));
    let mut last = 2;
    for expected in 3..=0x7fff_u16 {
        let got = allocator.allocate().unwrap();
        assert_eq!(got, expected);
        assert!(got > last);
        last = got;
    }
    assert_eq!(allocator.allocate(), None);
    assert_eq!(allocator.allocate(), None);
}

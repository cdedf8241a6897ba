//! The frame codec: length-prefixed (header, payload-fragment) framing over a
//! byte buffer.
//!
//! Decoding reads a 4-byte big-endian header, then exactly the header's
//! effective length of payload bytes; with fewer bytes buffered it consumes
//! nothing and asks for more. Encoding appends the header's four bytes and
//! the payload. Any 4 bytes are a valid header, so decoding cannot fail.

use vstd::prelude::*;

use bytes::Bytes;
use bytes::BytesMut;

use crate::buffer::bytes_mut_advance;
use crate::buffer::bytes_mut_extend_bytes;
use crate::buffer::bytes_mut_freeze;
use crate::buffer::bytes_mut_get;
use crate::buffer::bytes_mut_len;
use crate::buffer::bytes_mut_put_u16;
use crate::buffer::bytes_mut_split_to;
use crate::buffer::bytes_mut_view;
use crate::buffer::bytes_view;
use crate::packet::Header;

verus! {

/// The wire bytes of one fragment: four header bytes, then the payload.
pub open spec fn spec_frame(header: Header, payload: Seq<u8>) -> Seq<u8> {
    header.spec_bytes() + payload
}

/// A fragment as framed on the wire: the payload holds exactly the effective
/// length the header announces.
pub open spec fn spec_frame_wf(header: Header, payload: Seq<u8>) -> bool {
    payload.len() == header.spec_length()
}

/// The number of buffered bytes one decode step would consume.
pub open spec fn spec_frame_len(s: Seq<u8>) -> int {
    4 + Header::spec_parse(s).spec_length()
}

/// Whether a buffer holds a complete frame at its front.
pub open spec fn spec_can_decode(s: Seq<u8>) -> bool {
    s.len() >= 4 && s.len() >= spec_frame_len(s)
}

/// The wire bytes of a sequence of fragments, in order.
pub open spec fn spec_wire(frags: Seq<(Header, Seq<u8>)>) -> Seq<u8>
    decreases frags.len(),
{
    if frags.len() == 0 {
        Seq::empty()
    } else {
        spec_frame(frags[0].0, frags[0].1) + spec_wire(frags.drop_first())
    }
}

/// Decoding frames from the front of a buffer for as long as one is
/// complete: the fragments taken, and the bytes left over.
pub open spec fn spec_decode_run(s: Seq<u8>) -> (Seq<(Header, Seq<u8>)>, Seq<u8>)
    decreases s.len(),
{
    if spec_can_decode(s) {
        let rest = spec_decode_run(s.skip(spec_frame_len(s)));
        (seq![(Header::spec_parse(s), s.subrange(4, spec_frame_len(s)))] + rest.0, rest.1)
    } else {
        (Seq::empty(), s)
    }
}

/// Transforms a byte stream to and from a stream of (header, payload
/// fragment) pairs.
pub struct Codec;

impl Default for Codec {
    fn default() -> (r: Codec)
        ensures
            r == (Codec {}),
    {
        Codec
    }
}

impl Codec {
    /// Decode one frame from the front of `buf`, if a complete one is
    /// buffered; otherwise leave the buffer untouched and return `None`.
    pub fn decode(&mut self, buf: &mut BytesMut) -> (r: Option<(Header, Bytes)>)
        ensures
            !spec_can_decode(bytes_mut_view(*old(buf))) ==> {
                &&& r is None
                &&& bytes_mut_view(*final(buf)) == bytes_mut_view(*old(buf))
            },
            spec_can_decode(bytes_mut_view(*old(buf))) ==> {
                let s = bytes_mut_view(*old(buf));
                &&& r matches Some((header, payload))
                &&& header == Header::spec_parse(s)
                &&& bytes_view(payload) == s.subrange(4, spec_frame_len(s))
                &&& bytes_mut_view(*final(buf)) == s.skip(spec_frame_len(s))
            },
    {
        let ghost s = bytes_mut_view(*buf);
        let len = bytes_mut_len(buf);
        if len < 4 {
            return None;
        }

        let b0 = bytes_mut_get(buf, 0);
        let b1 = bytes_mut_get(buf, 1);
        let b2 = bytes_mut_get(buf, 2);
        let b3 = bytes_mut_get(buf, 3);
        let header = Header {
            cookie: (b0 as u16) * 256 + (b1 as u16),
            length: (b2 as u16) * 256 + (b3 as u16),
        };
        assert(header == Header::spec_parse(s));

        let payload_len = header.length();
        if len - 4 < payload_len {
            assert(!spec_can_decode(s));
            return None;
        }

        bytes_mut_advance(buf, 4);
        let payload = bytes_mut_split_to(buf, payload_len);
        assert(bytes_mut_view(payload) =~= s.subrange(4, spec_frame_len(s)));
        assert(bytes_mut_view(*buf) =~= s.skip(spec_frame_len(s)));

        Some((header, bytes_mut_freeze(payload)))
    }

    /// Append one frame to `buf`: the header's four bytes, then the payload.
    pub fn encode(&mut self, item: (Header, Bytes), buf: &mut BytesMut)
        requires
            bytes_mut_view(*old(buf)).len() + 4 + bytes_view(item.1).len() <= usize::MAX,
        ensures
            bytes_mut_view(*final(buf)) == bytes_mut_view(*old(buf)) + spec_frame(
                item.0,
                bytes_view(item.1),
            ),
    {
        let ghost s = bytes_mut_view(*buf);
        let (header, payload) = item;

        bytes_mut_put_u16(buf, header.cookie);
        bytes_mut_put_u16(buf, header.length);
        bytes_mut_extend_bytes(buf, &payload);

        assert(bytes_mut_view(*buf) =~= s + spec_frame(header, bytes_view(payload)));
    }
}

/// Decoding the wire bytes of well-formed fragments takes back exactly those
/// fragments, with nothing left over.
pub proof fn lemma_decode_wire(frags: Seq<(Header, Seq<u8>)>)
    requires
        forall|i: int| 0 <= i < frags.len() ==> #[trigger] spec_frame_wf(frags[i].0, frags[i].1),
    ensures
        spec_decode_run(spec_wire(frags)).0 == frags,
        spec_decode_run(spec_wire(frags)).1 == Seq::<u8>::empty(),
    decreases frags.len(),
{
    if frags.len() == 0 {
        assert(spec_wire(frags).len() == 0);
        assert(spec_decode_run(spec_wire(frags)).0 =~= frags);
    } else {
        let header = frags[0].0;
        let payload = frags[0].1;
        let s = spec_wire(frags);
        let tail_wire = spec_wire(frags.drop_first());
        assert(s == spec_frame(header, payload) + tail_wire);
        assert(spec_frame_wf(header, payload));

        assert(s.subrange(0, 4) =~= header.spec_bytes());
        crate::packet::lemma_header_roundtrip(header);
        assert(Header::spec_parse(s) == Header::spec_parse(header.spec_bytes()));
        assert(Header::spec_parse(s) == header);
        assert(spec_frame_len(s) == 4 + payload.len());
        assert(spec_can_decode(s));

        assert(s.subrange(4, spec_frame_len(s)) =~= payload);
        assert(s.skip(spec_frame_len(s)) =~= tail_wire);

        lemma_decode_wire(frags.drop_first());

        assert(spec_decode_run(s).0 =~= frags);
    }
}

} // verus!

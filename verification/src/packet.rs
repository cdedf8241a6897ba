//! The 4-byte wire header and the cookie classification of packets.
//!
//! A header holds two big-endian 16-bit fields. Bit 15 of the cookie field is
//! the continuation flag ("more packets follow for this cookie"); bits 0..=14
//! are the cookie value, with 0 reserved for packets that take no reply. A
//! length field of `0xffff` is the sentinel "more payload fragments follow";
//! the effective payload length of a fragment is capped at `0xfffe`.

use vstd::prelude::*;

use bytes::Bytes;
use core::marker::PhantomData;

use crate::buffer::bytes_view;
use crate::format::Format;

verus! {

/// Payload bytes carried by a single fragment are capped at this many.
pub const MAX_FRAGMENT: usize = 0xfffe;

/// Sentinel value of the length field: more payload fragments follow.
pub const MORE_PAYLOAD: u16 = 0xffff;

/// The cookie for a packet: how it is routed and replied to.
#[derive(Copy, Clone, Debug, PartialEq, Eq, Structural)]
pub enum Cookie {
    /// There is no cookie; this packet will not receive any replies.
    Oneshot,
    /// The terminal packet for its cookie: no more packets follow.
    Single(u16),
    /// A non-terminal packet: more packets follow for this cookie.
    Stream(u16),
}

impl Cookie {
    /// Cookie values 1..=0x7fff identify conversations; 0 is reserved for
    /// `Oneshot`.
    pub open spec fn valid(self) -> bool {
        match self {
            Cookie::Oneshot => true,
            Cookie::Single(c) => 1 <= c <= 0x7fff,
            Cookie::Stream(c) => 1 <= c <= 0x7fff,
        }
    }
}

/// Header for a `Packet`: one fragment's cookie and length fields.
#[derive(Copy, Clone, Debug, PartialEq, Eq, Structural)]
pub struct Header {
    pub cookie: u16,
    pub length: u16,
}

/// The high byte of a 16-bit field in big-endian order.
pub open spec fn spec_hi(x: u16) -> u8 {
    (x / 256) as u8
}

/// The low byte of a 16-bit field in big-endian order.
pub open spec fn spec_lo(x: u16) -> u8 {
    (x % 256) as u8
}

/// The 16-bit field read back from two bytes in big-endian order.
pub open spec fn spec_be_u16(hi: u8, lo: u8) -> u16 {
    (hi * 256 + lo) as u16
}

/// The length field encoding an optional final-fragment size: `None` marks a
/// non-final fragment.
pub open spec fn spec_length_field(length: Option<usize>) -> u16 {
    match length {
        None => MORE_PAYLOAD,
        Some(n) => n as u16,
    }
}

impl Header {
    /// The wire cookie field built from a classification: the cookie value in
    /// bits 0..=14, the continuation flag in bit 15.
    pub open spec fn spec_cookie_field(cookie: Cookie) -> u16 {
        match cookie {
            Cookie::Oneshot => 0,
            Cookie::Single(c) => c & 0x7fff,
            Cookie::Stream(c) => (c & 0x7fff) | 0x8000,
        }
    }

    /// The header a fragment of a packet with this classification carries.
    pub open spec fn spec_new(cookie: Cookie, length: Option<usize>) -> Header {
        Header { cookie: Self::spec_cookie_field(cookie), length: spec_length_field(length) }
    }

    /// The cookie value of this header, if any.
    pub open spec fn spec_cookie(self) -> Option<u16> {
        if self.cookie & 0x7fff == 0 {
            None
        } else {
            Some(self.cookie & 0x7fff)
        }
    }

    /// The number of payload bytes that follow this header on the wire.
    pub open spec fn spec_length(self) -> usize {
        if self.length < 0xfffe {
            self.length as usize
        } else {
            0xfffe
        }
    }

    /// Whether bit 15 of the cookie field is set: more packets follow for
    /// this cookie.
    pub open spec fn spec_more_packets(self) -> bool {
        self.cookie & 0x8000 != 0
    }

    /// Whether the length field holds the continuation sentinel: more payload
    /// fragments follow for this packet.
    pub open spec fn spec_more_payload(self) -> bool {
        self.length == MORE_PAYLOAD
    }

    /// The classification a receiver derives from this header.
    pub open spec fn classify(self) -> Cookie {
        match self.spec_cookie() {
            None => Cookie::Oneshot,
            Some(c) => if self.spec_more_packets() {
                Cookie::Stream(c)
            } else {
                Cookie::Single(c)
            },
        }
    }

    /// The four bytes of this header in wire order.
    pub open spec fn spec_bytes(self) -> Seq<u8> {
        seq![spec_hi(self.cookie), spec_lo(self.cookie), spec_hi(self.length), spec_lo(self.length)]
    }

    /// The header read back from the first four bytes of a buffer.
    pub open spec fn spec_parse(s: Seq<u8>) -> Header
        recommends
            s.len() >= 4,
    {
        Header { cookie: spec_be_u16(s[0], s[1]), length: spec_be_u16(s[2], s[3]) }
    }

    fn make_length(value: Option<usize>) -> (r: u16)
        requires
            value matches Some(n) ==> n <= MAX_FRAGMENT,
        ensures
            r == spec_length_field(value),
    {
        if let Some(value) = value {
            value as u16
        } else {
            MORE_PAYLOAD
        }
    }

    /// Construct a `Header` for a fragment of an `Oneshot` packet.
    pub fn oneshot(length: Option<usize>) -> (r: Header)
        requires
            length matches Some(n) ==> n <= MAX_FRAGMENT,
        ensures
            r == Self::spec_new(Cookie::Oneshot, length),
    {
        Header { cookie: 0, length: Self::make_length(length) }
    }

    /// Construct a `Header` for a fragment of a `Single` packet.
    pub fn single(cookie: u16, length: Option<usize>) -> (r: Header)
        requires
            length matches Some(n) ==> n <= MAX_FRAGMENT,
        ensures
            r == Self::spec_new(Cookie::Single(cookie), length),
    {
        Header { cookie: cookie & 0x7fff, length: Self::make_length(length) }
    }

    /// Construct a `Header` for a fragment of a `Stream` packet.
    pub fn stream(cookie: u16, length: Option<usize>) -> (r: Header)
        requires
            length matches Some(n) ==> n <= MAX_FRAGMENT,
        ensures
            r == Self::spec_new(Cookie::Stream(cookie), length),
    {
        Header { cookie: (cookie & 0x7fff) | 0x8000, length: Self::make_length(length) }
    }

    /// Get the cookie value, if any: `None` when bits 0..=14 are all clear.
    pub fn cookie(&self) -> (r: Option<u16>)
        ensures
            r == self.spec_cookie(),
    {
        match self.cookie & 0x7fff {
            0 => None,
            v => Some(v),
        }
    }

    /// Get the effective payload length of this fragment: the length field
    /// capped at `MAX_FRAGMENT`.
    pub fn length(&self) -> (r: usize)
        ensures
            r == self.spec_length(),
    {
        if self.length < 0xfffe {
            self.length as usize
        } else {
            0xfffe
        }
    }

    /// Check if there are more packets in this stream: bit 15 of the cookie
    /// field is set.
    pub fn has_more_packets(&self) -> (r: bool)
        ensures
            r == (self.cookie & 0x8000 != 0),
            r == self.spec_more_packets(),
    {
        (self.cookie & 0x8000) != 0
    }

    /// Check if there are more payload fragments in this packet: the length
    /// field holds the sentinel `MORE_PAYLOAD`.
    pub fn has_more_payload(&self) -> (r: bool)
        ensures
            r == (self.length == MORE_PAYLOAD),
            r == self.spec_more_payload(),
    {
        self.length == MORE_PAYLOAD
    }
}

/// Round-tripping a header through its wire bytes reproduces it bit-exactly.
pub proof fn lemma_header_roundtrip(h: Header)
    ensures
        Header::spec_parse(h.spec_bytes()) == h,
{
    let c = h.cookie;
    let l = h.length;
    assert(spec_be_u16(spec_hi(c), spec_lo(c)) == c) by (bit_vector);
    assert(spec_be_u16(spec_hi(l), spec_lo(l)) == l) by (bit_vector);
}

/// A header built from a valid classification classifies back to it, whatever
/// the length field says.
pub proof fn lemma_classify_roundtrip(cookie: Cookie, length: Option<usize>)
    requires
        cookie.valid(),
    ensures
        Header::spec_new(cookie, length).classify() == cookie,
{
    match cookie {
        Cookie::Oneshot => {
            assert(0u16 & 0x7fff == 0) by (bit_vector);
        }
        Cookie::Single(c) => {
            assert((c & 0x7fff) & 0x7fff == c && (c & 0x7fff) & 0x8000 == 0) by (bit_vector)
                requires
                    1 <= c <= 0x7fff,
            ;
        }
        Cookie::Stream(c) => {
            assert(((c & 0x7fff) | 0x8000) & 0x7fff == c && ((c & 0x7fff) | 0x8000) & 0x8000 != 0)
                by (bit_vector)
                requires
                    1 <= c <= 0x7fff,
            ;
        }
    }
}

/// A fully formed packet: a classification and a defragmented payload, bound
/// to a payload format tag.
#[derive(Clone)]
pub struct Packet<F> {
    pub cookie: Cookie,
    pub bytes: Bytes,
    pub _marker: PhantomData<F>,
}

impl<F> Packet<F> {
    /// The payload bytes of the packet.
    pub open spec fn payload(self) -> Seq<u8> {
        bytes_view(self.bytes)
    }
}

impl Packet<()> {
    /// Decide on the `Format` to use for this packet.
    pub fn with_format<F: Format>(self) -> (r: Packet<F>)
        ensures
            r.cookie == self.cookie,
            r.bytes == self.bytes,
    {
        Packet { cookie: self.cookie, bytes: self.bytes, _marker: PhantomData }
    }
}

impl<F: Format> Packet<F> {
    /// Create a packet from a `cookie` and payload.
    pub fn new(cookie: Cookie, payload: Bytes) -> (r: Packet<F>)
        ensures
            r.cookie == cookie,
            r.bytes == payload,
    {
        Packet { cookie, bytes: payload, _marker: PhantomData }
    }

    /// The cookie for the packet.
    pub fn cookie(&self) -> (r: Cookie)
        ensures
            r == self.cookie,
    {
        self.cookie
    }

    /// The payload of the packet.
    pub fn bytes(&self) -> (r: &Bytes)
        ensures
            *r == self.bytes,
    {
        &self.bytes
    }
}

} // verus!

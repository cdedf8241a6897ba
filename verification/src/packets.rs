//! The packets layer: defragment incoming (header, fragment) pairs into
//! whole packets, and fragment outgoing packets back.
//!
//! Ingress accumulates fragment payloads until a header arrives whose length
//! field is not the continuation sentinel, then emits one packet classified
//! by that final header. Egress cuts a payload into fragments of at most
//! `MAX_FRAGMENT` bytes — always at least one, even when empty — marking
//! every fragment but the last with the sentinel.

use vstd::prelude::*;

use bytes::Bytes;
use bytes::BytesMut;
use core::marker::PhantomData;

use crate::buffer::bytes_len;
use crate::buffer::bytes_mut_extend_bytes;
use crate::buffer::bytes_mut_len;
use crate::buffer::bytes_mut_freeze;
use crate::buffer::bytes_mut_new;
use crate::buffer::bytes_mut_split;
use crate::buffer::bytes_mut_view;
use crate::buffer::bytes_slice;
use crate::buffer::bytes_view;
use crate::codec::spec_frame_wf;
use crate::format::Format;
use crate::packet::Cookie;
use crate::packet::Header;
use crate::packet::MAX_FRAGMENT;
use crate::packet::Packet;
use crate::packet::lemma_classify_roundtrip;

verus! {

/// The fragments that carry a packet with the given classification and
/// payload, in wire order.
pub open spec fn spec_fragments(cookie: Cookie, payload: Seq<u8>) -> Seq<(Header, Seq<u8>)>
    decreases payload.len(),
{
    if payload.len() <= MAX_FRAGMENT {
        seq![(Header::spec_new(cookie, Some(payload.len() as usize)), payload)]
    } else {
        seq![(Header::spec_new(cookie, None), payload.take(MAX_FRAGMENT as int))]
            + spec_fragments(cookie, payload.skip(MAX_FRAGMENT as int))
    }
}

/// One defragmentation step: append the fragment to the buffer; when the
/// header closes the packet, emit the buffered payload under the header's
/// classification and start afresh.
pub open spec fn spec_defrag_step(buf: Seq<u8>, header: Header, payload: Seq<u8>) -> (
    Seq<u8>,
    Option<(Cookie, Seq<u8>)>,
) {
    if header.spec_more_payload() {
        (buf + payload, None)
    } else {
        (Seq::<u8>::empty(), Some((header.classify(), buf + payload)))
    }
}

/// The packets an emitted step contributes: none, or one.
pub open spec fn spec_emit(packet: Option<(Cookie, Seq<u8>)>) -> Seq<(Cookie, Seq<u8>)> {
    match packet {
        None => Seq::empty(),
        Some(p) => seq![p],
    }
}

/// Running the defragmenter over a sequence of fragments: the payload left
/// buffered, and the packets emitted in order.
pub open spec fn spec_defrag_run(buf: Seq<u8>, frags: Seq<(Header, Seq<u8>)>) -> (
    Seq<u8>,
    Seq<(Cookie, Seq<u8>)>,
)
    decreases frags.len(),
{
    if frags.len() == 0 {
        (buf, Seq::empty())
    } else {
        let step = spec_defrag_step(buf, frags[0].0, frags[0].1);
        let rest = spec_defrag_run(step.0, frags.drop_first());
        (rest.0, spec_emit(step.1) + rest.1)
    }
}

/// The (header, payload) views of a vector of fragments.
pub open spec fn spec_frag_views(frags: Seq<(Header, Bytes)>) -> Seq<(Header, Seq<u8>)> {
    frags.map_values(|frag: (Header, Bytes)| (frag.0, bytes_view(frag.1)))
}

/// Reframes a stream of (header, fragment) pairs into a stream of whole
/// packets: the state is the payload accumulated for the packet in flight.
pub struct Packets<F> {
    buffer: BytesMut,
    _marker: PhantomData<F>,
}

fn make_header(cookie: Cookie, length: Option<usize>) -> (r: Header)
    requires
        length matches Some(n) ==> n <= MAX_FRAGMENT,
    ensures
        r == Header::spec_new(cookie, length),
{
    match cookie {
        Cookie::Oneshot => Header::oneshot(length),
        Cookie::Single(c) => Header::single(c, length),
        Cookie::Stream(c) => Header::stream(c, length),
    }
}

impl<F: Format> Packets<F> {
    /// The payload accumulated so far for the packet being reassembled.
    pub closed spec fn buffered(self) -> Seq<u8> {
        bytes_mut_view(self.buffer)
    }

    /// A defragmenter with nothing buffered.
    pub fn new() -> (r: Packets<F>)
        ensures
            r.buffered() == Seq::<u8>::empty(),
    {
        Packets { buffer: bytes_mut_new(), _marker: PhantomData }
    }

    /// How many payload bytes are buffered for the packet in flight.
    pub fn buffered_len(&self) -> (r: usize)
        ensures
            r == self.buffered().len(),
    {
        bytes_mut_len(&self.buffer)
    }

    /// Feed one (header, fragment) pair to the defragmenter; a whole packet
    /// comes back when this header closes one.
    pub fn push(&mut self, header: Header, payload: &Bytes) -> (r: Option<Packet<F>>)
        requires
            old(self).buffered().len() + bytes_view(*payload).len() <= usize::MAX,
        ensures
            ({
                let step = spec_defrag_step(old(self).buffered(), header, bytes_view(*payload));
                &&& final(self).buffered() == step.0
                &&& r is None <==> step.1 is None
                &&& r matches Some(packet) ==> step.1 == Some(
                    (packet.cookie, bytes_view(packet.bytes)),
                )
            }),
    {
        bytes_mut_extend_bytes(&mut self.buffer, payload);

        if header.has_more_payload() {
            None
        } else {
            let whole = bytes_mut_split(&mut self.buffer);
            let bytes = bytes_mut_freeze(whole);
            Some(
                match header.cookie() {
                    None => Packet::new(Cookie::Oneshot, bytes),
                    Some(c) => if header.has_more_packets() {
                        Packet::new(Cookie::Stream(c), bytes)
                    } else {
                        Packet::new(Cookie::Single(c), bytes)
                    },
                },
            )
        }
    }

    /// Cut an outgoing packet into its wire fragments.
    pub fn fragment(packet: &Packet<F>) -> (r: Vec<(Header, Bytes)>)
        ensures
            spec_frag_views(r@) == spec_fragments(packet.cookie, packet.payload()),
    {
        let cookie = packet.cookie();
        let total = bytes_len(packet.bytes());
        let mut out: Vec<(Header, Bytes)> = Vec::new();
        let mut offset: usize = 0;

        proof {
            assert(packet.payload().skip(0) =~= packet.payload());
            assert(spec_frag_views(out@) + spec_fragments(packet.cookie, packet.payload().skip(0))
                =~= spec_fragments(packet.cookie, packet.payload()));
        }

        while total - offset > MAX_FRAGMENT
            invariant
                offset <= total,
                total == packet.payload().len(),
                cookie == packet.cookie,
                spec_fragments(packet.cookie, packet.payload()) == spec_frag_views(out@)
                    + spec_fragments(packet.cookie, packet.payload().skip(offset as int)),
            decreases total - offset,
        {
            let ghost prev = out@;
            let ghost before = packet.payload().skip(offset as int);
            let chunk = bytes_slice(packet.bytes(), offset, offset + MAX_FRAGMENT);
            let header = make_header(cookie, None);
            out.push((header, chunk));
            offset = offset + MAX_FRAGMENT;

            proof {
                assert(bytes_view(chunk) =~= before.take(MAX_FRAGMENT as int));
                assert(before.skip(MAX_FRAGMENT as int) =~= packet.payload().skip(offset as int));
                assert(spec_fragments(packet.cookie, before) == seq![
                    (header, before.take(MAX_FRAGMENT as int)),
                ] + spec_fragments(packet.cookie, before.skip(MAX_FRAGMENT as int)));
                assert(spec_frag_views(out@) =~= spec_frag_views(prev) + seq![
                    (header, bytes_view(chunk)),
                ]);
                assert(spec_fragments(packet.cookie, packet.payload()) =~= spec_frag_views(out@)
                    + spec_fragments(packet.cookie, packet.payload().skip(offset as int)));
            }
        }

        let ghost prev = out@;
        let ghost before = packet.payload().skip(offset as int);
        let chunk = bytes_slice(packet.bytes(), offset, total);
        let header = make_header(cookie, Some(total - offset));
        out.push((header, chunk));

        proof {
            assert(bytes_view(chunk) =~= before);
            assert(before.len() == total - offset);
            assert(spec_fragments(packet.cookie, before) == seq![
                (Header::spec_new(packet.cookie, Some(before.len() as usize)), before),
            ]);
            assert(header == Header::spec_new(packet.cookie, Some(before.len() as usize)));
            assert(spec_frag_views(out@) =~= spec_frag_views(prev) + seq![
                (header, bytes_view(chunk)),
            ]);
            assert(spec_frag_views(out@) =~= spec_fragments(packet.cookie, packet.payload()));
        }

        out
    }
}

/// Every fragment a packet is cut into is well formed as framed on the wire:
/// its payload holds exactly the effective length its header announces.
pub proof fn lemma_fragments_wf(cookie: Cookie, payload: Seq<u8>)
    ensures
        forall|i: int|
            0 <= i < spec_fragments(cookie, payload).len() ==> #[trigger] spec_frame_wf(
                spec_fragments(cookie, payload)[i].0,
                spec_fragments(cookie, payload)[i].1,
            ),
    decreases payload.len(),
{
    let frags = spec_fragments(cookie, payload);
    if payload.len() <= MAX_FRAGMENT {
        let header = Header::spec_new(cookie, Some(payload.len() as usize));
        assert(frags == seq![(header, payload)]);
        assert(spec_frame_wf(frags[0].0, frags[0].1));
    } else {
        let rest = payload.skip(MAX_FRAGMENT as int);
        let tail = spec_fragments(cookie, rest);
        let header = Header::spec_new(cookie, None);
        lemma_fragments_wf(cookie, rest);
        assert(frags == seq![(header, payload.take(MAX_FRAGMENT as int))] + tail);
        assert forall|i: int| 0 <= i < frags.len() implies #[trigger] spec_frame_wf(
            frags[i].0,
            frags[i].1,
        ) by {
            if i == 0 {
                assert(frags[0] == (header, payload.take(MAX_FRAGMENT as int)));
                assert(payload.take(MAX_FRAGMENT as int).len() == header.spec_length());
            } else {
                assert(frags[i] == tail[i - 1]);
                assert(spec_frame_wf(tail[i - 1].0, tail[i - 1].1));
            }
        }
    }
}

/// Defragmenting the fragments of a packet, whatever payload is already
/// buffered, emits exactly one packet: the buffered payload extended by the
/// packet's own, under the packet's classification.
pub proof fn lemma_defrag_fragments(buf: Seq<u8>, cookie: Cookie, payload: Seq<u8>)
    requires
        cookie.valid(),
    ensures
        spec_defrag_run(buf, spec_fragments(cookie, payload)).0 == Seq::<u8>::empty(),
        spec_defrag_run(buf, spec_fragments(cookie, payload)).1 == seq![(cookie, buf + payload)],
    decreases payload.len(),
{
    let frags = spec_fragments(cookie, payload);
    if payload.len() <= MAX_FRAGMENT {
        let header = Header::spec_new(cookie, Some(payload.len() as usize));
        assert(frags == seq![(header, payload)]);
        assert(!header.spec_more_payload());
        lemma_classify_roundtrip(cookie, Some(payload.len() as usize));
        let step = spec_defrag_step(buf, header, payload);
        assert(step.1 == Some((cookie, buf + payload)));
        assert(frags.drop_first().len() == 0);
        assert(spec_defrag_run(step.0, frags.drop_first()) == (
            step.0,
            Seq::<(Cookie, Seq<u8>)>::empty(),
        ));
        assert(spec_defrag_run(buf, frags).0 == Seq::<u8>::empty());
        assert(spec_defrag_run(buf, frags).1 =~= seq![(cookie, buf + payload)]);
    } else {
        let header = Header::spec_new(cookie, None);
        assert(header.spec_more_payload());
        let first = payload.take(MAX_FRAGMENT as int);
        let rest = payload.skip(MAX_FRAGMENT as int);
        assert(frags == seq![(header, first)] + spec_fragments(cookie, rest));
        assert(frags.drop_first() =~= spec_fragments(cookie, rest));
        let step = spec_defrag_step(buf, header, first);
        assert(step == (buf + first, Option::<(Cookie, Seq<u8>)>::None));
        lemma_defrag_fragments(buf + first, cookie, rest);
        assert(spec_defrag_run(step.0, frags.drop_first()).0 == Seq::<u8>::empty());
        assert(spec_defrag_run(step.0, frags.drop_first()).1 == seq![
            (cookie, (buf + first) + rest),
        ]);
        assert((buf + first) + rest =~= buf + payload);
        assert(spec_defrag_run(buf, frags).0 == Seq::<u8>::empty());
        assert(spec_defrag_run(buf, frags).1 =~= seq![(cookie, buf + payload)]);
    }
}

/// Fragmenting a packet and defragmenting what comes out reproduces the
/// packet, classification and payload alike.
pub proof fn lemma_fragment_roundtrip(cookie: Cookie, payload: Seq<u8>)
    requires
        cookie.valid(),
    ensures
        spec_defrag_run(Seq::<u8>::empty(), spec_fragments(cookie, payload)) == (
            Seq::<u8>::empty(),
            seq![(cookie, payload)],
        ),
{
    lemma_defrag_fragments(Seq::<u8>::empty(), cookie, payload);
    assert(Seq::<u8>::empty() + payload =~= payload);
}

/// The fragments of a sequence of packets, in wire order.
pub open spec fn spec_fragments_all(packets: Seq<(Cookie, Seq<u8>)>) -> Seq<(Header, Seq<u8>)>
    decreases packets.len(),
{
    if packets.len() == 0 {
        Seq::empty()
    } else {
        spec_fragments(packets[0].0, packets[0].1) + spec_fragments_all(packets.drop_first())
    }
}

proof fn lemma_fragments_all_wf(packets: Seq<(Cookie, Seq<u8>)>)
    ensures
        forall|i: int|
            0 <= i < spec_fragments_all(packets).len() ==> #[trigger] spec_frame_wf(
                spec_fragments_all(packets)[i].0,
                spec_fragments_all(packets)[i].1,
            ),
    decreases packets.len(),
{
    if packets.len() == 0 {
    } else {
        let frags = spec_fragments_all(packets);
        let head = spec_fragments(packets[0].0, packets[0].1);
        let tail = spec_fragments_all(packets.drop_first());
        lemma_fragments_wf(packets[0].0, packets[0].1);
        lemma_fragments_all_wf(packets.drop_first());
        assert(frags == head + tail);
        assert forall|i: int| 0 <= i < frags.len() implies #[trigger] spec_frame_wf(
            frags[i].0,
            frags[i].1,
        ) by {
            if i < head.len() {
                assert(frags[i] == head[i]);
                assert(spec_frame_wf(head[i].0, head[i].1));
            } else {
                assert(frags[i] == tail[i - head.len()]);
                assert(spec_frame_wf(tail[i - head.len()].0, tail[i - head.len()].1));
            }
        }
    }
}

proof fn lemma_defrag_run_append(
    buf: Seq<u8>,
    a: Seq<(Header, Seq<u8>)>,
    b: Seq<(Header, Seq<u8>)>,
)
    ensures
        spec_defrag_run(buf, a + b).0 == spec_defrag_run(spec_defrag_run(buf, a).0, b).0,
        spec_defrag_run(buf, a + b).1 == spec_defrag_run(buf, a).1 + spec_defrag_run(
            spec_defrag_run(buf, a).0,
            b,
        ).1,
    decreases a.len(),
{
    if a.len() == 0 {
        assert(a + b =~= b);
        assert(spec_defrag_run(buf, a) == (buf, Seq::<(Cookie, Seq<u8>)>::empty()));
        assert(spec_defrag_run(buf, a).1 + spec_defrag_run(buf, b).1 =~= spec_defrag_run(
            buf,
            b,
        ).1);
    } else {
        let step = spec_defrag_step(buf, a[0].0, a[0].1);
        assert((a + b)[0] == a[0]);
        assert((a + b).drop_first() =~= a.drop_first() + b);
        lemma_defrag_run_append(step.0, a.drop_first(), b);
        assert(spec_defrag_run(buf, a + b).1 =~= spec_defrag_run(buf, a).1 + spec_defrag_run(
            spec_defrag_run(buf, a).0,
            b,
        ).1);
    }
}

proof fn lemma_defrag_all(packets: Seq<(Cookie, Seq<u8>)>)
    requires
        forall|i: int| 0 <= i < packets.len() ==> (#[trigger] packets[i].0).valid(),
    ensures
        spec_defrag_run(Seq::<u8>::empty(), spec_fragments_all(packets)).0 == Seq::<u8>::empty(),
        spec_defrag_run(Seq::<u8>::empty(), spec_fragments_all(packets)).1 == packets,
    decreases packets.len(),
{
    if packets.len() == 0 {
        assert(spec_defrag_run(Seq::<u8>::empty(), spec_fragments_all(packets)).1 =~= packets);
    } else {
        let head = spec_fragments(packets[0].0, packets[0].1);
        let tail = packets.drop_first();
        assert(spec_fragments_all(packets) == head + spec_fragments_all(tail));
        lemma_defrag_run_append(Seq::<u8>::empty(), head, spec_fragments_all(tail));
        assert(packets[0].0.valid());
        lemma_fragment_roundtrip(packets[0].0, packets[0].1);
        assert forall|i: int| 0 <= i < tail.len() implies (#[trigger] tail[i].0).valid() by {
            assert(tail[i] == packets[i + 1]);
        }
        lemma_defrag_all(tail);
        assert(spec_defrag_run(Seq::<u8>::empty(), spec_fragments_all(packets)).1 =~= packets);
    }
}

/// Any sequence of packets sent through the fragmenter, framed onto the
/// wire, decoded back into fragments and defragmented comes out unchanged,
/// with no bytes or partial packets left behind.
pub proof fn lemma_pipeline_roundtrip(packets: Seq<(Cookie, Seq<u8>)>)
    requires
        forall|i: int| 0 <= i < packets.len() ==> (#[trigger] packets[i].0).valid(),
    ensures
        ({
            let decoded = crate::codec::spec_decode_run(
                crate::codec::spec_wire(spec_fragments_all(packets)),
            );
            &&& decoded.0 == spec_fragments_all(packets)
            &&& decoded.1 == Seq::<u8>::empty()
            &&& spec_defrag_run(Seq::<u8>::empty(), decoded.0).0 == Seq::<u8>::empty()
            &&& spec_defrag_run(Seq::<u8>::empty(), decoded.0).1 == packets
        }),
{
    lemma_fragments_all_wf(packets);
    crate::codec::lemma_decode_wire(spec_fragments_all(packets));
    lemma_defrag_all(packets);
}

} // verus!

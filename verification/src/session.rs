//! The sessions layer: demultiplex whole packets onto independent
//! per-cookie sessions.
//!
//! The demultiplexer keeps the set of live cookies. A packet with no cookie
//! becomes a fresh reply-less session around its single message. The first
//! `Stream` packet for a cookie opens a session that stays live; a `Single`
//! packet delivers the terminal message and retires the cookie — or, for a
//! cookie never seen, opens a transient session that is not retained. In
//! every case the packet's message is delivered to the session of its cookie
//! the moment the packet is processed, so each session sees its messages in
//! wire order.

use vstd::prelude::*;

use core::marker::PhantomData;

use crate::format::Format;
use crate::message::Message;
use crate::message::spec_message_of;
use crate::packet::Cookie;
use crate::packet::Packet;

verus! {

/// What the demultiplexer decides to do with one incoming packet.
pub enum SessionEvent<F> {
    /// Emit a fresh reply-less session holding this single message.
    Oneshot(Message<F>),
    /// A cookie not yet live: emit a new session for it, keep it live, and
    /// deliver the message to it.
    Opened(u16, Message<F>),
    /// Deliver the message to the already-live session of the cookie.
    Delivered(u16, Message<F>),
    /// Deliver the terminal message to the live session of the cookie and
    /// retire the cookie.
    Closed(u16, Message<F>),
    /// A terminal packet for a cookie never seen: emit a new session,
    /// deliver the terminal message, and do not retain the cookie.
    Transient(u16, Message<F>),
}

/// The decision taken for one packet, given the cookies currently live.
pub open spec fn spec_demux_event<F>(live: Set<u16>, packet: Packet<F>) -> SessionEvent<F> {
    match packet.cookie {
        Cookie::Oneshot => SessionEvent::Oneshot(spec_message_of(packet)),
        Cookie::Stream(c) => if live.contains(c) {
            SessionEvent::Delivered(c, spec_message_of(packet))
        } else {
            SessionEvent::Opened(c, spec_message_of(packet))
        },
        Cookie::Single(c) => if live.contains(c) {
            SessionEvent::Closed(c, spec_message_of(packet))
        } else {
            SessionEvent::Transient(c, spec_message_of(packet))
        },
    }
}

/// The cookies live after one packet is processed.
pub open spec fn spec_demux_live<F>(live: Set<u16>, packet: Packet<F>) -> Set<u16> {
    match packet.cookie {
        Cookie::Oneshot => live,
        Cookie::Stream(c) => live.insert(c),
        Cookie::Single(c) => if live.contains(c) {
            live.remove(c)
        } else {
            live
        },
    }
}

/// Processing a sequence of packets in order: the cookies left live, and the
/// decisions taken, one per packet.
pub open spec fn spec_demux_run<F>(live: Set<u16>, packets: Seq<Packet<F>>) -> (
    Set<u16>,
    Seq<SessionEvent<F>>,
)
    decreases packets.len(),
{
    if packets.len() == 0 {
        (live, Seq::empty())
    } else {
        let rest = spec_demux_run(spec_demux_live(live, packets[0]), packets.drop_first());
        (rest.0, seq![spec_demux_event(live, packets[0])] + rest.1)
    }
}

/// The session a decision delivers a message to, with the message: every
/// decision on a cookied packet delivers to that cookie's session.
pub open spec fn spec_event_delivery<F>(event: SessionEvent<F>) -> Option<(u16, Message<F>)> {
    match event {
        SessionEvent::Oneshot(_) => None,
        SessionEvent::Opened(c, m) => Some((c, m)),
        SessionEvent::Delivered(c, m) => Some((c, m)),
        SessionEvent::Closed(c, m) => Some((c, m)),
        SessionEvent::Transient(c, m) => Some((c, m)),
    }
}

/// The messages a sequence of decisions delivers to session `c`, in order.
pub open spec fn spec_delivered_to<F>(events: Seq<SessionEvent<F>>, c: u16) -> Seq<Message<F>>
    decreases events.len(),
{
    if events.len() == 0 {
        Seq::empty()
    } else {
        let rest = spec_delivered_to(events.drop_first(), c);
        match spec_event_delivery(events[0]) {
            Some(delivery) => if delivery.0 == c {
                seq![delivery.1] + rest
            } else {
                rest
            },
            None => rest,
        }
    }
}

/// The cookie a packet belongs to, if any.
pub open spec fn spec_packet_session<F>(packet: Packet<F>) -> Option<u16> {
    match packet.cookie {
        Cookie::Oneshot => None,
        Cookie::Single(c) => Some(c),
        Cookie::Stream(c) => Some(c),
    }
}

/// The messages of session `c`'s packets, in wire order.
pub open spec fn spec_session_messages<F>(packets: Seq<Packet<F>>, c: u16) -> Seq<Message<F>>
    decreases packets.len(),
{
    if packets.len() == 0 {
        Seq::empty()
    } else {
        let rest = spec_session_messages(packets.drop_first(), c);
        if spec_packet_session(packets[0]) == Some(c) {
            seq![spec_message_of(packets[0])] + rest
        } else {
            rest
        }
    }
}

/// Per-session ingress order equals wire order: whatever cookies are live to
/// begin with, the messages the demultiplexer delivers to session `c` are
/// exactly the messages of `c`'s packets, in the order the packets came.
pub proof fn lemma_session_order<F>(live: Set<u16>, packets: Seq<Packet<F>>, c: u16)
    ensures
        spec_delivered_to(spec_demux_run(live, packets).1, c) == spec_session_messages(
            packets,
            c,
        ),
    decreases packets.len(),
{
    if packets.len() == 0 {
    } else {
        let event = spec_demux_event(live, packets[0]);
        let events = spec_demux_run(live, packets).1;
        lemma_session_order(spec_demux_live(live, packets[0]), packets.drop_first(), c);
        assert(events == seq![event] + spec_demux_run(
            spec_demux_live(live, packets[0]),
            packets.drop_first(),
        ).1);
        assert(events[0] == event);
        assert(events.drop_first() =~= spec_demux_run(
            spec_demux_live(live, packets[0]),
            packets.drop_first(),
        ).1);
        assert(spec_delivered_to(events, c) =~= spec_session_messages(packets, c));
    }
}

/// Reframes a stream of whole packets into a stream of per-cookie sessions:
/// the state is the set of cookies whose sessions are live.
pub struct Sessions<F> {
    live: Vec<u16>,
    _marker: PhantomData<F>,
}

impl<F: Format> Sessions<F> {
    /// The cookies whose sessions are live.
    pub closed spec fn live_cookies(self) -> Set<u16> {
        self.live@.to_set()
    }

    /// The demultiplexer keeps one entry per live cookie.
    pub closed spec fn wf(self) -> bool {
        self.live@.no_duplicates()
    }

    /// A demultiplexer with no live session.
    pub fn new() -> (r: Sessions<F>)
        ensures
            r.wf(),
            r.live_cookies() == Set::<u16>::empty(),
    {
        let r = Sessions { live: Vec::new(), _marker: PhantomData };
        proof {
            assert(r.live@.to_set() =~= Set::<u16>::empty());
        }
        r
    }

    /// Whether a session for this cookie is live.
    pub fn is_live(&self, cookie: u16) -> (r: bool)
        ensures
            r == self.live_cookies().contains(cookie),
    {
        let mut i: usize = 0;
        while i < self.live.len()
            invariant
                i <= self.live.len(),
                forall|k: int| 0 <= k < i ==> self.live@[k] != cookie,
            decreases self.live.len() - i,
        {
            if self.live[i] == cookie {
                return true;
            }
            i = i + 1;
        }
        false
    }

    /// Take the demultiplexer's decision for one incoming packet, updating
    /// the live set accordingly.
    pub fn on_packet(&mut self, packet: Packet<F>) -> (r: SessionEvent<F>)
        requires
            old(self).wf(),
        ensures
            final(self).wf(),
            r == spec_demux_event(old(self).live_cookies(), packet),
            final(self).live_cookies() == spec_demux_live(old(self).live_cookies(), packet),
    {
        let cookie = packet.cookie();
        let message = Message::from(packet);
        match cookie {
            Cookie::Oneshot => SessionEvent::Oneshot(message),
            Cookie::Stream(c) => {
                if self.is_live(c) {
                    SessionEvent::Delivered(c, message)
                } else {
                    self.live.push(c);
                    proof {
                        let s = old(self).live@;
                        assert forall|x: u16| self.live@.to_set().contains(x) implies s.to_set()
                            .insert(c).contains(x) by {
                            let k = choose|k: int|
                                0 <= k < s.push(c).len() && s.push(c)[k] == x;
                            if k < s.len() {
                                assert(s[k] == x);
                            }
                        }
                        assert forall|x: u16| s.to_set().insert(c).contains(x) implies self.live@
                            .to_set().contains(x) by {
                            if x == c {
                                assert(s.push(c)[s.len() as int] == x);
                            } else {
                                let k = choose|k: int| 0 <= k < s.len() && s[k] == x;
                                assert(s.push(c)[k] == x);
                            }
                        }
                        assert(self.live@.to_set() =~= old(self).live@.to_set().insert(c));
                        assert(self.live@.no_duplicates());
                    }
                    SessionEvent::Opened(c, message)
                }
            }
            Cookie::Single(c) => {
                if self.is_live(c) {
                    self.retire(c);
                    SessionEvent::Closed(c, message)
                } else {
                    SessionEvent::Transient(c, message)
                }
            }
        }
    }

    /// Remove a live cookie's entry.
    fn retire(&mut self, cookie: u16)
        requires
            old(self).wf(),
            old(self).live_cookies().contains(cookie),
        ensures
            final(self).wf(),
            final(self).live_cookies() == old(self).live_cookies().remove(cookie),
    {
        let ghost s = self.live@;
        let mut i: usize = 0;
        while self.live[i] != cookie
            invariant
                self.live@ == s,
                i < self.live.len(),
                forall|k: int| 0 <= k < i ==> self.live@[k] != cookie,
                exists|j: int| i <= j < self.live@.len() && self.live@[j] == cookie,
            decreases self.live.len() - i,
        {
            proof {
                let j = choose|j: int| i <= j < s.len() && s[j] == cookie;
                assert(j != i);
            }
            i = i + 1;
        }

        let _ = self.live.swap_remove(i);
        proof {
            lemma_swap_remove_set(s, i as int);
        }
    }
}

/// Allocates cookies for outbound sessions: a monotonic counter over the
/// valid range `1..=0x7fff`, refusing allocation once it is exhausted.
pub struct CookieAllocator {
    next: u16,
}

impl CookieAllocator {
    /// The cookie the next successful allocation hands out.
    pub closed spec fn spec_next(self) -> u16 {
        self.next
    }

    /// The counter never leaves the range `1..=0x8000`.
    pub closed spec fn wf(self) -> bool {
        1 <= self.next
    }

    /// An allocator with the whole valid range still available.
    pub fn new() -> (r: CookieAllocator)
        ensures
            r.wf(),
            r.spec_next() == 1,
    {
        CookieAllocator { next: 1 }
    }

    /// Hand out a fresh cookie: valid, and larger than every cookie handed
    /// out before, so none is ever reused. `None` once the range is
    /// exhausted.
    pub fn allocate(&mut self) -> (r: Option<u16>)
        requires
            old(self).wf(),
        ensures
            final(self).wf(),
            old(self).spec_next() <= 0x7fff ==> {
                &&& r == Some(old(self).spec_next())
                &&& Cookie::Stream(old(self).spec_next()).valid()
                &&& final(self).spec_next() == old(self).spec_next() + 1
            },
            old(self).spec_next() > 0x7fff ==> {
                &&& r is None
                &&& final(self).spec_next() == old(self).spec_next()
            },
    {
        if self.next > 0x7fff {
            None
        } else {
            let cookie = self.next;
            self.next = self.next + 1;
            Some(cookie)
        }
    }
}

/// Swap-removing position `i` of a duplicate-free sequence removes exactly
/// the element there from the set of elements.
proof fn lemma_swap_remove_set(s: Seq<u16>, i: int)
    requires
        s.no_duplicates(),
        0 <= i < s.len(),
    ensures
        s.update(i, s.last()).drop_last().no_duplicates(),
        s.update(i, s.last()).drop_last().to_set() == s.to_set().remove(s[i]),
{
    let t = s.update(i, s.last()).drop_last();
    assert(t.len() == s.len() - 1);
    assert forall|p: int| 0 <= p < t.len() implies t[p] == (if p == i {
        s[s.len() - 1]
    } else {
        s[p]
    }) by {}

    assert forall|x: u16| t.contains(x) implies s.contains(x) && x != s[i] by {
        let k = choose|k: int| 0 <= k < t.len() && t[k] == x;
        if k == i {
            assert(s[s.len() - 1] == x);
        } else {
            assert(s[k] == x);
        }
    }
    assert forall|x: u16| s.contains(x) && x != s[i] implies t.contains(x) by {
        let k = choose|k: int| 0 <= k < s.len() && s[k] == x;
        if k == s.len() - 1 {
            assert(t[i] == x);
        } else {
            assert(t[k] == x);
        }
    }
    assert(t.to_set() =~= s.to_set().remove(s[i]));

    assert forall|p: int, q: int|
        0 <= p < t.len() && 0 <= q < t.len() && p != q implies t[p] != t[q] by {
        assert(t[p] == (if p == i { s[s.len() - 1] } else { s[p] }));
        assert(t[q] == (if q == i { s[s.len() - 1] } else { s[q] }));
    }
}

} // verus!

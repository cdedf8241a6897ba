//! The application-facing view of a packet within a session.
//!
//! A message carries a delivery mode and payload bytes; the session it moves
//! through supplies the cookie. The mode corresponds one-to-one with a
//! packet's cookie classification: `NoReply` with `Oneshot`, `More` with
//! `Stream`, `End` with `Single`.

use vstd::prelude::*;

use bytes::Bytes;
use core::marker::PhantomData;

use crate::format::Format;
use crate::packet::Cookie;
use crate::packet::Packet;

verus! {

/// The message mode.
#[derive(Copy, Clone, Debug, PartialEq, Eq, Structural)]
pub enum Mode {
    /// The message cannot receive a reply.
    NoReply,
    /// There will be more messages after this.
    More,
    /// There will not be any more messages after this.
    End,
}

/// A message.
#[derive(Clone)]
pub struct Message<F> {
    pub mode: Mode,
    pub bytes: Bytes,
    pub _marker: PhantomData<F>,
}

/// The mode a message takes from its packet's classification.
pub open spec fn spec_mode_of(cookie: Cookie) -> Mode {
    match cookie {
        Cookie::Oneshot => Mode::NoReply,
        Cookie::Single(_) => Mode::End,
        Cookie::Stream(_) => Mode::More,
    }
}

/// The classification a session gives to an outgoing message's packet.
pub open spec fn spec_cookie_of(mode: Mode, cookie: u16) -> Cookie {
    match mode {
        Mode::NoReply => Cookie::Oneshot,
        Mode::More => Cookie::Stream(cookie),
        Mode::End => Cookie::Single(cookie),
    }
}

/// The message a packet turns into when delivered within a session.
pub open spec fn spec_message_of<F>(packet: Packet<F>) -> Message<F> {
    Message { mode: spec_mode_of(packet.cookie), bytes: packet.bytes, _marker: PhantomData }
}

impl<F: Format> From<Packet<F>> for Message<F> {
    fn from(packet: Packet<F>) -> (r: Message<F>) {
        Message {
            mode: match packet.cookie {
                Cookie::Oneshot => Mode::NoReply,
                Cookie::Single(_) => Mode::End,
                Cookie::Stream(_) => Mode::More,
            },
            bytes: packet.bytes,
            _marker: PhantomData,
        }
    }
}

impl<F: Format> vstd::std_specs::convert::FromSpecImpl<Packet<F>> for Message<F> {
    open spec fn obeys_from_spec() -> bool {
        true
    }

    open spec fn from_spec(packet: Packet<F>) -> Message<F> {
        spec_message_of(packet)
    }
}

impl Message<()> {
    /// Decide on the `Format` to use for this message.
    pub fn with_format<F: Format>(self) -> (r: Message<F>)
        ensures
            r.mode == self.mode,
            r.bytes == self.bytes,
    {
        Message { mode: self.mode, bytes: self.bytes, _marker: PhantomData }
    }
}

impl<F: Format> Message<F> {
    /// Create a message from a mode and payload.
    pub fn new(mode: Mode, payload: Bytes) -> (r: Message<F>)
        ensures
            r.mode == mode,
            r.bytes == payload,
    {
        Message { mode, bytes: payload, _marker: PhantomData }
    }

    /// The message mode.
    pub fn mode(&self) -> (r: Mode)
        ensures
            r == self.mode,
    {
        self.mode
    }

    /// The payload of the message.
    pub fn bytes(&self) -> (r: &Bytes)
        ensures
            *r == self.bytes,
    {
        &self.bytes
    }

    /// Bind this message to a session's cookie, producing the packet that
    /// carries it on the wire.
    pub fn into_packet(self, cookie: u16) -> (r: Packet<F>)
        ensures
            r.cookie == spec_cookie_of(self.mode, cookie),
            r.bytes == self.bytes,
    {
        Packet::new(
            match self.mode {
                Mode::NoReply => Cookie::Oneshot,
                Mode::More => Cookie::Stream(cookie),
                Mode::End => Cookie::Single(cookie),
            },
            self.bytes,
        )
    }
}

/// Binding a message to a cookie and delivering the resulting packet hands
/// back a message with the same mode and payload.
pub proof fn lemma_mode_roundtrip<F>(message: Message<F>, cookie: u16)
    ensures
        spec_message_of(
            Packet::<F> {
                cookie: spec_cookie_of(message.mode, cookie),
                bytes: message.bytes,
                _marker: message._marker,
            },
        ) == message,
{
}

} // verus!

//! A multiplexed message-framing protocol over byte transports.
//!
//! Three layers sit above a raw byte stream: a length-prefixed frame codec
//! carrying a 2-byte routing cookie, defragmentation of fragmented payloads
//! into whole packets, and demultiplexing of packets onto independent
//! per-cookie sessions.

pub mod buffer;
pub mod codec;
pub mod format;
pub mod message;
pub mod packet;
pub mod packets;
pub mod session;

pub use crate::codec::Codec;
pub use crate::format::Format;
pub use crate::format::MessagePack;
pub use crate::message::Message;
pub use crate::message::Mode;
pub use crate::packet::Cookie;
pub use crate::packet::Header;
pub use crate::packet::Packet;
pub use crate::packets::Packets;
pub use crate::session::CookieAllocator;
pub use crate::session::SessionEvent;
pub use crate::session::Sessions;

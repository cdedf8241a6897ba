//! Payload format tags.
//!
//! A packet or message is bound to a serialization format by a phantom type
//! parameter; the tag carries no runtime state. Turning application values
//! into payload bytes and back is the job of unverified glue around the
//! library, which picks the encoder that a tag stands for.

use vstd::prelude::*;

verus! {

/// Marker trait for a payload serialization format tag.
pub trait Format {
}

/// The placeholder "no format": usable only to name the codec types before a
/// real format is chosen.
impl Format for () {
}

/// Tag for the MessagePack payload encoding.
#[derive(Copy, Clone, Debug)]
pub struct MessagePack;

impl Format for MessagePack {
}

} // verus!

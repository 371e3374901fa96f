//! The application message as this layer sees it: plain values only.
//!
//! The overlay engine's own message type additionally carries opaque
//! identifiers; the driver converts between the two at the boundary,
//! keeping the source peer and sequence number as raw bytes and an
//! integer so that nothing here depends on the engine's types.

use vstd::prelude::*;

verus! {

/// One message delivered by the overlay engine for a topic.
pub struct Message {
    /// Name of the topic the message was published to.
    pub topic: String,
    /// The application payload.
    pub data: Vec<u8>,
    /// The byte encoding of the originating peer's identifier, when known.
    pub source: Option<Vec<u8>>,
    /// The engine-assigned sequence number, when present.
    pub sequence_number: Option<u64>,
}

} // verus!

//! Events and actions exchanged with the driver that owns the overlay
//! engine and the real channels.
//!
//! The multiplexer never performs an engine call or a channel operation
//! itself: it returns an action naming what the driver must do, and takes
//! the driver's observations (engine replies, channel readiness) as plain
//! values.

use vstd::prelude::*;

use crate::handle::SubscriptionStream;
use crate::message::Message;

verus! {

/// First step of a subscribe call.
pub enum SubscribeStep {
    /// The topic already had a registry entry: a fresh consumer was
    /// attached to it and no engine call is wanted.
    Attached(SubscriptionStream),
    /// No entry exists for the topic: the driver must ask the overlay
    /// engine to join it and report the answer to `complete_subscribe`.
    AskEngine,
}

/// What the overlay engine answered when asked to join a topic.
pub enum EngineReply {
    /// The engine newly joined the topic.
    Joined,
    /// The engine claims it was already joined.  The registry had no entry,
    /// so this signals that local bookkeeping and engine state diverged.
    AlreadyJoined,
    /// The engine failed to join; carries the engine's error text.
    Failed(String),
}

/// Readiness of one consumer's bounded channel, observed by the driver
/// immediately before a drain pass.
#[derive(Clone, Copy)]
pub enum ConsumerStatus {
    /// The channel can accept one message right now.
    Ready,
    /// The channel is full; this consumer misses the pass's message.
    NotReady,
    /// The receiving end is gone; the producer entry must be pruned.
    Closed,
}

/// Errors returned by the subscription lifecycle.
#[derive(Debug)]
pub enum StreamError {
    /// The engine reported an existing subscription for a topic the
    /// registry did not track: an internal-consistency violation.
    AlreadySubscribed,
    /// The engine's own subscribe call failed; carries its error text.
    EngineSubscribeFailed(String),
    /// Explicit unsubscribe for a topic with no registry entry.
    NoSuchSubscription,
}

/// Why a publish attempt failed, mirroring the overlay engine's own
/// taxonomy: too few connected peers for the topic, a signing or
/// transformation failure, an oversized message, or a duplicate.
#[derive(Debug)]
pub enum PublishFailure {
    /// The message was already published.
    Duplicate,
    /// Signing the message failed; carries the engine's error text.
    SigningFailed(String),
    /// No peers to send the message to.
    InsufficientPeers,
    /// The message exceeds the configured maximum size.
    MessageTooLarge,
    /// The engine's message transformation failed.
    TransformFailed(String),
}

/// A topic teardown the driver must carry out: close the listed producer
/// ends and tell the overlay engine to leave the topic exactly once.
pub struct Teardown {
    /// Name of the topic being torn down.
    pub topic: String,
    /// Identifiers of every producer end that was registered for the topic.
    pub closed: Vec<u64>,
}

/// Outcome of one drain pass over one topic's backlog.
pub enum DrainOutcome {
    /// The topic had no backlog entry; nothing changed.
    NoBacklog,
    /// The backlog entry held no messages and was dropped from tracking;
    /// nothing else changed.
    DroppedEmpty,
    /// Messages were queued but the topic has no registry entry any
    /// more: no consumer can ever receive them and no teardown is owed,
    /// so the stale backlog is discarded.
    Unregistered,
    /// Pruning left no live producer end: the registry entry, count and
    /// backlog are gone, and the driver must drop the listed producer
    /// ends and tell the overlay engine to leave the topic.
    TornDown(Teardown),
    /// Live producer ends remain but none was ready: the pass delivers
    /// nothing and the backlog is untouched.
    NoneReady,
    /// The pass's message, popped from the front of the backlog, and the
    /// identifiers of the ready consumers: the driver hands each of them
    /// a copy of this one message.  Consumers not listed were not ready
    /// and are never retried for this message.
    Delivered(Message, Vec<u64>),
}

/// What a handle's destructor must do, given the value of the topic's
/// shared live-subscriber counter at destruction time.
pub enum DropEffect {
    /// This was believed to be the last live handle: enqueue the topic on
    /// the deferred-unsubscribe channel.  The counter is not decremented;
    /// the whole entry is removed when the notification is processed.
    Notify(String),
    /// Other live handles remain: decrement the shared counter by one.
    Decrement,
    /// The notification right was already exercised or forfeited: nothing
    /// to do.
    Nothing,
}

} // verus!

//! One local subscriber's handle to a topic's message stream.
//!
//! The handle owns the decision side of its lifecycle: whether it still
//! holds the deferred-unsubscribe notification right, and what its
//! destructor must do given the topic's shared live-subscriber counter.
//! The driver owns the receiving end of the real bounded channel and the
//! shared counter; it reports end-of-stream here and carries out the
//! [`DropEffect`] this module decides.

use vstd::prelude::*;

use crate::events::DropEffect;

verus! {

/// The decision state of one local subscriber.
///
/// A handle either still owns its deferred-unsubscribe notification right
/// (`on_drop` set) or has exercised or forfeited it; once forfeited it
/// never re-acquires it — no method here sets the right again.
pub struct SubscriptionStream {
    on_drop: bool,
    topic: Option<String>,
    id: u64,
}

impl SubscriptionStream {
    /// Whether the handle still owns its deferred-unsubscribe right.
    pub closed spec fn has_right(&self) -> bool {
        self.on_drop
    }

    /// The topic identity the handle would report on destruction, until
    /// the notification is sent.
    pub closed spec fn spec_topic(&self) -> Option<Seq<char>> {
        match self.topic {
            Some(t) => Some(t@),
            None => None,
        }
    }

    /// The identifier of this consumer's producer end in the registry.
    pub closed spec fn spec_id(&self) -> u64 {
        self.id
    }

    /// The destructor's decision and the handle state it leaves behind,
    /// given the shared counter's value at destruction time.
    pub closed spec fn drop_transition(self, count: usize) -> (DropEffect, SubscriptionStream) {
        if count == 1 {
            if self.on_drop && self.topic is Some {
                (
                    DropEffect::Notify(self.topic.unwrap()),
                    SubscriptionStream { on_drop: false, topic: None, ..self },
                )
            } else {
                (DropEffect::Nothing, SubscriptionStream { on_drop: false, ..self })
            }
        } else {
            (DropEffect::Decrement, self)
        }
    }

    pub(crate) fn new(id: u64, topic: String) -> (h: Self)
        ensures
            h.has_right(),
            h.spec_topic() == Some(topic@),
            h.spec_id() == id,
    {
        SubscriptionStream { on_drop: true, topic: Some(topic), id }
    }

    /// The topic the handle would still report on destruction, if any.
    pub fn topic_name(&self) -> (r: &Option<String>)
        ensures
            match r {
                Some(t) => self.spec_topic() == Some(t@),
                None => self.spec_topic() is None,
            },
    {
        &self.topic
    }

    /// The registry identifier of this handle's producer end.
    pub fn id(&self) -> (r: u64)
        ensures
            r == self.spec_id(),
    {
        self.id
    }

    /// Records that the receive side was exhausted: the topic has already
    /// been torn down, so the deferred-unsubscribe right is forfeited and
    /// the handle is thereafter terminal.
    pub fn note_end_of_stream(&mut self)
        ensures
            !final(self).has_right(),
            final(self).spec_topic() == old(self).spec_topic(),
            final(self).spec_id() == old(self).spec_id(),
    {
        self.on_drop = false;
    }

    /// A handle is terminal once it no longer owns the notification right.
    pub fn is_terminated(&self) -> (b: bool)
        ensures
            b == !self.has_right(),
    {
        !self.on_drop
    }

    /// Decides what this handle's destruction must do, given the value the
    /// shared live-subscriber counter read at that moment, and moves the
    /// handle into its post-destruction state.
    pub fn drop_effect(&mut self, count: usize) -> (r: DropEffect)
        ensures
            r == old(self).drop_transition(count).0,
            *final(self) == old(self).drop_transition(count).1,
            (r is Decrement) <==> count != 1,
            count != 1 ==> *final(self) == *old(self),
            r matches DropEffect::Notify(t) ==> count == 1 && old(self).has_right() && old(
                self,
            ).spec_topic() == Some(t@) && !final(self).has_right() && final(self).spec_topic()
                is None,
            count == 1 && old(self).has_right() && old(self).spec_topic() is Some ==> r matches
                DropEffect::Notify(_),
            r is Nothing ==> count == 1 && !final(self).has_right() && final(self).spec_topic()
                == old(self).spec_topic(),
            final(self).spec_id() == old(self).spec_id(),
    {
        if count == 1 {
            let had = self.on_drop;
            self.on_drop = false;
            if had {
                match self.topic.take() {
                    Some(t) => DropEffect::Notify(t),
                    None => DropEffect::Nothing,
                }
            } else {
                DropEffect::Nothing
            }
        } else {
            DropEffect::Decrement
        }
    }
}

/// A handle that has forfeited its deferred-unsubscribe right — after
/// observing end-of-stream, or after an earlier destruction decision —
/// never enqueues a notification, whatever the shared counter reads.
pub proof fn lemma_no_redundant_unsubscribe(h: SubscriptionStream, count: usize)
    requires
        !h.has_right(),
    ensures
        !(h.drop_transition(count).0 matches DropEffect::Notify(_)),
{
}

/// A forfeited right is never re-acquired: the destruction decision
/// leaves a right-less handle right-less.
pub proof fn lemma_right_never_reacquired(h: SubscriptionStream, count: usize)
    requires
        !h.has_right(),
    ensures
        !h.drop_transition(count).1.has_right(),
{
}

} // verus!

//! The subscription multiplexer: registry, live-subscriber counts,
//! per-topic backlog, and the deferred-unsubscribe queue.
//!
//! The multiplexer exclusively owns this state.  Every mutation happens
//! through the operations here; the driver that owns the overlay engine
//! and the real channels calls them in its poll loop and carries out the
//! actions they return.  A topic appears in the registry exactly while the
//! engine is considered joined to it, so the contracts below also say
//! precisely when the driver is told to join or leave a topic.

use vstd::prelude::*;

use crate::engine::Gossipsub;
use crate::engine::engine_peers;
use crate::engine::engine_publish;
use crate::engine::engine_subscribe;
use crate::engine::publish_failure_of;
use crate::events::ConsumerStatus;
use crate::events::DrainOutcome;
use crate::events::EngineReply;
use crate::events::PublishFailure;
use crate::events::StreamError;
use crate::events::SubscribeStep;
use crate::events::Teardown;
use crate::handle::SubscriptionStream;
use crate::message::Message;
use libp2p::identity::PeerId;
use std::collections::VecDeque;

verus! {

/// One registry entry: the topic's name, the identifiers of its producer
/// ends in subscription order, and the live-subscriber count.
pub(crate) struct TopicEntry {
    pub(crate) name: String,
    pub(crate) consumers: Vec<u64>,
    pub(crate) count: usize,
}

/// One backlog entry: the topic's name and its queue of messages awaiting
/// local delivery, oldest first.
pub(crate) struct BacklogEntry {
    pub(crate) name: String,
    pub(crate) queue: VecDeque<Message>,
}

/// No identifier repeats in the sequence.
pub open spec fn distinct_ids(s: Seq<u64>) -> bool {
    forall|a: int, b: int| 0 <= a < b < s.len() ==> s[a] != s[b]
}

/// Every identifier in the sequence is below the bound.
pub open spec fn ids_below(s: Seq<u64>, bound: u64) -> bool {
    forall|a: int| 0 <= a < s.len() ==> s[a] < bound
}

spec fn reg_has(r: Seq<TopicEntry>, name: Seq<char>) -> bool {
    exists|i: int| 0 <= i < r.len() && #[trigger] r[i].name@ == name
}

spec fn reg_at(r: Seq<TopicEntry>, name: Seq<char>) -> int {
    choose|i: int| 0 <= i < r.len() && #[trigger] r[i].name@ == name
}

spec fn reg_names_unique(r: Seq<TopicEntry>) -> bool {
    forall|a: int, b: int|
        #![trigger r[a].name@, r[b].name@]
        0 <= a < b < r.len() ==> r[a].name@ != r[b].name@
}

spec fn bl_has(b: Seq<BacklogEntry>, name: Seq<char>) -> bool {
    exists|i: int| 0 <= i < b.len() && #[trigger] b[i].name@ == name
}

spec fn bl_at(b: Seq<BacklogEntry>, name: Seq<char>) -> int {
    choose|i: int| 0 <= i < b.len() && #[trigger] b[i].name@ == name
}

spec fn bl_names_unique(b: Seq<BacklogEntry>) -> bool {
    forall|a: int, b2: int|
        #![trigger b[a].name@, b[b2].name@]
        0 <= a < b2 < b.len() ==> b[a].name@ != b[b2].name@
}

/// The multiplexer.  It presents the overlay engine with at most one
/// subscription per topic while any number of local consumers share it.
pub struct GossipsubStream {
    registry: Vec<TopicEntry>,
    backlog: Vec<BacklogEntry>,
    notices: VecDeque<String>,
    next_consumer: u64,
}

impl GossipsubStream {
    /// The topic has a registry entry, i.e. the overlay engine is
    /// considered joined to it.
    pub closed spec fn registered(&self, name: Seq<char>) -> bool {
        reg_has(self.registry@, name)
    }

    /// Index of the topic's registry entry.
    pub closed spec fn reg_idx(&self, name: Seq<char>) -> int {
        reg_at(self.registry@, name)
    }

    /// The identifiers of the topic's producer ends, in subscription
    /// order; empty when the topic is not registered.
    pub closed spec fn consumers_of(&self, name: Seq<char>) -> Seq<u64> {
        if self.registered(name) {
            self.registry@[self.reg_idx(name)].consumers@
        } else {
            Seq::empty()
        }
    }

    /// The topic's live-subscriber count; zero when not registered.
    pub closed spec fn count_of(&self, name: Seq<char>) -> int {
        if self.registered(name) {
            self.registry@[self.reg_idx(name)].count as int
        } else {
            0
        }
    }

    /// The registry as a sequence of (name, producer ids, count) triples,
    /// in entry order.
    pub closed spec fn reg_view(&self) -> Seq<(Seq<char>, Seq<u64>, int)> {
        self.registry@.map(|i: int, e: TopicEntry| (e.name@, e.consumers@, e.count as int))
    }

    /// The topic currently has a backlog entry.
    pub closed spec fn has_backlog(&self, name: Seq<char>) -> bool {
        bl_has(self.backlog@, name)
    }

    /// The topic's queued messages, oldest first; empty when the topic has
    /// no backlog entry.
    pub closed spec fn backlog_of(&self, name: Seq<char>) -> Seq<Message> {
        if self.has_backlog(name) {
            self.backlog@[bl_at(self.backlog@, name)].queue@
        } else {
            Seq::empty()
        }
    }

    /// The names of the topics that currently hold a backlog entry.
    pub closed spec fn backlog_names(&self) -> Seq<Seq<char>> {
        self.backlog@.map(|i: int, e: BacklogEntry| e.name@)
    }

    /// The deferred-unsubscribe notifications not yet processed, oldest
    /// first.
    pub closed spec fn pending_notices(&self) -> Seq<Seq<char>> {
        self.notices@.map(|i: int, s: String| s@)
    }

    /// The identifier the next attached consumer will receive.
    pub closed spec fn next_id(&self) -> u64 {
        self.next_consumer
    }

    /// Well-formedness: topic names are unique in the registry and in the
    /// backlog, every registered topic has at least one counted
    /// subscriber, and producer-end identifiers are distinct and below the
    /// allocation cursor.
    pub closed spec fn wf(&self) -> bool {
        &&& reg_names_unique(self.registry@)
        &&& bl_names_unique(self.backlog@)
        &&& forall|i: int|
            0 <= i < self.registry@.len() ==> (#[trigger] self.registry@[i]).count >= 1
                && distinct_ids(self.registry@[i].consumers@) && ids_below(
                self.registry@[i].consumers@,
                self.next_consumer,
            )
    }
}

/// The registry is unchanged on every topic other than `except`:
/// registration status, producer list and subscriber count all agree.
pub open spec fn same_topics_except(
    pre: GossipsubStream,
    post: GossipsubStream,
    except: Seq<char>,
) -> bool {
    forall|n: Seq<char>|
        #![trigger post.registered(n)]
        #![trigger post.consumers_of(n)]
        #![trigger post.count_of(n)]
        n != except ==> post.registered(n) == pre.registered(n) && post.consumers_of(n)
            == pre.consumers_of(n) && post.count_of(n) == pre.count_of(n)
}

/// Every topic is untouched: registration status, producer list and
/// subscriber count all agree between the two states.
pub open spec fn same_topics(pre: GossipsubStream, post: GossipsubStream) -> bool {
    forall|n: Seq<char>|
        #![trigger post.registered(n)]
        #![trigger post.consumers_of(n)]
        #![trigger post.count_of(n)]
        post.registered(n) == pre.registered(n) && post.consumers_of(n) == pre.consumers_of(n)
            && post.count_of(n) == pre.count_of(n)
}

/// Every topic's backlog is unchanged.
pub open spec fn same_backlogs(pre: GossipsubStream, post: GossipsubStream) -> bool {
    forall|n: Seq<char>|
        #![trigger post.has_backlog(n)]
        #![trigger post.backlog_of(n)]
        post.has_backlog(n) == pre.has_backlog(n) && post.backlog_of(n) == pre.backlog_of(n)
}

/// Every topic's backlog other than `except`'s is unchanged.
pub open spec fn same_backlogs_except(
    pre: GossipsubStream,
    post: GossipsubStream,
    except: Seq<char>,
) -> bool {
    forall|n: Seq<char>|
        #![trigger post.has_backlog(n)]
        #![trigger post.backlog_of(n)]
        n != except ==> post.has_backlog(n) == pre.has_backlog(n) && post.backlog_of(n)
            == pre.backlog_of(n)
}

/// What attaching one more consumer to an already-registered topic leaves
/// behind: a fresh handle wired to the topic, the producer list extended
/// by the handle's identifier, the count one higher, everything else as it
/// was.
pub open spec fn attach_post(
    pre: GossipsubStream,
    post: GossipsubStream,
    name: Seq<char>,
    h: SubscriptionStream,
) -> bool {
    &&& h.has_right()
    &&& h.spec_topic() == Some(name)
    &&& h.spec_id() == pre.next_id()
    &&& post.next_id() == pre.next_id() + 1
    &&& post.registered(name)
    &&& post.consumers_of(name) == pre.consumers_of(name).push(pre.next_id())
    &&& post.count_of(name) == pre.count_of(name) + 1
    &&& post.reg_view() == pre.reg_view().update(
        pre.reg_idx(name),
        (name, pre.consumers_of(name).push(pre.next_id()), pre.count_of(name) + 1),
    )
    &&& same_topics_except(pre, post, name)
    &&& same_backlogs(pre, post)
    &&& post.pending_notices() == pre.pending_notices()
}

/// What a first, engine-confirmed subscription leaves behind: a new
/// registry entry with a single producer end and count one, everything
/// else as it was.
pub open spec fn join_post(
    pre: GossipsubStream,
    post: GossipsubStream,
    name: Seq<char>,
    h: SubscriptionStream,
) -> bool {
    &&& h.has_right()
    &&& h.spec_topic() == Some(name)
    &&& h.spec_id() == pre.next_id()
    &&& post.next_id() == pre.next_id() + 1
    &&& post.registered(name)
    &&& post.consumers_of(name) == seq![pre.next_id()]
    &&& post.count_of(name) == 1
    &&& post.reg_view() == pre.reg_view().push((name, seq![pre.next_id()], 1int))
    &&& same_topics_except(pre, post, name)
    &&& same_backlogs(pre, post)
    &&& post.pending_notices() == pre.pending_notices()
}

proof fn lemma_reg_at_is(r: Seq<TopicEntry>, name: Seq<char>, i: int)
    requires
        reg_names_unique(r),
        0 <= i < r.len(),
        r[i].name@ == name,
    ensures
        reg_has(r, name),
        reg_at(r, name) == i,
{
    assert(reg_has(r, name));
    let k = reg_at(r, name);
    assert(0 <= k < r.len() && r[k].name@ == name);
    if k < i {
        assert(r[k].name@ != r[i].name@);
    } else if i < k {
        assert(r[i].name@ != r[k].name@);
    }
}

proof fn lemma_bl_at_is(b: Seq<BacklogEntry>, name: Seq<char>, i: int)
    requires
        bl_names_unique(b),
        0 <= i < b.len(),
        b[i].name@ == name,
    ensures
        bl_has(b, name),
        bl_at(b, name) == i,
{
    assert(bl_has(b, name));
    let k = bl_at(b, name);
    assert(0 <= k < b.len() && b[k].name@ == name);
    if k < i {
        assert(b[k].name@ != b[i].name@);
    } else if i < k {
        assert(b[i].name@ != b[k].name@);
    }
}

/// Registry frame: if the two states' registries agree except at index
/// `i`, whose entry kept its name, then every other topic is untouched.
proof fn lemma_frame_update(pre: GossipsubStream, post: GossipsubStream, i: int)
    requires
        pre.wf(),
        0 <= i < pre.registry@.len(),
        post.registry@.len() == pre.registry@.len(),
        forall|j: int|
            0 <= j < post.registry@.len() && j != i ==> #[trigger] post.registry@[j]
                == pre.registry@[j],
        post.registry@[i].name@ == pre.registry@[i].name@,
    ensures
        reg_names_unique(post.registry@),
        same_topics_except(pre, post, pre.registry@[i].name@),
{
    let name = pre.registry@[i].name@;
    assert forall|a: int, b: int| 0 <= a < b < post.registry@.len() implies #[trigger] post.registry@[a].name@
        != #[trigger] post.registry@[b].name@ by {
        assert(post.registry@[a].name@ == pre.registry@[a].name@);
        assert(post.registry@[b].name@ == pre.registry@[b].name@);
    }
    assert forall|n: Seq<char>|
        #![trigger post.registered(n)]
        #![trigger post.consumers_of(n)]
        #![trigger post.count_of(n)]
        n != name implies post.registered(n) == pre.registered(n) && post.consumers_of(n)
        == pre.consumers_of(n) && post.count_of(n) == pre.count_of(n) by {
        if reg_has(pre.registry@, n) {
            let k = reg_at(pre.registry@, n);
            assert(0 <= k < pre.registry@.len() && pre.registry@[k].name@ == n);
            assert(k != i);
            assert(post.registry@[k].name@ == n);
            lemma_reg_at_is(post.registry@, n, k);
            assert(post.consumers_of(n) == pre.consumers_of(n));
            assert(post.count_of(n) == pre.count_of(n));
        } else {
            if reg_has(post.registry@, n) {
                let k = reg_at(post.registry@, n);
                assert(0 <= k < post.registry@.len() && post.registry@[k].name@ == n);
                assert(k != i);
                assert(pre.registry@[k].name@ == n);
                assert(reg_has(pre.registry@, n));
            }
            assert(!post.registered(n) && !pre.registered(n));
        }
    }
}

/// Registry frame for appending a new topic: every previously known topic
/// is untouched.
proof fn lemma_frame_push(pre: GossipsubStream, post: GossipsubStream, e: TopicEntry)
    requires
        pre.wf(),
        !pre.registered(e.name@),
        post.registry@ == pre.registry@.push(e),
    ensures
        reg_names_unique(post.registry@),
        same_topics_except(pre, post, e.name@),
{
    let name = e.name@;
    let plen = pre.registry@.len() as int;
    assert forall|a: int, b: int| 0 <= a < b < post.registry@.len() implies #[trigger] post.registry@[a].name@
        != #[trigger] post.registry@[b].name@ by {
        if b < plen {
            assert(post.registry@[a] == pre.registry@[a]);
            assert(post.registry@[b] == pre.registry@[b]);
        } else {
            assert(post.registry@[b] == e);
            assert(post.registry@[a] == pre.registry@[a]);
            if pre.registry@[a].name@ == name {
                assert(reg_has(pre.registry@, name));
            }
        }
    }
    assert forall|n: Seq<char>|
        #![trigger post.registered(n)]
        #![trigger post.consumers_of(n)]
        #![trigger post.count_of(n)]
        n != name implies post.registered(n) == pre.registered(n) && post.consumers_of(n)
        == pre.consumers_of(n) && post.count_of(n) == pre.count_of(n) by {
        if reg_has(pre.registry@, n) {
            let k = reg_at(pre.registry@, n);
            assert(0 <= k < plen && pre.registry@[k].name@ == n);
            assert(post.registry@[k] == pre.registry@[k]);
            lemma_reg_at_is(post.registry@, n, k);
        } else {
            if reg_has(post.registry@, n) {
                let k = reg_at(post.registry@, n);
                assert(0 <= k < post.registry@.len() && post.registry@[k].name@ == n);
                assert(k < plen);
                assert(reg_has(pre.registry@, n));
            }
            assert(!post.registered(n) && !pre.registered(n));
        }
    }
}

/// Registry frame for removing a topic's entry: the topic is gone and
/// every other topic is untouched.
proof fn lemma_frame_remove(pre: GossipsubStream, post: GossipsubStream, i: int)
    requires
        pre.wf(),
        0 <= i < pre.registry@.len(),
        post.registry@ == pre.registry@.remove(i),
    ensures
        reg_names_unique(post.registry@),
        !post.registered(pre.registry@[i].name@),
        same_topics_except(pre, post, pre.registry@[i].name@),
        forall|k: int|
            0 <= k < post.registry@.len() ==> (#[trigger] post.registry@[k]) == pre.registry@[(
            if k < i {
                k
            } else {
                k + 1
            })],
{
    let name = pre.registry@[i].name@;
    pre.registry@.remove_ensures(i);
    assert forall|k: int| 0 <= k < post.registry@.len() implies (#[trigger] post.registry@[k])
        == pre.registry@[(
    if k < i {
        k
    } else {
        k + 1
    })] by {
        if k < i {
            assert(pre.registry@.remove(i)[k] == pre.registry@[k]);
        } else {
            assert(pre.registry@.remove(i)[k] == pre.registry@[k + 1]);
        }
    }
    assert forall|a: int, b: int| 0 <= a < b < post.registry@.len() implies #[trigger] post.registry@[a].name@
        != #[trigger] post.registry@[b].name@ by {
        let a2: int = if a < i { a } else { a + 1 };
        let b2: int = if b < i { b } else { b + 1 };
        assert(pre.registry@[a2].name@ != pre.registry@[b2].name@);
    }
    if reg_has(post.registry@, name) {
        let k = reg_at(post.registry@, name);
        assert(0 <= k < post.registry@.len() && post.registry@[k].name@ == name);
        let k2: int = if k < i { k } else { k + 1 };
        assert(pre.registry@[k2].name@ == name && k2 != i);
        if k2 < i {
            assert(pre.registry@[k2].name@ != pre.registry@[i].name@);
        } else {
            assert(pre.registry@[i].name@ != pre.registry@[k2].name@);
        }
    }
    assert forall|n: Seq<char>|
        #![trigger post.registered(n)]
        #![trigger post.consumers_of(n)]
        #![trigger post.count_of(n)]
        n != name implies post.registered(n) == pre.registered(n) && post.consumers_of(n)
        == pre.consumers_of(n) && post.count_of(n) == pre.count_of(n) by {
        if reg_has(pre.registry@, n) {
            let k = reg_at(pre.registry@, n);
            assert(0 <= k < pre.registry@.len() && pre.registry@[k].name@ == n);
            assert(k != i);
            let k2: int = if k < i { k } else { k - 1 };
            assert(post.registry@[k2] == pre.registry@[k]);
            lemma_reg_at_is(post.registry@, n, k2);
        } else {
            if reg_has(post.registry@, n) {
                let k = reg_at(post.registry@, n);
                assert(0 <= k < post.registry@.len() && post.registry@[k].name@ == n);
                let k2: int = if k < i { k } else { k + 1 };
                assert(pre.registry@[k2].name@ == n);
                assert(reg_has(pre.registry@, n));
            }
            assert(!post.registered(n) && !pre.registered(n));
        }
    }
}

/// Backlog frame for removing a topic's entry.
proof fn lemma_bl_frame_remove(pre: GossipsubStream, post: GossipsubStream, i: int)
    requires
        pre.wf(),
        0 <= i < pre.backlog@.len(),
        post.backlog@ == pre.backlog@.remove(i),
    ensures
        bl_names_unique(post.backlog@),
        !post.has_backlog(pre.backlog@[i].name@),
        same_backlogs_except(pre, post, pre.backlog@[i].name@),
{
    let name = pre.backlog@[i].name@;
    pre.backlog@.remove_ensures(i);
    assert forall|k: int| 0 <= k < post.backlog@.len() implies (#[trigger] post.backlog@[k])
        == pre.backlog@[(
    if k < i {
        k
    } else {
        k + 1
    })] by {
        if k < i {
            assert(pre.backlog@.remove(i)[k] == pre.backlog@[k]);
        } else {
            assert(pre.backlog@.remove(i)[k] == pre.backlog@[k + 1]);
        }
    }
    assert forall|a: int, b: int| 0 <= a < b < post.backlog@.len() implies #[trigger] post.backlog@[a].name@
        != #[trigger] post.backlog@[b].name@ by {
        let a2: int = if a < i { a } else { a + 1 };
        let b2: int = if b < i { b } else { b + 1 };
        assert(pre.backlog@[a2].name@ != pre.backlog@[b2].name@);
    }
    if bl_has(post.backlog@, name) {
        let k = bl_at(post.backlog@, name);
        assert(0 <= k < post.backlog@.len() && post.backlog@[k].name@ == name);
        let k2: int = if k < i { k } else { k + 1 };
        assert(pre.backlog@[k2].name@ == name && k2 != i);
        if k2 < i {
            assert(pre.backlog@[k2].name@ != pre.backlog@[i].name@);
        } else {
            assert(pre.backlog@[i].name@ != pre.backlog@[k2].name@);
        }
    }
    assert forall|n: Seq<char>|
        #![trigger post.has_backlog(n)]
        #![trigger post.backlog_of(n)]
        n != name implies post.has_backlog(n) == pre.has_backlog(n) && post.backlog_of(n)
        == pre.backlog_of(n) by {
        if bl_has(pre.backlog@, n) {
            let k = bl_at(pre.backlog@, n);
            assert(0 <= k < pre.backlog@.len() && pre.backlog@[k].name@ == n);
            assert(k != i);
            let k2: int = if k < i { k } else { k - 1 };
            assert(post.backlog@[k2] == pre.backlog@[k]);
            lemma_bl_at_is(post.backlog@, n, k2);
        } else {
            if bl_has(post.backlog@, n) {
                let k = bl_at(post.backlog@, n);
                assert(0 <= k < post.backlog@.len() && post.backlog@[k].name@ == n);
                let k2: int = if k < i { k } else { k + 1 };
                assert(pre.backlog@[k2].name@ == n);
                assert(bl_has(pre.backlog@, n));
            }
            assert(!post.has_backlog(n) && !pre.has_backlog(n));
        }
    }
}

/// Backlog frame for appending a new topic's entry.
proof fn lemma_bl_frame_push(pre: GossipsubStream, post: GossipsubStream, e: BacklogEntry)
    requires
        pre.wf(),
        !pre.has_backlog(e.name@),
        post.backlog@ == pre.backlog@.push(e),
    ensures
        bl_names_unique(post.backlog@),
        post.has_backlog(e.name@),
        post.backlog_of(e.name@) == e.queue@,
        same_backlogs_except(pre, post, e.name@),
{
    let name = e.name@;
    let plen = pre.backlog@.len() as int;
    assert forall|a: int, b: int| 0 <= a < b < post.backlog@.len() implies #[trigger] post.backlog@[a].name@
        != #[trigger] post.backlog@[b].name@ by {
        if b < plen {
            assert(post.backlog@[a] == pre.backlog@[a]);
            assert(post.backlog@[b] == pre.backlog@[b]);
        } else {
            assert(post.backlog@[b] == e);
            assert(post.backlog@[a] == pre.backlog@[a]);
            if pre.backlog@[a].name@ == name {
                assert(bl_has(pre.backlog@, name));
            }
        }
    }
    assert(post.backlog@[plen] == e);
    lemma_bl_at_is(post.backlog@, name, plen);
    assert forall|n: Seq<char>|
        #![trigger post.has_backlog(n)]
        #![trigger post.backlog_of(n)]
        n != name implies post.has_backlog(n) == pre.has_backlog(n) && post.backlog_of(n)
        == pre.backlog_of(n) by {
        if bl_has(pre.backlog@, n) {
            let k = bl_at(pre.backlog@, n);
            assert(0 <= k < plen && pre.backlog@[k].name@ == n);
            assert(post.backlog@[k] == pre.backlog@[k]);
            lemma_bl_at_is(post.backlog@, n, k);
        } else {
            if bl_has(post.backlog@, n) {
                let k = bl_at(post.backlog@, n);
                assert(0 <= k < post.backlog@.len() && post.backlog@[k].name@ == n);
                assert(k < plen);
                assert(bl_has(pre.backlog@, n));
            }
            assert(!post.has_backlog(n) && !pre.has_backlog(n));
        }
    }
}

/// Backlog frame for changing one topic's queue in place.
proof fn lemma_bl_frame_update(pre: GossipsubStream, post: GossipsubStream, i: int)
    requires
        pre.wf(),
        0 <= i < pre.backlog@.len(),
        post.backlog@.len() == pre.backlog@.len(),
        forall|j: int|
            0 <= j < post.backlog@.len() && j != i ==> #[trigger] post.backlog@[j]
                == pre.backlog@[j],
        post.backlog@[i].name@ == pre.backlog@[i].name@,
    ensures
        bl_names_unique(post.backlog@),
        post.has_backlog(pre.backlog@[i].name@),
        post.backlog_of(pre.backlog@[i].name@) == post.backlog@[i].queue@,
        same_backlogs_except(pre, post, pre.backlog@[i].name@),
{
    let name = pre.backlog@[i].name@;
    assert forall|a: int, b: int| 0 <= a < b < post.backlog@.len() implies #[trigger] post.backlog@[a].name@
        != #[trigger] post.backlog@[b].name@ by {
        assert(post.backlog@[a].name@ == pre.backlog@[a].name@);
        assert(post.backlog@[b].name@ == pre.backlog@[b].name@);
    }
    lemma_bl_at_is(post.backlog@, name, i);
    assert forall|n: Seq<char>|
        #![trigger post.has_backlog(n)]
        #![trigger post.backlog_of(n)]
        n != name implies post.has_backlog(n) == pre.has_backlog(n) && post.backlog_of(n)
        == pre.backlog_of(n) by {
        if bl_has(pre.backlog@, n) {
            let k = bl_at(pre.backlog@, n);
            assert(0 <= k < pre.backlog@.len() && pre.backlog@[k].name@ == n);
            assert(k != i);
            assert(post.backlog@[k] == pre.backlog@[k]);
            lemma_bl_at_is(post.backlog@, n, k);
        } else {
            if bl_has(post.backlog@, n) {
                let k = bl_at(post.backlog@, n);
                assert(0 <= k < post.backlog@.len() && post.backlog@[k].name@ == n);
                assert(k != i);
                assert(pre.backlog@[k].name@ == n);
                assert(bl_has(pre.backlog@, n));
            }
            assert(!post.has_backlog(n) && !pre.has_backlog(n));
        }
    }
}

/// The identifiers of the producer ends that survive a pruning pass: the
/// entries of `cs` whose status is not `Closed`, in order.
pub open spec fn live_ids(cs: Seq<u64>, st: Seq<ConsumerStatus>) -> Seq<u64>
    decreases cs.len(),
{
    if cs.len() == 0 {
        Seq::empty()
    } else {
        let rest = live_ids(cs.drop_last(), st.drop_last());
        if st[cs.len() - 1] is Closed {
            rest
        } else {
            rest.push(cs.last())
        }
    }
}

/// The identifiers of the producer ends found ready during a pass: the
/// entries of `cs` whose status is `Ready`, in order.
pub open spec fn ready_ids(cs: Seq<u64>, st: Seq<ConsumerStatus>) -> Seq<u64>
    decreases cs.len(),
{
    if cs.len() == 0 {
        Seq::empty()
    } else {
        let rest = ready_ids(cs.drop_last(), st.drop_last());
        if st[cs.len() - 1] is Ready {
            rest.push(cs.last())
        } else {
            rest
        }
    }
}

/// Some producer end was found ready.
pub open spec fn any_ready(st: Seq<ConsumerStatus>) -> bool {
    exists|i: int| 0 <= i < st.len() && (#[trigger] st[i]) is Ready
}

/// The topics of the teardowns owed when the pending notifications are
/// drained against the registry of `s`: the first occurrence of every
/// topic registered in `s`, in notice order.  `seen` carries the topics
/// whose teardown was already produced and so are owed nothing more.
pub open spec fn owed_from(
    s: GossipsubStream,
    notices: Seq<Seq<char>>,
    seen: Set<Seq<char>>,
) -> Seq<Seq<char>>
    decreases notices.len(),
{
    if notices.len() == 0 {
        Seq::empty()
    } else {
        let n = notices[0];
        let rest = notices.subrange(1, notices.len() as int);
        if s.registered(n) && !seen.contains(n) {
            seq![n] + owed_from(s, rest, seen.insert(n))
        } else {
            owed_from(s, rest, seen)
        }
    }
}

/// The teardown topics a full notification drain owes, in notice order:
/// one per noticed topic that is registered when the drain starts.
pub open spec fn owed_teardowns(s: GossipsubStream, notices: Seq<Seq<char>>) -> Seq<Seq<char>> {
    owed_from(s, notices, Set::empty())
}

/// The topics of a list of teardown actions, in action order.
pub open spec fn teardown_topics(acts: Seq<Teardown>) -> Seq<Seq<char>> {
    acts.map(|i: int, t: Teardown| t.topic@)
}

/// The list of topic names contains the given name.
pub open spec fn topics_include(topics: Seq<String>, name: Seq<char>) -> bool {
    exists|j: int| 0 <= j < topics.len() && (#[trigger] topics[j])@ == name
}

/// The peers of a peer-topic index whose topic list names the given
/// topic, in index order.
pub open spec fn peers_for(pairs: Seq<(PeerId, Vec<String>)>, name: Seq<char>) -> Seq<PeerId>
    decreases pairs.len(),
{
    if pairs.len() == 0 {
        Seq::empty()
    } else {
        let rest = peers_for(pairs.drop_last(), name);
        if topics_include(pairs.last().1@, name) {
            rest.push(pairs.last().0)
        } else {
            rest
        }
    }
}

/// Survivors of a pruning pass are drawn from `cs`, stay distinct and
/// stay below any bound that held for `cs`.
proof fn lemma_live_ids_wf(cs: Seq<u64>, st: Seq<ConsumerStatus>, bound: u64)
    requires
        distinct_ids(cs),
        ids_below(cs, bound),
    ensures
        distinct_ids(live_ids(cs, st)),
        ids_below(live_ids(cs, st), bound),
        forall|k: int|
            0 <= k < live_ids(cs, st).len() ==> cs.contains(#[trigger] live_ids(cs, st)[k]),
    decreases cs.len(),
{
    if cs.len() == 0 {
    } else {
        let cs0 = cs.drop_last();
        let st0 = st.drop_last();
        assert(distinct_ids(cs0));
        assert(ids_below(cs0, bound));
        lemma_live_ids_wf(cs0, st0, bound);
        let rest = live_ids(cs0, st0);
        assert forall|k: int| 0 <= k < rest.len() implies cs.contains(#[trigger] rest[k]) by {
            assert(cs0.contains(rest[k]));
            let a = choose|a: int| 0 <= a < cs0.len() && cs0[a] == rest[k];
            assert(cs[a] == rest[k]);
        }
        if !(st[cs.len() - 1] is Closed) {
            let full = rest.push(cs.last());
            assert forall|a: int, b: int| 0 <= a < b < full.len() implies full[a] != full[b] by {
                if b < rest.len() {
                } else {
                    assert(full[b] == cs.last());
                    assert(cs0.contains(rest[a]));
                    let x = choose|x: int| 0 <= x < cs0.len() && cs0[x] == rest[a];
                    assert(cs[x] == rest[a]);
                    assert(cs[x] != cs[cs.len() - 1]);
                }
            }
            assert forall|k: int| 0 <= k < full.len() implies cs.contains(#[trigger] full[k]) by {
                if k < rest.len() {
                } else {
                    assert(full[k] == cs[cs.len() - 1]);
                }
            }
        }
    }
}

/// A pass finds a ready producer end exactly when it pops a message: the
/// ready list is empty iff no status was `Ready`.
proof fn lemma_ready_ids_empty(cs: Seq<u64>, st: Seq<ConsumerStatus>)
    requires
        st.len() == cs.len(),
    ensures
        (ready_ids(cs, st).len() == 0) <==> !any_ready(st),
    decreases cs.len(),
{
    if cs.len() == 0 {
    } else {
        let cs0 = cs.drop_last();
        let st0 = st.drop_last();
        lemma_ready_ids_empty(cs0, st0);
        if st[cs.len() - 1] is Ready {
            assert(any_ready(st));
        } else {
            if any_ready(st0) {
                let i = choose|i: int| 0 <= i < st0.len() && (#[trigger] st0[i]) is Ready;
                assert(st[i] is Ready);
            }
            if any_ready(st) {
                let i = choose|i: int| 0 <= i < st.len() && (#[trigger] st[i]) is Ready;
                assert(i < st0.len());
                assert(st0[i] is Ready);
            }
        }
    }
}

/// A ready producer end is live: if any status is `Ready`, pruning leaves
/// at least one survivor.
proof fn lemma_any_ready_live(cs: Seq<u64>, st: Seq<ConsumerStatus>)
    requires
        st.len() == cs.len(),
        any_ready(st),
    ensures
        live_ids(cs, st).len() > 0,
    decreases cs.len(),
{
    let cs0 = cs.drop_last();
    let st0 = st.drop_last();
    if st[cs.len() - 1] is Ready {
        assert(live_ids(cs, st).len() > 0);
    } else {
        let i = choose|i: int| 0 <= i < st.len() && (#[trigger] st[i]) is Ready;
        assert(i < st0.len());
        assert(st0[i] is Ready);
        assert(any_ready(st0));
        lemma_any_ready_live(cs0, st0);
    }
}

/// Every consumer found ready during a pass receives the pass's message:
/// its identifier stands in the ready list.
pub proof fn lemma_ready_receives(cs: Seq<u64>, st: Seq<ConsumerStatus>, i: int)
    requires
        st.len() == cs.len(),
        0 <= i < cs.len(),
        st[i] is Ready,
    ensures
        ready_ids(cs, st).contains(cs[i]),
    decreases cs.len(),
{
    let cs0 = cs.drop_last();
    let st0 = st.drop_last();
    let rest = ready_ids(cs0, st0);
    if i == cs.len() - 1 {
        let full = rest.push(cs.last());
        assert(full[rest.len() as int] == cs[i]);
        assert(full.contains(cs[i]));
    } else {
        assert(st0[i] is Ready);
        lemma_ready_receives(cs0, st0, i);
        let k = choose|k: int| 0 <= k < rest.len() && rest[k] == cs0[i];
        if st[cs.len() - 1] is Ready {
            assert(rest.push(cs.last())[k] == cs[i]);
            assert(ready_ids(cs, st).contains(cs[i]));
        }
    }
}

/// A consumer whose channel was not ready during a pass does not receive
/// the pass's message: its identifier is absent from the ready list — and
/// since the message leaves the backlog with the pass, it is never
/// redelivered to that consumer.
pub proof fn lemma_missed_pass(cs: Seq<u64>, st: Seq<ConsumerStatus>, i: int)
    requires
        distinct_ids(cs),
        st.len() == cs.len(),
        0 <= i < cs.len(),
        !(st[i] is Ready),
    ensures
        !ready_ids(cs, st).contains(cs[i]),
    decreases cs.len(),
{
    let cs0 = cs.drop_last();
    let st0 = st.drop_last();
    let rest = ready_ids(cs0, st0);
    assert forall|k: int| 0 <= k < rest.len() implies cs0.contains(#[trigger] rest[k]) by {
        lemma_ready_ids_from(cs0, st0, k);
    }
    if i == cs.len() - 1 {
        if rest.contains(cs[i]) {
            let k = choose|k: int| 0 <= k < rest.len() && rest[k] == cs[i];
            let a = choose|a: int| 0 <= a < cs0.len() && cs0[a] == rest[k];
            assert(cs[a] != cs[cs.len() - 1]);
        }
        assert(!rest.contains(cs[i]));
        if !(st[cs.len() - 1] is Ready) {
            if ready_ids(cs, st).contains(cs[i]) {
                let k = choose|k: int| 0 <= k < rest.len() && rest[k] == cs[i];
            }
        }
    } else {
        assert(distinct_ids(cs0));
        assert(st0[i] is Ready == st[i] is Ready);
        lemma_missed_pass(cs0, st0, i);
        if st[cs.len() - 1] is Ready {
            let full = rest.push(cs.last());
            if full.contains(cs[i]) {
                let k = choose|k: int| 0 <= k < full.len() && full[k] == cs[i];
                if k < rest.len() {
                    assert(rest.contains(cs0[i]));
                } else {
                    assert(cs[cs.len() - 1] == cs[i]);
                }
            }
        } else {
            if ready_ids(cs, st).contains(cs[i]) {
                assert(rest.contains(cs0[i]));
            }
        }
    }
}

/// Every identifier in the ready list names one of the pass's producer
/// ends.
proof fn lemma_ready_ids_from(cs: Seq<u64>, st: Seq<ConsumerStatus>, k: int)
    requires
        0 <= k < ready_ids(cs, st).len(),
    ensures
        cs.contains(ready_ids(cs, st)[k]),
    decreases cs.len(),
{
    if cs.len() == 0 {
    } else {
        let cs0 = cs.drop_last();
        let st0 = st.drop_last();
        let rest = ready_ids(cs0, st0);
        if k < rest.len() {
            lemma_ready_ids_from(cs0, st0, k);
            let a = choose|a: int| 0 <= a < cs0.len() && cs0[a] == rest[k];
            assert(cs[a] == ready_ids(cs, st)[k]);
        } else {
            assert(st[cs.len() - 1] is Ready);
            assert(ready_ids(cs, st)[k] == cs[cs.len() - 1]);
        }
    }
}

/// What well-formedness gives of any one topic's producer ends: they are
/// pairwise distinct and lie below the allocation cursor, and a
/// registered topic counts at least one subscriber.
pub proof fn lemma_wf_consumers(s: GossipsubStream, n: Seq<char>)
    requires
        s.wf(),
    ensures
        distinct_ids(s.consumers_of(n)),
        ids_below(s.consumers_of(n), s.next_id()),
        s.registered(n) ==> s.count_of(n) >= 1,
{
    if s.registered(n) {
        let i = s.reg_idx(n);
        assert(0 <= i < s.registry@.len() && s.registry@[i].name@ == n);
    }
}

/// A topic without a registry entry has no producer ends and a zero
/// count; one without a backlog entry has no queued messages.
pub proof fn lemma_absent_projections(s: GossipsubStream, n: Seq<char>)
    ensures
        !s.registered(n) ==> s.consumers_of(n) == Seq::<u64>::empty() && s.count_of(n) == 0,
        !s.has_backlog(n) ==> s.backlog_of(n) == Seq::<Message>::empty(),
{
}

/// Two states with the same registry sequence agree on every topic.
proof fn lemma_same_registry(pre: GossipsubStream, post: GossipsubStream)
    requires
        post.registry@ == pre.registry@,
    ensures
        same_topics(pre, post),
        post.reg_view() == pre.reg_view(),
{
    assert forall|n: Seq<char>|
        #![trigger post.registered(n)]
        #![trigger post.consumers_of(n)]
        #![trigger post.count_of(n)]
        post.registered(n) == pre.registered(n) && post.consumers_of(n) == pre.consumers_of(n)
        && post.count_of(n) == pre.count_of(n) by {
        assert(reg_has(post.registry@, n) == reg_has(pre.registry@, n));
        assert(reg_at(post.registry@, n) == reg_at(pre.registry@, n));
    }
    assert(post.reg_view() =~= pre.reg_view());
}

/// Two states with the same backlog sequence agree on every backlog.
proof fn lemma_same_backlog_seq(pre: GossipsubStream, post: GossipsubStream)
    requires
        post.backlog@ == pre.backlog@,
    ensures
        same_backlogs(pre, post),
{
    assert forall|n: Seq<char>|
        #![trigger post.has_backlog(n)]
        #![trigger post.backlog_of(n)]
        post.has_backlog(n) == pre.has_backlog(n) && post.backlog_of(n) == pre.backlog_of(
        n,
    ) by {
        assert(bl_has(post.backlog@, n) == bl_has(pre.backlog@, n));
        assert(bl_at(post.backlog@, n) == bl_at(pre.backlog@, n));
    }
}

impl GossipsubStream {
    /// A fresh multiplexer: nothing registered, nothing queued, the
    /// first consumer identifier zero.
    pub fn new() -> (s: Self)
        ensures
            s.wf(),
            s.next_id() == 0,
            s.reg_view() == Seq::<(Seq<char>, Seq<u64>, int)>::empty(),
            s.backlog_names() == Seq::<Seq<char>>::empty(),
            s.pending_notices() == Seq::<Seq<char>>::empty(),
            forall|n: Seq<char>| !(#[trigger] s.registered(n)),
            forall|n: Seq<char>| !(#[trigger] s.has_backlog(n)),
            forall|n: Seq<char>| #[trigger] s.count_of(n) == 0,
            forall|n: Seq<char>| #[trigger] s.consumers_of(n) == Seq::<u64>::empty(),
            forall|n: Seq<char>| #[trigger] s.backlog_of(n) == Seq::<Message>::empty(),
    {
        let s = GossipsubStream {
            registry: Vec::new(),
            backlog: Vec::new(),
            notices: VecDeque::new(),
            next_consumer: 0,
        };
        proof {
            assert(s.reg_view() =~= Seq::<(Seq<char>, Seq<u64>, int)>::empty());
            assert(s.backlog_names() =~= Seq::<Seq<char>>::empty());
            assert(s.pending_notices() =~= Seq::<Seq<char>>::empty());
        }
        s
    }

    /// Index of the topic's registry entry, or `None` when the topic is
    /// not registered.
    fn find_reg(&self, topic: &String) -> (r: Option<usize>)
        ensures
            match r {
                Some(i) => i < self.registry@.len() && self.registry@[i as int].name@ == topic@
                    && self.registered(topic@),
                None => !self.registered(topic@),
            },
    {
        let n = self.registry.len();
        let mut i: usize = 0;
        while i < n
            invariant
                i <= n,
                n == self.registry@.len(),
                forall|j: int| 0 <= j < i ==> #[trigger] self.registry@[j].name@ != topic@,
            decreases n - i,
        {
            if self.registry[i].name == *topic {
                assert(self.registered(topic@));
                return Some(i);
            }
            i += 1;
        }
        None
    }

    /// Index of the topic's backlog entry, or `None` when it has none.
    fn find_bl(&self, topic: &String) -> (r: Option<usize>)
        ensures
            match r {
                Some(i) => i < self.backlog@.len() && self.backlog@[i as int].name@ == topic@
                    && self.has_backlog(topic@),
                None => !self.has_backlog(topic@),
            },
    {
        let n = self.backlog.len();
        let mut i: usize = 0;
        while i < n
            invariant
                i <= n,
                n == self.backlog@.len(),
                forall|j: int| 0 <= j < i ==> #[trigger] self.backlog@[j].name@ != topic@,
            decreases n - i,
        {
            if self.backlog[i].name == *topic {
                assert(self.has_backlog(topic@));
                return Some(i);
            }
            i += 1;
        }
        None
    }

    /// First step of subscribing to a topic.
    ///
    /// If the topic is already registered, a fresh bounded channel slot is
    /// attached to it: the new handle's identifier joins the producer
    /// list, the live-subscriber count rises by one, and no engine call is
    /// wanted.  Otherwise nothing changes and the caller must ask the
    /// overlay engine to join the topic, reporting its answer to
    /// [`Self::complete_subscribe`].
    pub fn subscribe_step(&mut self, topic: &String) -> (r: SubscribeStep)
        requires
            old(self).wf(),
            old(self).count_of(topic@) < usize::MAX as int,
            old(self).next_id() < u64::MAX,
        ensures
            final(self).wf(),
            (r is AskEngine) <==> !old(self).registered(topic@),
            !old(self).registered(topic@) ==> *final(self) == *old(self),
            old(self).registered(topic@) ==> (r matches SubscribeStep::Attached(h)
                && attach_post(*old(self), *final(self), topic@, h)),
    {
        match self.find_reg(topic) {
            Some(i) => {
                proof {
                    lemma_reg_at_is(old(self).registry@, topic@, i as int);
                }
                let ghost pre = *old(self);
                let id = self.next_consumer;
                self.next_consumer = id + 1;
                let c = self.registry[i].count;
                assert(c == pre.count_of(topic@));
                self.registry[i].count = c + 1;
                self.registry[i].consumers.push(id);
                let h = SubscriptionStream::new(id, topic.clone());
                proof {
                    let post = *self;
                    assert(post.registry@[i as int].name@ == topic@);
                    lemma_frame_update(pre, post, i as int);
                    lemma_reg_at_is(post.registry@, topic@, i as int);
                    assert(post.consumers_of(topic@) == pre.consumers_of(topic@).push(id));
                    assert(post.reg_view() =~= pre.reg_view().update(
                        i as int,
                        (topic@, pre.consumers_of(topic@).push(id), pre.count_of(topic@) + 1),
                    ));
                    assert forall|k: int| 0 <= k < post.registry@.len() implies (#[trigger] post.registry@[k]).count
                        >= 1 && distinct_ids(post.registry@[k].consumers@) && ids_below(
                        post.registry@[k].consumers@,
                        post.next_consumer,
                    ) by {
                        if k == i as int {
                            assert(pre.registry@[k].count >= 1);
                            assert(distinct_ids(pre.registry@[k].consumers@));
                            assert(ids_below(pre.registry@[k].consumers@, id));
                        } else {
                            assert(post.registry@[k] == pre.registry@[k]);
                        }
                    }
                    assert(post.wf());
                }
                SubscribeStep::Attached(h)
            },
            None => SubscribeStep::AskEngine,
        }
    }

    /// Second step of a first subscription, carrying the overlay engine's
    /// answer.
    ///
    /// A confirmed join creates the topic's registry entry with this one
    /// consumer and a count of one.  An engine claim of an existing
    /// subscription contradicts the empty registry entry and is returned
    /// as `AlreadySubscribed`; an engine failure is wrapped and returned.
    /// In both error cases nothing changes.
    pub fn complete_subscribe(&mut self, topic: &String, reply: EngineReply) -> (r: Result<
        SubscriptionStream,
        StreamError,
    >)
        requires
            old(self).wf(),
            !old(self).registered(topic@),
            reply is Joined ==> old(self).next_id() < u64::MAX,
        ensures
            final(self).wf(),
            reply is Joined ==> (r matches Ok(h) && join_post(*old(self), *final(self), topic@, h)),
            reply is AlreadyJoined ==> r == Err::<SubscriptionStream, StreamError>(
                StreamError::AlreadySubscribed,
            ) && *final(self) == *old(self),
            reply matches EngineReply::Failed(e) ==> r == Err::<SubscriptionStream, StreamError>(
                StreamError::EngineSubscribeFailed(e),
            ) && *final(self) == *old(self),
    {
        match reply {
            EngineReply::Joined => {
                let ghost pre = *old(self);
                let id = self.next_consumer;
                self.next_consumer = id + 1;
                let mut consumers: Vec<u64> = Vec::new();
                consumers.push(id);
                let entry = TopicEntry { name: topic.clone(), consumers, count: 1 };
                self.registry.push(entry);
                let h = SubscriptionStream::new(id, topic.clone());
                proof {
                    let post = *self;
                    let plen = pre.registry@.len() as int;
                    let e = post.registry@[plen];
                    lemma_frame_push(pre, post, e);
                    lemma_reg_at_is(post.registry@, topic@, plen);
                    assert(post.consumers_of(topic@) =~= seq![id]);
                    assert(post.reg_view() =~= pre.reg_view().push((topic@, seq![id], 1int)));
                    assert forall|k: int| 0 <= k < post.registry@.len() implies (#[trigger] post.registry@[k]).count
                        >= 1 && distinct_ids(post.registry@[k].consumers@) && ids_below(
                        post.registry@[k].consumers@,
                        post.next_consumer,
                    ) by {
                        if k < plen {
                            assert(post.registry@[k] == pre.registry@[k]);
                        }
                    }
                    assert(post.wf());
                }
                Ok(h)
            },
            EngineReply::AlreadyJoined => Err(StreamError::AlreadySubscribed),
            EngineReply::Failed(e) => Err(StreamError::EngineSubscribeFailed(e)),
        }
    }

    /// Subscribes to a topic, asking the overlay engine to join it on the
    /// first local subscription only.
    ///
    /// With a registry entry present the new consumer is attached and the
    /// engine is not called.  Otherwise the engine decides: a confirmed
    /// join creates the entry; an engine claim of an existing
    /// subscription is the `AlreadySubscribed` inconsistency; an engine
    /// failure is wrapped into `EngineSubscribeFailed`.  On any error the
    /// registry, backlog and notification queue are unchanged.
    pub fn subscribe(&mut self, engine: &mut Gossipsub, topic: &String) -> (r: Result<
        SubscriptionStream,
        StreamError,
    >)
        requires
            old(self).wf(),
            old(self).count_of(topic@) < usize::MAX as int,
            old(self).next_id() < u64::MAX,
        ensures
            final(self).wf(),
            old(self).registered(topic@) ==> (r matches Ok(h) && attach_post(
                *old(self),
                *final(self),
                topic@,
                h,
            )),
            old(self).registered(topic@) ==> *final(engine) == *old(engine),
            !old(self).registered(topic@) ==> (r matches Ok(h) ==> join_post(
                *old(self),
                *final(self),
                topic@,
                h,
            )),
            !old(self).registered(topic@) ==> (r matches Err(e) ==> *final(self) == *old(self)
                && (e is AlreadySubscribed || e matches StreamError::EngineSubscribeFailed(_))),
    {
        match self.subscribe_step(topic) {
            SubscribeStep::Attached(h) => Ok(h),
            SubscribeStep::AskEngine => {
                let reply = match engine_subscribe(engine, topic) {
                    Ok(true) => EngineReply::Joined,
                    Ok(false) => EngineReply::AlreadyJoined,
                    Err(e) => EngineReply::Failed(e),
                };
                self.complete_subscribe(topic, reply)
            },
        }
    }

    /// Publishes to a topic: a pass-through to the overlay engine's
    /// publish primitive, synchronous from this component's perspective —
    /// nothing is buffered locally, and success or failure is reported at
    /// call time.  On success the engine's message identifier is returned
    /// as its raw bytes; failures carry the engine's taxonomy.
    pub fn publish(engine: &mut Gossipsub, topic: &String, data: Vec<u8>) -> (r: Result<
        Vec<u8>,
        PublishFailure,
    >) {
        match engine_publish(engine, topic, data) {
            Ok(id) => Ok(id),
            Err(e) => Err(publish_failure_of(e)),
        }
    }

    /// The peers known to subscribe to any topic: the peers of the
    /// engine's peer-topic index.
    pub fn known_peers(engine: &Gossipsub) -> (r: Vec<PeerId>) {
        let pairs = engine_peers(engine);
        Self::peer_ids_of(&pairs)
    }

    /// The first component of each entry of a peer-topic index.
    pub fn peer_ids_of(pairs: &Vec<(PeerId, Vec<String>)>) -> (r: Vec<PeerId>)
        ensures
            r@.len() == pairs@.len(),
            forall|i: int| 0 <= i < r@.len() ==> r@[i] == pairs@[i].0,
    {
        let n = pairs.len();
        let mut out: Vec<PeerId> = Vec::new();
        let mut i: usize = 0;
        while i < n
            invariant
                i <= n,
                n == pairs@.len(),
                out@.len() == i,
                forall|j: int| 0 <= j < i ==> out@[j] == pairs@[j].0,
            decreases n - i,
        {
            out.push(pairs[i].0);
            i += 1;
        }
        out
    }

    /// The peers known to subscribe to the given topic.
    pub fn subscribed_peers(engine: &Gossipsub, topic: &String) -> (r: Vec<PeerId>) {
        let pairs = engine_peers(engine);
        Self::peers_subscribed_to(&pairs, topic)
    }

    /// Selects, from a peer-topic index, the peers whose topic list names
    /// the given topic, in index order.
    pub fn peers_subscribed_to(pairs: &Vec<(PeerId, Vec<String>)>, topic: &String) -> (r: Vec<
        PeerId,
    >)
        ensures
            r@ == peers_for(pairs@, topic@),
    {
        let n = pairs.len();
        let mut out: Vec<PeerId> = Vec::new();
        let mut i: usize = 0;
        while i < n
            invariant
                i <= n,
                n == pairs@.len(),
                out@ == peers_for(pairs@.take(i as int), topic@),
            decreases n - i,
        {
            proof {
                assert(pairs@.take(i as int + 1).drop_last() =~= pairs@.take(i as int));
                assert(pairs@.take(i as int + 1).last() == pairs@[i as int]);
            }
            if Self::names_topic(&pairs[i].1, topic) {
                out.push(pairs[i].0);
            }
            i += 1;
        }
        proof {
            assert(pairs@.take(n as int) =~= pairs@);
        }
        out
    }

    /// Whether the list of topic names contains the given name.
    fn names_topic(topics: &Vec<String>, topic: &String) -> (b: bool)
        ensures
            b == topics_include(topics@, topic@),
    {
        let n = topics.len();
        let mut j: usize = 0;
        while j < n
            invariant
                j <= n,
                n == topics@.len(),
                forall|k: int| 0 <= k < j ==> (#[trigger] topics@[k])@ != topic@,
            decreases n - j,
        {
            if topics[j] == *topic {
                assert(topics_include(topics@, topic@));
                return true;
            }
            j += 1;
        }
        false
    }

    /// Explicitly unsubscribes from a topic, tearing down every local
    /// consumer of it at once.
    ///
    /// On success the registry entry, its count and the topic's backlog
    /// are gone — a teardown discards the messages still awaiting
    /// delivery — and the returned action lists every producer end the
    /// driver must close before telling the overlay engine to leave the
    /// topic.  A pending notice for the topic may remain and is a no-op
    /// when processed.  `NoSuchSubscription` is returned, and nothing
    /// changes, exactly when the topic has no registry entry.
    pub fn unsubscribe(&mut self, topic: &String) -> (r: Result<Teardown, StreamError>)
        requires
            old(self).wf(),
        ensures
            final(self).wf(),
            !old(self).registered(topic@) ==> r == Err::<Teardown, StreamError>(
                StreamError::NoSuchSubscription,
            ) && *final(self) == *old(self),
            old(self).registered(topic@) ==> (r matches Ok(t) && {
                &&& t.topic@ == topic@
                &&& t.closed@ == old(self).consumers_of(topic@)
                &&& !final(self).registered(topic@)
                &&& final(self).reg_view() == old(self).reg_view().remove(
                    old(self).reg_idx(topic@),
                )
                &&& same_topics_except(*old(self), *final(self), topic@)
                &&& !final(self).has_backlog(topic@)
                &&& same_backlogs_except(*old(self), *final(self), topic@)
                &&& final(self).pending_notices() == old(self).pending_notices()
                &&& final(self).next_id() == old(self).next_id()
            }),
    {
        match self.find_reg(topic) {
            None => Err(StreamError::NoSuchSubscription),
            Some(i) => {
                proof {
                    lemma_reg_at_is(old(self).registry@, topic@, i as int);
                }
                let ghost pre = *old(self);
                let entry = self.registry.remove(i);
                proof {
                    let mid = *self;
                    lemma_frame_remove(pre, mid, i as int);
                    assert(mid.reg_view() =~= pre.reg_view().remove(i as int)) by {
                        pre.registry@.remove_ensures(i as int);
                        pre.reg_view().remove_ensures(i as int);
                    }
                    assert(mid.wf());
                }
                let ghost mid = *self;
                match self.find_bl(topic) {
                    None => {
                        proof {
                            assert(*self == mid);
                            assert(!self.has_backlog(topic@));
                        }
                    },
                    Some(b) => {
                        proof {
                            lemma_bl_at_is(mid.backlog@, topic@, b as int);
                        }
                        let _ = self.backlog.remove(b);
                        proof {
                            lemma_bl_frame_remove(mid, *self, b as int);
                            assert(!self.has_backlog(topic@));
                        }
                    },
                }
                proof {
                    let post = *self;
                    assert(post.registry@ == mid.registry@);
                    lemma_same_registry(mid, post);
                    lemma_same_backlog_seq(pre, mid);
                    assert forall|n: Seq<char>|
                        #![trigger post.registered(n)]
                        #![trigger post.consumers_of(n)]
                        #![trigger post.count_of(n)]
                        n != topic@ implies post.registered(n) == pre.registered(n)
                        && post.consumers_of(n) == pre.consumers_of(n) && post.count_of(n)
                        == pre.count_of(n) by {
                        assert(post.registered(n) == mid.registered(n));
                        assert(mid.registered(n) == pre.registered(n));
                        assert(post.consumers_of(n) == mid.consumers_of(n));
                        assert(post.count_of(n) == mid.count_of(n));
                    }
                    assert(same_topics_except(pre, post, topic@));
                    assert forall|n: Seq<char>|
                        #![trigger post.has_backlog(n)]
                        #![trigger post.backlog_of(n)]
                        n != topic@ implies post.has_backlog(n) == pre.has_backlog(n)
                        && post.backlog_of(n) == pre.backlog_of(n) by {
                        assert(mid.has_backlog(n) == pre.has_backlog(n));
                        assert(mid.backlog_of(n) == pre.backlog_of(n));
                    }
                    assert(same_backlogs_except(pre, post, topic@));
                    assert(!post.registered(topic@));
                    assert(post.reg_view() == pre.reg_view().remove(pre.reg_idx(topic@)));
                    assert(post.pending_notices() == pre.pending_notices());
                    assert(post.wf());
                }
                Ok(Teardown { topic: entry.name, closed: entry.consumers })
            },
        }
    }

    /// Accounts for the destruction of one consumer handle: read the
    /// topic's live-subscriber count; a last handle that still holds its
    /// notification right enqueues the topic on the deferred notification
    /// queue (the count stays untouched), any other live handle just
    /// decrements the count.  A handle for an unregistered topic, or one
    /// with no topic left, changes nothing.
    pub fn note_dropped(&mut self, handle: SubscriptionStream)
        requires
            old(self).wf(),
        ensures
            final(self).wf(),
            final(self).next_id() == old(self).next_id(),
            same_backlogs(*old(self), *final(self)),
            handle.spec_topic() is None ==> *final(self) == *old(self),
            handle.spec_topic() matches Some(n) ==> {
                &&& !old(self).registered(n) ==> *final(self) == *old(self)
                &&& old(self).registered(n) && old(self).count_of(n) == 1 && handle.has_right()
                    ==> final(self).reg_view() == old(self).reg_view() && same_topics(
                    *old(self),
                    *final(self),
                ) && final(self).pending_notices() == old(self).pending_notices().push(n)
                &&& old(self).registered(n) && old(self).count_of(n) == 1 && !handle.has_right()
                    ==> *final(self) == *old(self)
                &&& old(self).registered(n) && old(self).count_of(n) != 1 ==> {
                    &&& final(self).registered(n)
                    &&& final(self).consumers_of(n) == old(self).consumers_of(n)
                    &&& final(self).count_of(n) == old(self).count_of(n) - 1
                    &&& same_topics_except(*old(self), *final(self), n)
                    &&& final(self).pending_notices() == old(self).pending_notices()
                }
            },
    {
        let mut h = handle;
        let topic = match h.topic_name() {
            Some(t) => t.clone(),
            None => {
                return ;
            },
        };
        match self.find_reg(&topic) {
            None => {},
            Some(i) => {
                proof {
                    lemma_reg_at_is(old(self).registry@, topic@, i as int);
                }
                let ghost pre = *old(self);
                let c = self.registry[i].count;
                assert(c == pre.count_of(topic@));
                match h.drop_effect(c) {
                    crate::events::DropEffect::Notify(t) => {
                        proof {
                            assert(handle.spec_topic() == Some(topic@));
                            assert(t@ == topic@);
                        }
                        self.notices.push_back(t);
                        proof {
                            let post = *self;
                            assert(post.registry@ == pre.registry@);
                            lemma_same_registry(pre, post);
                            lemma_same_backlog_seq(pre, post);
                            assert(post.pending_notices() =~= pre.pending_notices().push(
                                topic@,
                            ));
                        }
                    },
                    crate::events::DropEffect::Decrement => {
                        assert(c >= 2);
                        self.registry[i].count = c - 1;
                        proof {
                            let post = *self;
                            assert(post.registry@[i as int].name@ == topic@);
                            lemma_frame_update(pre, post, i as int);
                            lemma_reg_at_is(post.registry@, topic@, i as int);
                            lemma_same_backlog_seq(pre, post);
                            assert(post.pending_notices() == pre.pending_notices());
                            assert forall|k: int| 0 <= k < post.registry@.len() implies (
                            #[trigger] post.registry@[k]).count >= 1 && distinct_ids(
                                post.registry@[k].consumers@,
                            ) && ids_below(
                                post.registry@[k].consumers@,
                                post.next_consumer,
                            ) by {
                                if k != i as int {
                                    assert(post.registry@[k] == pre.registry@[k]);
                                } else {
                                    assert(pre.registry@[k].count >= 1);
                                }
                            }
                            assert(post.wf());
                        }
                    },
                    crate::events::DropEffect::Nothing => {},
                }
            },
        }
    }

    /// Processes one deferred-unsubscribe notification: if the topic is
    /// still registered, its entry, count and backlog are all removed, and
    /// the returned action lists the producer ends to close before the
    /// overlay engine is told to leave the topic — exactly once, since the
    /// topic is no longer registered afterwards.  A stale notification
    /// (topic already torn down) is a no-op.
    pub fn process_drop_notice(&mut self, topic: &String) -> (r: Option<Teardown>)
        requires
            old(self).wf(),
        ensures
            final(self).wf(),
            final(self).next_id() == old(self).next_id(),
            final(self).pending_notices() == old(self).pending_notices(),
            !old(self).registered(topic@) ==> r is None && *final(self) == *old(self),
            old(self).registered(topic@) ==> (r matches Some(t) && {
                &&& t.topic@ == topic@
                &&& t.closed@ == old(self).consumers_of(topic@)
                &&& !final(self).registered(topic@)
                &&& final(self).reg_view() == old(self).reg_view().remove(
                    old(self).reg_idx(topic@),
                )
                &&& same_topics_except(*old(self), *final(self), topic@)
                &&& !final(self).has_backlog(topic@)
                &&& same_backlogs_except(*old(self), *final(self), topic@)
            }),
    {
        match self.find_reg(topic) {
            None => None,
            Some(i) => {
                proof {
                    lemma_reg_at_is(old(self).registry@, topic@, i as int);
                }
                let ghost pre = *old(self);
                let entry = self.registry.remove(i);
                proof {
                    let mid = *self;
                    lemma_frame_remove(pre, mid, i as int);
                    assert(mid.reg_view() =~= pre.reg_view().remove(i as int)) by {
                        pre.registry@.remove_ensures(i as int);
                        pre.reg_view().remove_ensures(i as int);
                    }
                    assert(mid.wf());
                }
                let ghost mid = *self;
                match self.find_bl(topic) {
                    None => {
                        proof {
                            assert(*self == mid);
                            assert(!self.has_backlog(topic@));
                        }
                    },
                    Some(b) => {
                        proof {
                            lemma_bl_at_is(mid.backlog@, topic@, b as int);
                        }
                        let _ = self.backlog.remove(b);
                        proof {
                            lemma_bl_frame_remove(mid, *self, b as int);
                            assert(!self.has_backlog(topic@));
                        }
                    },
                }
                proof {
                    let post = *self;
                    assert(post.registry@ == mid.registry@);
                    lemma_same_registry(mid, post);
                    lemma_same_backlog_seq(pre, mid);
                    assert forall|n: Seq<char>|
                        #![trigger post.registered(n)]
                        #![trigger post.consumers_of(n)]
                        #![trigger post.count_of(n)]
                        n != topic@ implies post.registered(n) == pre.registered(n)
                        && post.consumers_of(n) == pre.consumers_of(n) && post.count_of(n)
                        == pre.count_of(n) by {
                        assert(post.registered(n) == mid.registered(n));
                        assert(mid.registered(n) == pre.registered(n));
                        assert(post.consumers_of(n) == mid.consumers_of(n));
                        assert(post.count_of(n) == mid.count_of(n));
                    }
                    assert(same_topics_except(pre, post, topic@));
                    assert forall|n: Seq<char>|
                        #![trigger post.has_backlog(n)]
                        #![trigger post.backlog_of(n)]
                        n != topic@ implies post.has_backlog(n) == pre.has_backlog(n)
                        && post.backlog_of(n) == pre.backlog_of(n) by {
                        assert(mid.has_backlog(n) == pre.has_backlog(n));
                        assert(mid.backlog_of(n) == pre.backlog_of(n));
                    }
                    assert(same_backlogs_except(pre, post, topic@));
                    assert(!post.registered(topic@));
                    assert(post.reg_view() == pre.reg_view().remove(pre.reg_idx(topic@)));
                    assert(post.pending_notices() == pre.pending_notices());
                    assert(post.wf());
                }
                Some(Teardown { topic: entry.name, closed: entry.consumers })
            },
        }
    }

    /// Buffers one engine-delivered message onto its topic's backlog,
    /// creating the backlog entry if the topic had none.  Nothing else
    /// changes.
    pub fn enqueue_message(&mut self, msg: Message)
        requires
            old(self).wf(),
        ensures
            final(self).wf(),
            final(self).next_id() == old(self).next_id(),
            final(self).reg_view() == old(self).reg_view(),
            same_topics(*old(self), *final(self)),
            final(self).pending_notices() == old(self).pending_notices(),
            final(self).has_backlog(msg.topic@),
            final(self).backlog_of(msg.topic@) == old(self).backlog_of(msg.topic@).push(msg),
            same_backlogs_except(*old(self), *final(self), msg.topic@),
    {
        let ghost pre = *old(self);
        let idx = self.find_bl(&msg.topic);
        match idx {
            Some(i) => {
                proof {
                    lemma_bl_at_is(pre.backlog@, msg.topic@, i as int);
                }
                let ghost oldq = self.backlog@[i as int].queue@;
                self.backlog[i].queue.push_back(msg);
                proof {
                    let post = *self;
                    assert(post.backlog@[i as int].name@ == pre.backlog@[i as int].name@);
                    lemma_bl_frame_update(pre, post, i as int);
                    assert(post.backlog_of(msg.topic@) == pre.backlog_of(msg.topic@).push(msg));
                    assert(post.wf());
                }
            },
            None => {
                let name = msg.topic.clone();
                let mut queue: VecDeque<Message> = VecDeque::new();
                queue.push_back(msg);
                let entry = BacklogEntry { name, queue };
                self.backlog.push(entry);
                proof {
                    let post = *self;
                    let e = post.backlog@[pre.backlog@.len() as int];
                    assert(e.name@ == msg.topic@);
                    lemma_bl_frame_push(pre, post, e);
                    assert(e.queue@ =~= Seq::<Message>::empty().push(msg));
                    assert(pre.backlog_of(msg.topic@) == Seq::<Message>::empty());
                    assert(post.wf());
                }
            },
        }
    }

    /// Pops the oldest pending deferred-unsubscribe notification, if any.
    /// Nothing but the notification queue changes.
    pub fn take_notice(&mut self) -> (r: Option<String>)
        requires
            old(self).wf(),
        ensures
            final(self).wf(),
            final(self).next_id() == old(self).next_id(),
            final(self).reg_view() == old(self).reg_view(),
            same_topics(*old(self), *final(self)),
            same_backlogs(*old(self), *final(self)),
            match r {
                Some(t) => old(self).pending_notices().len() > 0 && t@ == old(
                    self,
                ).pending_notices()[0] && final(self).pending_notices() == old(
                    self,
                ).pending_notices().subrange(1, old(self).pending_notices().len() as int),
                None => old(self).pending_notices().len() == 0 && final(self).pending_notices()
                    == old(self).pending_notices(),
            },
    {
        let r = self.notices.pop_front();
        proof {
            lemma_same_registry(*old(self), *self);
            lemma_same_backlog_seq(*old(self), *self);
            assert(self.wf());
        }
        match r {
            Some(t) => {
                proof {
                    assert(t@ == old(self).pending_notices()[0]);
                    assert(self.pending_notices() =~= old(self).pending_notices().subrange(
                        1,
                        old(self).pending_notices().len() as int,
                    ));
                }
                Some(t)
            },
            None => None,
        }
    }

    /// The topic currently has a registry entry.
    pub fn is_subscribed(&self, topic: &String) -> (b: bool)
        ensures
            b == self.registered(topic@),
    {
        self.find_reg(topic).is_some()
    }

    /// The names of the currently registered topics, in entry order.
    /// This can include topics whose handles were all dropped but whose
    /// notification has not yet been processed.
    pub fn subscribed_topics(&self) -> (r: Vec<String>)
        ensures
            r@.len() == self.reg_view().len(),
            forall|i: int| 0 <= i < r@.len() ==> (#[trigger] r@[i])@ == self.reg_view()[i].0,
    {
        let n = self.registry.len();
        let mut out: Vec<String> = Vec::new();
        let mut i: usize = 0;
        while i < n
            invariant
                i <= n,
                n == self.registry@.len(),
                out@.len() == i,
                forall|j: int| 0 <= j < i ==> (#[trigger] out@[j])@ == self.registry@[j].name@,
            decreases n - i,
        {
            out.push(self.registry[i].name.clone());
            i += 1;
        }
        out
    }

    /// The names of the topics that currently hold a backlog entry.
    pub fn backlog_topics(&self) -> (r: Vec<String>)
        ensures
            r@.len() == self.backlog_names().len(),
            forall|i: int| 0 <= i < r@.len() ==> (#[trigger] r@[i])@ == self.backlog_names()[i],
    {
        let n = self.backlog.len();
        let mut out: Vec<String> = Vec::new();
        let mut i: usize = 0;
        while i < n
            invariant
                i <= n,
                n == self.backlog@.len(),
                out@.len() == i,
                forall|j: int| 0 <= j < i ==> (#[trigger] out@[j])@ == self.backlog@[j].name@,
            decreases n - i,
        {
            out.push(self.backlog[i].name.clone());
            i += 1;
        }
        out
    }

    /// The topic's live-subscriber count, when registered.
    pub fn subscriber_count(&self, topic: &String) -> (r: Option<usize>)
        requires
            self.wf(),
        ensures
            match r {
                Some(c) => self.registered(topic@) && c as int == self.count_of(topic@),
                None => !self.registered(topic@),
            },
    {
        match self.find_reg(topic) {
            Some(i) => {
                proof {
                    lemma_reg_at_is(self.registry@, topic@, i as int);
                }
                Some(self.registry[i].count)
            },
            None => None,
        }
    }

    /// The identifiers of the topic's producer ends, in subscription
    /// order.
    pub fn topic_consumers(&self, topic: &String) -> (r: Vec<u64>)
        requires
            self.wf(),
        ensures
            r@ == self.consumers_of(topic@),
    {
        match self.find_reg(topic) {
            Some(i) => {
                proof {
                    lemma_reg_at_is(self.registry@, topic@, i as int);
                }
                let n = self.registry[i].consumers.len();
                let mut out: Vec<u64> = Vec::new();
                let mut j: usize = 0;
                while j < n
                    invariant
                        j <= n,
                        i < self.registry@.len(),
                        n == self.registry@[i as int].consumers@.len(),
                        out@ == self.registry@[i as int].consumers@.subrange(0, j as int),
                    decreases n - j,
                {
                    out.push(self.registry[i].consumers[j]);
                    proof {
                        assert(out@ =~= self.registry@[i as int].consumers@.subrange(
                            0,
                            j as int + 1,
                        ));
                    }
                    j += 1;
                }
                proof {
                    assert(out@ =~= self.registry@[i as int].consumers@);
                }
                out
            },
            None => {
                let out: Vec<u64> = Vec::new();
                proof {
                    assert(out@ =~= Seq::<u64>::empty());
                }
                out
            },
        }
    }

    /// One drain pass over one topic's backlog — the core algorithm.
    ///
    /// `status` reports, for each producer end in `consumers_of` order,
    /// what the driver observed of the consumer's channel immediately
    /// before this call.  The pass: drops an empty backlog entry from
    /// tracking; discards the backlog of a topic that lost its registry
    /// entry; prunes closed producer ends, and if none survives tears
    /// the whole topic down; otherwise pops **at most one** message — the
    /// front of the backlog, exactly when some consumer is ready — and
    /// names every ready consumer as a recipient of that same message.
    /// Consumers that were not ready receive nothing and are not retried
    /// for it: the message has left the backlog.
    pub fn drain_topic(&mut self, topic: &String, status: &Vec<ConsumerStatus>) -> (r:
        DrainOutcome)
        requires
            old(self).wf(),
            old(self).registered(topic@) ==> status@.len() == old(self).consumers_of(
                topic@,
            ).len(),
        ensures
            final(self).wf(),
            final(self).next_id() == old(self).next_id(),
            final(self).pending_notices() == old(self).pending_notices(),
            same_topics_except(*old(self), *final(self), topic@),
            same_backlogs_except(*old(self), *final(self), topic@),
            !old(self).has_backlog(topic@) ==> r is NoBacklog && *final(self) == *old(self),
            old(self).has_backlog(topic@) && old(self).backlog_of(topic@).len() == 0 ==> r
                is DroppedEmpty && !final(self).has_backlog(topic@) && final(self).reg_view()
                == old(self).reg_view() && same_topics(*old(self), *final(self)),
            old(self).has_backlog(topic@) && old(self).backlog_of(topic@).len() > 0 && !old(
                self,
            ).registered(topic@) ==> r is Unregistered && !final(self).has_backlog(topic@)
                && final(self).reg_view() == old(self).reg_view() && same_topics(
                *old(self),
                *final(self),
            ),
            old(self).has_backlog(topic@) && old(self).backlog_of(topic@).len() > 0 && old(
                self,
            ).registered(topic@) && live_ids(old(self).consumers_of(topic@), status@).len() == 0
                ==> (r matches DrainOutcome::TornDown(t) && {
                &&& t.topic@ == topic@
                &&& t.closed@ == old(self).consumers_of(topic@)
                &&& !final(self).registered(topic@)
                &&& !final(self).has_backlog(topic@)
                &&& final(self).reg_view() == old(self).reg_view().remove(
                    old(self).reg_idx(topic@),
                )
            }),
            old(self).has_backlog(topic@) && old(self).backlog_of(topic@).len() > 0 && old(
                self,
            ).registered(topic@) && live_ids(old(self).consumers_of(topic@), status@).len() > 0
                && !any_ready(status@) ==> r is NoneReady && final(self).registered(topic@)
                && final(self).consumers_of(topic@) == live_ids(
                old(self).consumers_of(topic@),
                status@,
            ) && final(self).count_of(topic@) == old(self).count_of(topic@)
                && final(self).has_backlog(topic@) && final(self).backlog_of(topic@)
                == old(self).backlog_of(topic@),
            old(self).has_backlog(topic@) && old(self).backlog_of(topic@).len() > 0 && old(
                self,
            ).registered(topic@) && any_ready(status@) ==> (r matches DrainOutcome::Delivered(
                m,
                rec,
            ) && {
                &&& m == old(self).backlog_of(topic@)[0]
                &&& rec@ == ready_ids(old(self).consumers_of(topic@), status@)
                &&& final(self).registered(topic@)
                &&& final(self).consumers_of(topic@) == live_ids(
                    old(self).consumers_of(topic@),
                    status@,
                )
                &&& final(self).count_of(topic@) == old(self).count_of(topic@)
                &&& final(self).has_backlog(topic@)
                &&& final(self).backlog_of(topic@) == old(self).backlog_of(topic@).subrange(
                    1,
                    old(self).backlog_of(topic@).len() as int,
                )
            }),
    {
        let ghost pre = *old(self);
        let bl_i = match self.find_bl(topic) {
            None => {
                return DrainOutcome::NoBacklog;
            },
            Some(b) => b,
        };
        proof {
            lemma_bl_at_is(pre.backlog@, topic@, bl_i as int);
        }
        if self.backlog[bl_i].queue.len() == 0 {
            let _ = self.backlog.remove(bl_i);
            proof {
                let post = *self;
                lemma_bl_frame_remove(pre, post, bl_i as int);
                lemma_same_registry(pre, post);
                assert(post.wf());
            }
            return DrainOutcome::DroppedEmpty;
        }
        let reg_i = match self.find_reg(topic) {
            None => {
                // No local consumer is left and no teardown will come:
                // the stale backlog would never be delivered, so it is
                // discarded here.
                let _ = self.backlog.remove(bl_i);
                proof {
                    let post = *self;
                    lemma_bl_frame_remove(pre, post, bl_i as int);
                    lemma_same_registry(pre, post);
                    assert(post.wf());
                }
                return DrainOutcome::Unregistered;
            },
            Some(i) => i,
        };
        proof {
            lemma_reg_at_is(pre.registry@, topic@, reg_i as int);
        }
        let ghost cs = pre.consumers_of(topic@);
        let ghost st = status@;
        let n = self.registry[reg_i].consumers.len();
        let mut live: Vec<u64> = Vec::new();
        let mut ready: Vec<u64> = Vec::new();
        let mut j: usize = 0;
        while j < n
            invariant
                j <= n,
                *self == pre,
                pre.wf(),
                (reg_i as int) < pre.registry@.len(),
                cs == pre.registry@[reg_i as int].consumers@,
                n == cs.len(),
                st == status@,
                st.len() == n,
                live@ == live_ids(cs.take(j as int), st.take(j as int)),
                ready@ == ready_ids(cs.take(j as int), st.take(j as int)),
            decreases n - j,
        {
            let id = self.registry[reg_i].consumers[j];
            proof {
                assert(cs.take(j as int + 1).drop_last() =~= cs.take(j as int));
                assert(st.take(j as int + 1).drop_last() =~= st.take(j as int));
                assert(cs.take(j as int + 1).last() == cs[j as int]);
                assert(st.take(j as int + 1)[j as int] == st[j as int]);
            }
            match status[j] {
                ConsumerStatus::Closed => {},
                ConsumerStatus::Ready => {
                    live.push(id);
                    ready.push(id);
                },
                ConsumerStatus::NotReady => {
                    live.push(id);
                },
            }
            j += 1;
        }
        proof {
            assert(cs.take(n as int) =~= cs);
            assert(st.take(n as int) =~= st);
            assert(live@ == live_ids(cs, st));
            assert(ready@ == ready_ids(cs, st));
            lemma_live_ids_wf(cs, st, pre.next_consumer);
            lemma_ready_ids_empty(cs, st);
        }
        if live.len() == 0 {
            proof {
                if any_ready(st) {
                    lemma_any_ready_live(cs, st);
                }
            }
            let entry = self.registry.remove(reg_i);
            proof {
                let mid = *self;
                lemma_frame_remove(pre, mid, reg_i as int);
                assert(mid.reg_view() =~= pre.reg_view().remove(reg_i as int)) by {
                    pre.registry@.remove_ensures(reg_i as int);
                    pre.reg_view().remove_ensures(reg_i as int);
                }
            }
            let ghost mid = *self;
            let _ = self.backlog.remove(bl_i);
            proof {
                let post = *self;
                assert(mid.backlog@ == pre.backlog@);
                lemma_bl_frame_remove(mid, post, bl_i as int);
                assert(post.registry@ == mid.registry@);
                lemma_same_registry(mid, post);
                lemma_same_backlog_seq(pre, mid);
                assert forall|nm: Seq<char>|
                    #![trigger post.registered(nm)]
                    #![trigger post.consumers_of(nm)]
                    #![trigger post.count_of(nm)]
                    nm != topic@ implies post.registered(nm) == pre.registered(nm)
                    && post.consumers_of(nm) == pre.consumers_of(nm) && post.count_of(nm)
                    == pre.count_of(nm) by {
                    assert(post.registered(nm) == mid.registered(nm));
                    assert(mid.registered(nm) == pre.registered(nm));
                    assert(post.consumers_of(nm) == mid.consumers_of(nm));
                    assert(post.count_of(nm) == mid.count_of(nm));
                }
                assert(same_topics_except(pre, post, topic@));
                assert forall|nm: Seq<char>|
                    #![trigger post.has_backlog(nm)]
                    #![trigger post.backlog_of(nm)]
                    nm != topic@ implies post.has_backlog(nm) == pre.has_backlog(nm)
                    && post.backlog_of(nm) == pre.backlog_of(nm) by {
                    assert(mid.has_backlog(nm) == pre.has_backlog(nm));
                    assert(mid.backlog_of(nm) == pre.backlog_of(nm));
                }
                assert(same_backlogs_except(pre, post, topic@));
                assert(post.wf());
            }
            return DrainOutcome::TornDown(
                Teardown { topic: entry.name, closed: entry.consumers },
            );
        }
        self.registry[reg_i].consumers = live;
        proof {
            let mid = *self;
            assert(mid.registry@[reg_i as int].name@ == topic@);
            lemma_frame_update(pre, mid, reg_i as int);
            lemma_reg_at_is(mid.registry@, topic@, reg_i as int);
            assert(mid.consumers_of(topic@) == live_ids(cs, st));
            assert(mid.count_of(topic@) == pre.count_of(topic@));
            assert forall|k: int| 0 <= k < mid.registry@.len() implies (#[trigger] mid.registry@[k]).count
                >= 1 && distinct_ids(mid.registry@[k].consumers@) && ids_below(
                mid.registry@[k].consumers@,
                mid.next_consumer,
            ) by {
                if k != reg_i as int {
                    assert(mid.registry@[k] == pre.registry@[k]);
                } else {
                    assert(pre.registry@[k].count >= 1);
                }
            }
            assert(mid.wf());
            lemma_same_backlog_seq(pre, mid);
        }
        let ghost mid = *self;
        if ready.len() == 0 {
            return DrainOutcome::NoneReady;
        }
        let popped = self.backlog[bl_i].queue.pop_front();
        let m = match popped {
            Some(m) => m,
            None => {
                proof {
                    assert(false);
                }
                vstd::pervasive::unreached()
            },
        };
        proof {
            let post = *self;
            assert(post.backlog@[bl_i as int].name@ == mid.backlog@[bl_i as int].name@);
            lemma_bl_frame_update(mid, post, bl_i as int);
            assert(post.registry@ == mid.registry@);
            lemma_same_registry(mid, post);
            assert forall|nm: Seq<char>|
                #![trigger post.registered(nm)]
                #![trigger post.consumers_of(nm)]
                #![trigger post.count_of(nm)]
                nm != topic@ implies post.registered(nm) == pre.registered(nm)
                && post.consumers_of(nm) == pre.consumers_of(nm) && post.count_of(nm)
                == pre.count_of(nm) by {
                assert(post.registered(nm) == mid.registered(nm));
                assert(mid.registered(nm) == pre.registered(nm));
                assert(post.consumers_of(nm) == mid.consumers_of(nm));
                assert(post.count_of(nm) == mid.count_of(nm));
            }
            assert(same_topics_except(pre, post, topic@));
            assert forall|nm: Seq<char>|
                #![trigger post.has_backlog(nm)]
                #![trigger post.backlog_of(nm)]
                nm != topic@ implies post.has_backlog(nm) == pre.has_backlog(nm)
                && post.backlog_of(nm) == pre.backlog_of(nm) by {
                assert(mid.has_backlog(nm) == pre.has_backlog(nm));
                assert(mid.backlog_of(nm) == pre.backlog_of(nm));
            }
            assert(same_backlogs_except(pre, post, topic@));
            assert(post.backlog_of(topic@) == pre.backlog_of(topic@).subrange(
                1,
                pre.backlog_of(topic@).len() as int,
            ));
            assert(m == pre.backlog_of(topic@)[0]);
            assert(post.consumers_of(topic@) == live_ids(cs, st));
            assert(post.count_of(topic@) == pre.count_of(topic@));
            assert(post.wf());
        }
        DrainOutcome::Delivered(m, ready)
    }

    /// The identifier the next attached consumer will be given.
    pub fn next_handle_id(&self) -> (r: u64)
        ensures
            r == self.next_id(),
    {
        self.next_consumer
    }

    /// Whether a deferred-unsubscribe notification is pending.
    pub fn has_pending_notice(&self) -> (b: bool)
        ensures
            b == (self.pending_notices().len() > 0),
    {
        self.notices.len() > 0
    }

    /// Drains every pending deferred-unsubscribe notification, in order —
    /// the poll loop's first step.
    ///
    /// Each returned action is a topic teardown the driver must carry
    /// out, telling the overlay engine to leave the topic.  The action
    /// list is pinned down exactly: its topics are `owed_teardowns` —
    /// one action for the first notice of every topic registered at
    /// entry, in notice order — so no teardown is skipped, no topic
    /// appears twice, and afterwards no notified topic is registered.
    /// Topics with no pending notification are untouched, and with no
    /// pending notification at all the whole call changes nothing.
    pub fn drain_notices(&mut self) -> (acts: Vec<Teardown>)
        requires
            old(self).wf(),
        ensures
            final(self).wf(),
            final(self).next_id() == old(self).next_id(),
            final(self).pending_notices().len() == 0,
            old(self).pending_notices().len() == 0 ==> *final(self) == *old(self) && acts@.len()
                == 0,
            teardown_topics(acts@) == owed_teardowns(*old(self), old(self).pending_notices()),
            forall|n: Seq<char>|
                #![trigger old(self).registered(n)]
                old(self).pending_notices().contains(n) && old(self).registered(n)
                    ==> exists|k: int| 0 <= k < acts@.len() && (#[trigger] acts@[k]).topic@ == n,
            forall|n: Seq<char>|
                old(self).pending_notices().contains(n) ==> !final(self).registered(n),
            forall|n: Seq<char>|
                #![trigger final(self).registered(n)]
                #![trigger final(self).consumers_of(n)]
                #![trigger final(self).count_of(n)]
                !old(self).pending_notices().contains(n) ==> final(self).registered(n) == old(
                    self,
                ).registered(n) && final(self).consumers_of(n) == old(self).consumers_of(n)
                    && final(self).count_of(n) == old(self).count_of(n),
            forall|n: Seq<char>|
                #![trigger final(self).has_backlog(n)]
                #![trigger final(self).backlog_of(n)]
                !old(self).pending_notices().contains(n) ==> final(self).has_backlog(n) == old(
                    self,
                ).has_backlog(n) && final(self).backlog_of(n) == old(self).backlog_of(n),
            forall|k: int|
                0 <= k < acts@.len() ==> old(self).registered((#[trigger] acts@[k]).topic@)
                    && old(self).pending_notices().contains(acts@[k].topic@) && acts@[k].closed@
                    == old(self).consumers_of(acts@[k].topic@) && !final(self).registered(
                    acts@[k].topic@,
                ) && !final(self).has_backlog(acts@[k].topic@),
            forall|k1: int, k2: int|
                0 <= k1 < k2 < acts@.len() ==> (#[trigger] acts@[k1]).topic@ != (
                #[trigger] acts@[k2]).topic@,
    {
        let ghost pre = *old(self);
        let ghost plen = pre.pending_notices().len() as int;
        let mut acts: Vec<Teardown> = Vec::new();
        let ghost mut done: int = 0;
        let ghost mut seen: Set<Seq<char>> = Set::empty();
        proof {
            assert(pre.pending_notices().subrange(0, plen) =~= pre.pending_notices());
            assert(teardown_topics(acts@) =~= Seq::<Seq<char>>::empty());
            assert(Seq::<Seq<char>>::empty() + owed_from(pre, pre.pending_notices(), seen) =~= owed_from(
                pre,
                pre.pending_notices(),
                seen,
            ));
        }
        while self.has_pending_notice()
            invariant
                self.wf(),
                self.next_id() == pre.next_id(),
                0 <= done <= plen,
                plen == pre.pending_notices().len(),
                self.pending_notices() == pre.pending_notices().subrange(done, plen),
                done == 0 ==> *self == pre && acts@.len() == 0,
                teardown_topics(acts@) + owed_from(
                    pre,
                    pre.pending_notices().subrange(done, plen),
                    seen,
                ) == owed_teardowns(pre, pre.pending_notices()),
                forall|n: Seq<char>|
                    #![trigger seen.contains(n)]
                    seen.contains(n) ==> !self.registered(n) && (exists|k: int|
                        0 <= k < acts@.len() && (#[trigger] acts@[k]).topic@ == n),
                forall|n: Seq<char>|
                    #![trigger seen.contains(n)]
                    pre.registered(n) && !seen.contains(n) ==> self.registered(n),
                forall|n: Seq<char>|
                    #![trigger seen.contains(n)]
                    pre.pending_notices().take(done).contains(n) && pre.registered(n)
                        ==> seen.contains(n),
                forall|n: Seq<char>|
                    #![trigger self.registered(n)]
                    #![trigger self.consumers_of(n)]
                    #![trigger self.count_of(n)]
                    self.registered(n) ==> pre.registered(n) && self.consumers_of(n)
                        == pre.consumers_of(n) && self.count_of(n) == pre.count_of(n),
                forall|n: Seq<char>|
                    #![trigger self.registered(n)]
                    #![trigger self.consumers_of(n)]
                    #![trigger self.count_of(n)]
                    !pre.pending_notices().contains(n) ==> self.registered(n) == pre.registered(
                        n,
                    ) && self.consumers_of(n) == pre.consumers_of(n) && self.count_of(n)
                        == pre.count_of(n),
                forall|n: Seq<char>|
                    #![trigger self.has_backlog(n)]
                    #![trigger self.backlog_of(n)]
                    !pre.pending_notices().contains(n) ==> self.has_backlog(n)
                        == pre.has_backlog(n) && self.backlog_of(n) == pre.backlog_of(n),
                forall|i2: int|
                    0 <= i2 < done ==> !self.registered(#[trigger] pre.pending_notices()[i2]),
                forall|k: int|
                    0 <= k < acts@.len() ==> pre.registered((#[trigger] acts@[k]).topic@)
                        && pre.pending_notices().contains(acts@[k].topic@) && acts@[k].closed@
                        == pre.consumers_of(acts@[k].topic@) && !self.registered(acts@[k].topic@)
                        && !self.has_backlog(acts@[k].topic@),
                forall|k1: int, k2: int|
                    0 <= k1 < k2 < acts@.len() ==> (#[trigger] acts@[k1]).topic@ != (
                    #[trigger] acts@[k2]).topic@,
            decreases self.pending_notices().len(),
        {
            let t = match self.take_notice() {
                Some(t) => t,
                None => {
                    proof {
                        assert(false);
                    }
                    vstd::pervasive::unreached()
                },
            };
            proof {
                assert(t@ == pre.pending_notices()[done]);
                assert(pre.pending_notices().contains(t@));
                assert(self.pending_notices() =~= pre.pending_notices().subrange(
                    done + 1,
                    plen,
                ));
            }
            let ghost before = *self;
            let ghost sub = pre.pending_notices().subrange(done, plen);
            let ghost rest = pre.pending_notices().subrange(done + 1, plen);
            proof {
                assert(sub[0] == t@);
                assert(sub.subrange(1, sub.len() as int) =~= rest);
            }
            let ghost acts_before = acts@;
            let r = self.process_drop_notice(&t);
            match r {
                Some(td) => {
                    proof {
                        assert(before.registered(t@));
                        assert(td.topic@ == t@);
                    }
                    acts.push(td);
                    proof {
                        assert(pre.registered(t@));
                        if seen.contains(t@) {
                            assert(!before.registered(t@));
                        }
                        assert(!seen.contains(t@));
                        assert(owed_from(pre, sub, seen) == seq![t@] + owed_from(
                            pre,
                            rest,
                            seen.insert(t@),
                        ));
                        assert(teardown_topics(acts@) =~= teardown_topics(acts_before).push(t@));
                        assert(teardown_topics(acts@) + owed_from(pre, rest, seen.insert(t@))
                            =~= teardown_topics(acts_before) + owed_from(pre, sub, seen));
                        seen = seen.insert(t@);
                    }
                },
                None => {
                    proof {
                        assert(!before.registered(t@));
                        if pre.registered(t@) && !seen.contains(t@) {
                            assert(before.registered(t@));
                        }
                        assert(owed_from(pre, sub, seen) == owed_from(pre, rest, seen));
                    }
                },
            }
            proof {
                done = done + 1;
                let cur = *self;
                assert forall|i2: int| 0 <= i2 < done implies !cur.registered(
                    #[trigger] pre.pending_notices()[i2],
                ) by {
                    let n = pre.pending_notices()[i2];
                    if i2 == done - 1 {
                        assert(!cur.registered(t@));
                    } else {
                        assert(!before.registered(n));
                        if n != t@ {
                            assert(cur.registered(n) == before.registered(n));
                        }
                    }
                }
                assert forall|n: Seq<char>| #[trigger] seen.contains(n) implies !cur.registered(n)
                    && (exists|k: int|
                    0 <= k < acts@.len() && (#[trigger] acts@[k]).topic@ == n) by {
                    if n == t@ {
                        assert(!cur.registered(t@));
                        if r is Some {
                            assert(acts@[acts@.len() - 1].topic@ == t@);
                        } else {
                            let k = choose|k: int|
                                0 <= k < acts_before.len() && acts_before[k].topic@ == n;
                            assert(acts@[k].topic@ == n);
                        }
                    } else {
                        assert(!before.registered(n));
                        assert(cur.registered(n) == before.registered(n));
                        let k = choose|k: int|
                            0 <= k < acts_before.len() && acts_before[k].topic@ == n;
                        assert(acts@[k].topic@ == n);
                    }
                }
                assert forall|n: Seq<char>| pre.registered(n) && !(#[trigger] seen.contains(n))
                    implies cur.registered(n) by {
                    assert(before.registered(n));
                    if n != t@ {
                        assert(cur.registered(n) == before.registered(n));
                    } else {
                        assert(r is None);
                        assert(cur == before);
                    }
                }
                assert forall|n: Seq<char>|
                    pre.pending_notices().take(done).contains(n) && pre.registered(n) implies
                    #[trigger] seen.contains(n) by {
                    let i3 = choose|i3: int|
                        0 <= i3 < done && pre.pending_notices().take(done)[i3] == n;
                    if i3 < done - 1 {
                        assert(pre.pending_notices().take(done - 1)[i3] == n);
                        assert(pre.pending_notices().take(done - 1).contains(n));
                    } else {
                        assert(n == t@);
                    }
                }
            }
        }
        proof {
            assert(self.pending_notices().len() == 0);
            assert(done == plen);
            assert(pre.pending_notices().subrange(done, plen) =~= Seq::<Seq<char>>::empty());
            assert(teardown_topics(acts@) + Seq::<Seq<char>>::empty() =~= teardown_topics(acts@));
            assert forall|n: Seq<char>| pre.pending_notices().contains(n) implies !self.registered(
                n,
            ) by {
                let i2 = choose|i2: int|
                    0 <= i2 < pre.pending_notices().len() && pre.pending_notices()[i2] == n;
                assert(!self.registered(pre.pending_notices()[i2]));
            }
            assert forall|n: Seq<char>|
                pre.pending_notices().contains(n) && #[trigger] pre.registered(n) implies (exists|
                k: int,
            |
                0 <= k < acts@.len() && (#[trigger] acts@[k]).topic@ == n) by {
                assert(pre.pending_notices().take(plen) =~= pre.pending_notices());
                assert(pre.pending_notices().take(done).contains(n));
                assert(seen.contains(n));
            }
        }
        acts
    }

    /// How many messages the topic's backlog currently holds.
    pub fn backlog_len(&self, topic: &String) -> (r: usize)
        requires
            self.wf(),
        ensures
            r == self.backlog_of(topic@).len(),
    {
        match self.find_bl(topic) {
            Some(i) => {
                proof {
                    lemma_bl_at_is(self.backlog@, topic@, i as int);
                }
                self.backlog[i].queue.len()
            },
            None => 0,
        }
    }
}

} // verus!

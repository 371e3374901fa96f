//! A local multiplexing layer over a peer-to-peer publish/subscribe overlay.
//!
//! Several independent local consumers may subscribe to the same logical
//! topic while the underlying overlay engine is presented with a single
//! subscription per topic.  The push-based engine event stream is converted
//! into consumer-paced, backpressured delivery: each consumer owns a bounded
//! channel, and a per-topic backlog is drained one message per topic per
//! poll pass to every consumer that is ready at that moment.
//!
//! The decision logic lives here, verified: the reference-counted
//! subscribe/unsubscribe lifecycle, the backlog and its drain algorithm,
//! and the deferred teardown triggered by handle destruction.  The
//! surrounding driver performs the engine calls and channel operations that
//! these decisions order, and feeds the outcomes back in as events.

mod engine;
mod events;
mod handle;
mod message;
mod stream;

pub use engine::Gossipsub;
pub use events::ConsumerStatus;
pub use events::DrainOutcome;
pub use events::DropEffect;
pub use events::EngineReply;
pub use events::PublishFailure;
pub use events::StreamError;
pub use events::SubscribeStep;
pub use events::Teardown;
pub use handle::SubscriptionStream;
pub use handle::lemma_no_redundant_unsubscribe;
pub use handle::lemma_right_never_reacquired;
pub use message::Message;
pub use stream::GossipsubStream;
pub use stream::any_ready;
pub use stream::attach_post;
pub use stream::distinct_ids;
pub use stream::ids_below;
pub use stream::join_post;
pub use stream::lemma_absent_projections;
pub use stream::lemma_missed_pass;
pub use stream::lemma_ready_receives;
pub use stream::lemma_wf_consumers;
pub use stream::owed_from;
pub use stream::owed_teardowns;
pub use stream::teardown_topics;
pub use stream::live_ids;
pub use stream::peers_for;
pub use stream::ready_ids;
pub use stream::same_backlogs;
pub use stream::same_backlogs_except;
pub use stream::same_topics;
pub use stream::same_topics_except;
pub use stream::topics_include;

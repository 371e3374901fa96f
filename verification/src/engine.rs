//! The overlay protocol engine, held behind trusted declarations.
//!
//! The engine value itself is owned by the async driver that polls it;
//! the multiplexer borrows it for the one synchronous call a decision
//! needs.  What the engine answers depends on its own opaque mesh state,
//! so the wrappers promise nothing of which outcome comes back: the
//! verified callers state what follows from every possible answer.

use vstd::prelude::*;

use crate::events::PublishFailure;

verus! {

#[verifier::external_type_specification]
#[verifier::external_body]
#[verifier::reject_recursive_types(D)]
#[verifier::reject_recursive_types(F)]
pub struct ExBehaviour<D, F>(libp2p::gossipsub::Behaviour<D, F>);

#[verifier::external_type_specification]
#[verifier::external_body]
pub struct ExIdentityTransform(libp2p::gossipsub::IdentityTransform);

#[verifier::external_type_specification]
#[verifier::external_body]
pub struct ExAllowAllSubscriptionFilter(libp2p::gossipsub::AllowAllSubscriptionFilter);

#[verifier::external_type_specification]
#[verifier::external_body]
pub struct ExPeerId(libp2p::identity::PeerId);

#[verifier::external_type_specification]
#[verifier::external_body]
pub struct ExPublishError(libp2p::gossipsub::PublishError);

/// The engine as this library uses it: gossipsub with the identity
/// message transform and no subscription filtering.
pub type Gossipsub = libp2p::gossipsub::Behaviour<
    libp2p::gossipsub::IdentityTransform,
    libp2p::gossipsub::AllowAllSubscriptionFilter,
>;

/// Relies on gossipsub's `Behaviour::subscribe`: asks the engine to join
/// the topic's mesh.  It answers `Ok(true)` when newly joined, `Ok(false)`
/// when it considers itself already joined, and an error otherwise; which
/// of these comes back depends on the engine's own state, so nothing is
/// promised of the outcome.
#[verifier::external_body]
pub(crate) fn engine_subscribe(engine: &mut Gossipsub, topic: &String) -> (r: Result<bool, String>)
{
    match engine.subscribe(&libp2p::gossipsub::IdentTopic::new(topic.clone())) {
        Ok(joined) => Ok(joined),
        Err(e) => Err(format!("{}", e)),
    }
}

/// Relies on gossipsub's `Behaviour::publish`: hands the payload to the
/// engine for propagation and signing.  Success and failure depend on the
/// engine's peers and configuration; on success the engine's message
/// identifier is returned as its raw bytes.
#[verifier::external_body]
pub(crate) fn engine_publish(engine: &mut Gossipsub, topic: &String, data: Vec<u8>) -> (r: Result<
    Vec<u8>,
    libp2p::gossipsub::PublishError,
>)
{
    match engine.publish(libp2p::gossipsub::IdentTopic::new(topic.clone()), data) {
        Ok(id) => Ok(id.0),
        Err(e) => Err(e),
    }
}

/// Relies on gossipsub's `PublishError`: tells its variants apart, one
/// arm each, carrying each error's text along.
#[verifier::external_body]
pub(crate) fn publish_failure_of(e: libp2p::gossipsub::PublishError) -> (r: PublishFailure)
{
    match e {
        libp2p::gossipsub::PublishError::Duplicate => PublishFailure::Duplicate,
        libp2p::gossipsub::PublishError::SigningError(s) => (PublishFailure::SigningFailed(
            format!("{}", s),
        )),
        libp2p::gossipsub::PublishError::InsufficientPeers => PublishFailure::InsufficientPeers,
        libp2p::gossipsub::PublishError::MessageTooLarge => PublishFailure::MessageTooLarge,
        libp2p::gossipsub::PublishError::TransformFailed(s) => (PublishFailure::TransformFailed(
            format!("{}", s),
        )),
    }
}

/// Relies on gossipsub's `Behaviour::all_peers`: the engine's peer-topic
/// index, each peer paired with the names of the topics it is known to
/// subscribe to.  The contents depend on the engine's state; nothing is
/// promised of them.
#[verifier::external_body]
pub(crate) fn engine_peers(engine: &Gossipsub) -> (r: Vec<
    (libp2p::identity::PeerId, Vec<String>),
>)
{
    engine
        .all_peers()
        .map(|(peer, topics)| (*peer, topics.into_iter().map(|t| t.to_string()).collect()))
        .collect()
}

} // verus!

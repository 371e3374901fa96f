use gossipsub_stream::GossipsubStream;
use gossipsub_stream::PublishFailure;
use gossipsub_stream::StreamError;

use libp2p::gossipsub::Behaviour;
use libp2p::gossipsub::ConfigBuilder;
use libp2p::gossipsub::MessageAuthenticity;
use libp2p::gossipsub::ValidationMode;

fn engine() -> gossipsub_stream::Gossipsub {
    let config = ConfigBuilder::default()
        .validation_mode(ValidationMode::Anonymous)
        .build()
        .unwrap();
    Behaviour::new(MessageAuthenticity::Anonymous, config).unwrap()
}

#[test]
fn subscribe_against_real_engine() {
    let mut g = engine();
    let mut mux = GossipsubStream::new();
    let chat = "chat".to_string();

    // First subscription joins the engine's mesh; the second only
    // attaches another consumer.
    let h1 = mux.subscribe(&mut g, &chat).unwrap();
    let h2 = mux.subscribe(&mut g, &chat).unwrap();
    assert_ne!(h1.id(), h2.id());
    assert_eq!(mux.subscriber_count(&chat), Some(2));
}

#[test]
fn registry_and_engine_divergence_is_reported() {
    let mut g = engine();
    let mut mux = GossipsubStream::new();
    let chat = "chat".to_string();
    let _h = mux.subscribe(&mut g, &chat).unwrap();

    // Remove the registry entry without telling the engine: the next
    // subscribe finds the engine already joined, which the registry
    // precondition says cannot happen.
    let _ = mux.unsubscribe(&chat).unwrap();
    assert!(matches!(
        mux.subscribe(&mut g, &chat),
        Err(StreamError::AlreadySubscribed)
    ));
}

#[test]
fn publish_without_peers_reports_insufficient_peers() {
    let mut g = engine();
    let chat = "chat".to_string();
    let r = GossipsubStream::publish(&mut g, &chat, b"hello".to_vec());
    assert!(matches!(r, Err(PublishFailure::InsufficientPeers)));
}

#[test]
fn peer_filter_selects_by_topic() {
    let p1 = libp2p::identity::PeerId::random();
    let p2 = libp2p::identity::PeerId::random();
    let p3 = libp2p::identity::PeerId::random();
    let pairs = vec![
        (p1, vec!["chat".to_string(), "news".to_string()]),
        (p2, vec!["news".to_string()]),
        (p3, Vec::new()),
    ];
    let chat = "chat".to_string();
    let news = "news".to_string();
    let none = "none".to_string();
    assert_eq!(GossipsubStream::peers_subscribed_to(&pairs, &chat), vec![p1]);
    assert_eq!(
        GossipsubStream::peers_subscribed_to(&pairs, &news),
        vec![p1, p2]
    );
    assert!(GossipsubStream::peers_subscribed_to(&pairs, &none).is_empty());
    assert_eq!(GossipsubStream::peer_ids_of(&pairs), vec![p1, p2, p3]);
}

#[test]
fn peer_queries_on_a_fresh_engine_are_empty() {
    let g = engine();
    let chat = "chat".to_string();
    assert!(GossipsubStream::known_peers(&g).is_empty());
    assert!(GossipsubStream::subscribed_peers(&g, &chat).is_empty());
}

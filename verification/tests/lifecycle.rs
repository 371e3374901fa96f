use gossipsub_stream::ConsumerStatus;
use gossipsub_stream::DropEffect;
use gossipsub_stream::EngineReply;
use gossipsub_stream::GossipsubStream;
use gossipsub_stream::Message;
use gossipsub_stream::StreamError;
use gossipsub_stream::SubscribeStep;

fn msg(topic: &str, data: &[u8]) -> Message {
    Message {
        topic: topic.to_string(),
        data: data.to_vec(),
        source: None,
        sequence_number: None,
    }
}

#[test]
fn first_subscribe_asks_engine_second_does_not() {
    let mut mux = GossipsubStream::new();
    let chat = "chat".to_string();

    // First call: the engine must be told to join "chat".
    assert!(matches!(mux.subscribe_step(&chat), SubscribeStep::AskEngine));
    let h1 = mux.complete_subscribe(&chat, EngineReply::Joined).unwrap();
    assert!(mux.is_subscribed(&chat));
    assert_eq!(mux.subscriber_count(&chat), Some(1));

    // Second call: no engine ask, count rises to 2, independent handles.
    let h2 = match mux.subscribe_step(&chat) {
        SubscribeStep::Attached(h) => h,
        SubscribeStep::AskEngine => panic!("engine asked to join twice"),
    };
    assert_eq!(mux.subscriber_count(&chat), Some(2));
    assert_ne!(h1.id(), h2.id());
    assert_eq!(mux.topic_consumers(&chat), vec![h1.id(), h2.id()]);
    assert_eq!(mux.subscribed_topics(), vec!["chat".to_string()]);
}

#[test]
fn dropping_all_handles_tells_engine_to_leave_exactly_once() {
    let mut mux = GossipsubStream::new();
    let chat = "chat".to_string();
    assert!(matches!(mux.subscribe_step(&chat), SubscribeStep::AskEngine));
    let h1 = mux.complete_subscribe(&chat, EngineReply::Joined).unwrap();
    let h2 = match mux.subscribe_step(&chat) {
        SubscribeStep::Attached(h) => h,
        SubscribeStep::AskEngine => panic!("engine asked to join twice"),
    };
    let ids = vec![h1.id(), h2.id()];
    mux.enqueue_message(msg("chat", b"pending"));

    // First drop: not the last handle, only the count drops.
    mux.note_dropped(h2);
    assert_eq!(mux.subscriber_count(&chat), Some(1));
    assert!(!mux.has_pending_notice());

    // Last drop: a deferred notification is queued, nothing torn down yet.
    mux.note_dropped(h1);
    assert!(mux.has_pending_notice());
    assert!(mux.is_subscribed(&chat));

    // Next poll: the engine is told to leave exactly once, the topic and
    // its backlog are gone.
    let acts = mux.drain_notices();
    assert_eq!(acts.len(), 1);
    assert_eq!(acts[0].topic, "chat".to_string());
    assert_eq!(acts[0].closed, ids);
    assert!(!mux.is_subscribed(&chat));
    assert_eq!(mux.subscriber_count(&chat), None);
    assert_eq!(mux.backlog_len(&chat), 0);
    assert!(mux.backlog_topics().is_empty());

    // A further poll has nothing left to do.
    assert!(mux.drain_notices().is_empty());
}

#[test]
fn explicit_unsubscribe_closes_every_consumer_without_redundant_leave() {
    let mut mux = GossipsubStream::new();
    let chat = "chat".to_string();
    assert!(matches!(mux.subscribe_step(&chat), SubscribeStep::AskEngine));
    let mut h1 = mux.complete_subscribe(&chat, EngineReply::Joined).unwrap();
    let mut h2 = match mux.subscribe_step(&chat) {
        SubscribeStep::Attached(h) => h,
        SubscribeStep::AskEngine => panic!("engine asked to join twice"),
    };

    mux.enqueue_message(msg("chat", b"undelivered"));
    let t = mux.unsubscribe(&chat).unwrap();
    assert_eq!(t.topic, "chat".to_string());
    assert_eq!(t.closed, vec![h1.id(), h2.id()]);
    assert!(!mux.is_subscribed(&chat));
    assert_eq!(mux.backlog_len(&chat), 0);

    // Both handles observe end-of-stream and become terminal.
    h1.note_end_of_stream();
    h2.note_end_of_stream();
    assert!(h1.is_terminated());
    assert!(h2.is_terminated());

    // Neither issues a further unsubscribe on destruction, whatever the
    // orphaned shared counter reads.
    assert!(matches!(h1.drop_effect(2), DropEffect::Decrement));
    assert!(matches!(h2.drop_effect(1), DropEffect::Nothing));
    assert!(!mux.has_pending_notice());
}

#[test]
fn unsubscribe_without_subscription_fails() {
    let mut mux = GossipsubStream::new();
    let nope = "nope".to_string();
    assert!(matches!(
        mux.unsubscribe(&nope),
        Err(StreamError::NoSuchSubscription)
    ));
}

#[test]
fn engine_already_joined_is_an_inconsistency() {
    let mut mux = GossipsubStream::new();
    let chat = "chat".to_string();
    assert!(matches!(mux.subscribe_step(&chat), SubscribeStep::AskEngine));
    let r = mux.complete_subscribe(&chat, EngineReply::AlreadyJoined);
    assert!(matches!(r, Err(StreamError::AlreadySubscribed)));
    assert!(!mux.is_subscribed(&chat));
}

#[test]
fn engine_failure_is_propagated() {
    let mut mux = GossipsubStream::new();
    let chat = "chat".to_string();
    assert!(matches!(mux.subscribe_step(&chat), SubscribeStep::AskEngine));
    let r = mux.complete_subscribe(&chat, EngineReply::Failed("boom".to_string()));
    match r {
        Err(StreamError::EngineSubscribeFailed(e)) => assert_eq!(e, "boom".to_string()),
        _ => panic!("engine failure was not propagated"),
    }
    assert!(!mux.is_subscribed(&chat));
}

#[test]
fn idle_poll_changes_nothing() {
    let mut mux = GossipsubStream::new();
    let chat = "chat".to_string();
    assert!(matches!(mux.subscribe_step(&chat), SubscribeStep::AskEngine));
    let h = mux.complete_subscribe(&chat, EngineReply::Joined).unwrap();

    // Empty notification queue, empty backlog: the poll steps are no-ops.
    assert!(mux.drain_notices().is_empty());
    assert!(mux.backlog_topics().is_empty());
    let st = vec![ConsumerStatus::Ready];
    assert!(matches!(
        mux.drain_topic(&chat, &st),
        gossipsub_stream::DrainOutcome::NoBacklog
    ));
    assert!(mux.is_subscribed(&chat));
    assert_eq!(mux.subscriber_count(&chat), Some(1));
    assert_eq!(mux.topic_consumers(&chat), vec![h.id()]);
    assert_eq!(mux.subscribed_topics(), vec!["chat".to_string()]);
}

#[test]
fn stale_notice_is_a_no_op() {
    let mut mux = GossipsubStream::new();
    let chat = "chat".to_string();
    assert!(mux.process_drop_notice(&chat).is_none());

    // A notice for a topic torn down explicitly is also stale.
    assert!(matches!(mux.subscribe_step(&chat), SubscribeStep::AskEngine));
    let h = mux.complete_subscribe(&chat, EngineReply::Joined).unwrap();
    mux.note_dropped(h);
    let _ = mux.unsubscribe(&chat).unwrap();
    assert!(mux.drain_notices().is_empty());
}

#[test]
fn notices_drain_in_order() {
    let mut mux = GossipsubStream::new();
    let a = "alpha".to_string();
    let b = "beta".to_string();
    assert!(matches!(mux.subscribe_step(&a), SubscribeStep::AskEngine));
    let ha = mux.complete_subscribe(&a, EngineReply::Joined).unwrap();
    assert!(matches!(mux.subscribe_step(&b), SubscribeStep::AskEngine));
    let hb = mux.complete_subscribe(&b, EngineReply::Joined).unwrap();
    mux.note_dropped(ha);
    mux.note_dropped(hb);
    let acts = mux.drain_notices();
    assert_eq!(acts.len(), 2);
    assert_eq!(acts[0].topic, "alpha".to_string());
    assert_eq!(acts[1].topic, "beta".to_string());
    assert!(!mux.is_subscribed(&a));
    assert!(!mux.is_subscribed(&b));
}

use gossipsub_stream::ConsumerStatus;
use gossipsub_stream::DrainOutcome;
use gossipsub_stream::EngineReply;
use gossipsub_stream::GossipsubStream;
use gossipsub_stream::Message;
use gossipsub_stream::SubscribeStep;

fn msg(topic: &str, data: &[u8]) -> Message {
    Message {
        topic: topic.to_string(),
        data: data.to_vec(),
        source: None,
        sequence_number: None,
    }
}

fn two_subscribers(mux: &mut GossipsubStream, topic: &String) -> (u64, u64) {
    assert!(matches!(mux.subscribe_step(topic), SubscribeStep::AskEngine));
    let h1 = mux.complete_subscribe(topic, EngineReply::Joined).unwrap();
    let h2 = match mux.subscribe_step(topic) {
        SubscribeStep::Attached(h) => h,
        SubscribeStep::AskEngine => panic!("engine asked to join twice"),
    };
    (h1.id(), h2.id())
}

#[test]
fn ready_consumer_gets_message_full_consumer_misses_it() {
    let mut mux = GossipsubStream::new();
    let chat = "chat".to_string();
    let (c1, c2) = two_subscribers(&mut mux, &chat);
    mux.enqueue_message(msg("chat", b"m1"));
    mux.enqueue_message(msg("chat", b"m2"));
    mux.enqueue_message(msg("chat", b"m3"));
    assert_eq!(mux.backlog_len(&chat), 3);

    // First pass: one consumer ready, one full.  Only the ready one
    // receives m1; at most one message leaves the backlog.
    let st = vec![ConsumerStatus::Ready, ConsumerStatus::NotReady];
    match mux.drain_topic(&chat, &st) {
        DrainOutcome::Delivered(m, rec) => {
            assert_eq!(m.data, b"m1".to_vec());
            assert_eq!(rec, vec![c1]);
        },
        _ => panic!("expected a delivery"),
    }
    assert_eq!(mux.backlog_len(&chat), 2);

    // Second pass: both ready now.  Both receive the identical m2 — the
    // full consumer is never retried for m1.
    let st = vec![ConsumerStatus::Ready, ConsumerStatus::Ready];
    match mux.drain_topic(&chat, &st) {
        DrainOutcome::Delivered(m, rec) => {
            assert_eq!(m.data, b"m2".to_vec());
            assert_eq!(rec, vec![c1, c2]);
        },
        _ => panic!("expected a delivery"),
    }
    assert_eq!(mux.backlog_len(&chat), 1);
}

#[test]
fn no_ready_consumer_delivers_nothing() {
    let mut mux = GossipsubStream::new();
    let chat = "chat".to_string();
    let (c1, c2) = two_subscribers(&mut mux, &chat);
    mux.enqueue_message(msg("chat", b"m1"));
    let st = vec![ConsumerStatus::NotReady, ConsumerStatus::NotReady];
    assert!(matches!(mux.drain_topic(&chat, &st), DrainOutcome::NoneReady));
    assert_eq!(mux.backlog_len(&chat), 1);
    assert_eq!(mux.topic_consumers(&chat), vec![c1, c2]);
}

#[test]
fn closed_consumers_are_pruned_and_last_one_tears_down() {
    let mut mux = GossipsubStream::new();
    let chat = "chat".to_string();
    let (c1, c2) = two_subscribers(&mut mux, &chat);
    mux.enqueue_message(msg("chat", b"m1"));

    // One consumer's receive side is gone: pruned, the other delivered.
    let st = vec![ConsumerStatus::Closed, ConsumerStatus::Ready];
    match mux.drain_topic(&chat, &st) {
        DrainOutcome::Delivered(m, rec) => {
            assert_eq!(m.data, b"m1".to_vec());
            assert_eq!(rec, vec![c2]);
        },
        _ => panic!("expected a delivery"),
    }
    assert_eq!(mux.topic_consumers(&chat), vec![c2]);

    // All producer ends closed: the whole topic is torn down and the
    // engine must be told to leave.
    mux.enqueue_message(msg("chat", b"m2"));
    let st = vec![ConsumerStatus::Closed];
    match mux.drain_topic(&chat, &st) {
        DrainOutcome::TornDown(t) => {
            assert_eq!(t.topic, "chat".to_string());
            assert_eq!(t.closed, vec![c2]);
        },
        _ => panic!("expected a teardown"),
    }
    assert!(!mux.is_subscribed(&chat));
    assert_eq!(mux.backlog_len(&chat), 0);
    assert_eq!(c1 + 1, c2);
}

#[test]
fn emptied_backlog_entry_is_dropped_next_pass() {
    let mut mux = GossipsubStream::new();
    let chat = "chat".to_string();
    let _ids = two_subscribers(&mut mux, &chat);
    mux.enqueue_message(msg("chat", b"only"));
    let st = vec![ConsumerStatus::Ready, ConsumerStatus::Ready];
    assert!(matches!(mux.drain_topic(&chat, &st), DrainOutcome::Delivered(_, _)));

    // The entry is retained while empty, then dropped from tracking.
    assert_eq!(mux.backlog_topics(), vec!["chat".to_string()]);
    assert!(matches!(mux.drain_topic(&chat, &st), DrainOutcome::DroppedEmpty));
    assert!(mux.backlog_topics().is_empty());
    assert!(mux.is_subscribed(&chat));
}

#[test]
fn explicit_unsubscribe_discards_backlog() {
    let mut mux = GossipsubStream::new();
    let chat = "chat".to_string();
    let _ids = two_subscribers(&mut mux, &chat);
    mux.enqueue_message(msg("chat", b"late"));
    assert_eq!(mux.backlog_len(&chat), 1);

    // Teardown discards the messages still awaiting delivery: a later
    // re-subscriber must not be replayed stale messages.
    let _ = mux.unsubscribe(&chat).unwrap();
    assert_eq!(mux.backlog_len(&chat), 0);
    assert!(mux.backlog_topics().is_empty());
}

#[test]
fn stale_backlog_of_unregistered_topic_is_discarded() {
    let mut mux = GossipsubStream::new();
    let chat = "chat".to_string();

    // A message delivered after the topic's teardown has no consumer
    // left and no teardown owed: the drain discards it.
    mux.enqueue_message(msg("chat", b"orphan"));
    assert_eq!(mux.backlog_len(&chat), 1);
    let st: Vec<ConsumerStatus> = Vec::new();
    assert!(matches!(mux.drain_topic(&chat, &st), DrainOutcome::Unregistered));
    assert_eq!(mux.backlog_len(&chat), 0);
    assert!(matches!(mux.drain_topic(&chat, &st), DrainOutcome::NoBacklog));
}

#[test]
fn messages_are_queued_per_topic_in_arrival_order() {
    let mut mux = GossipsubStream::new();
    let a = "alpha".to_string();
    let b = "beta".to_string();
    let (a1, _a2) = two_subscribers(&mut mux, &a);
    assert!(matches!(mux.subscribe_step(&b), SubscribeStep::AskEngine));
    let hb = mux.complete_subscribe(&b, EngineReply::Joined).unwrap();
    mux.enqueue_message(msg("alpha", b"a1"));
    mux.enqueue_message(msg("beta", b"b1"));
    mux.enqueue_message(msg("alpha", b"a2"));
    assert_eq!(mux.backlog_len(&a), 2);
    assert_eq!(mux.backlog_len(&b), 1);
    assert_eq!(
        mux.backlog_topics(),
        vec!["alpha".to_string(), "beta".to_string()]
    );

    let st = vec![ConsumerStatus::Ready, ConsumerStatus::NotReady];
    match mux.drain_topic(&a, &st) {
        DrainOutcome::Delivered(m, rec) => {
            assert_eq!(m.topic, "alpha".to_string());
            assert_eq!(m.data, b"a1".to_vec());
            assert_eq!(rec, vec![a1]);
        },
        _ => panic!("expected a delivery"),
    }
    let st = vec![ConsumerStatus::Ready];
    match mux.drain_topic(&b, &st) {
        DrainOutcome::Delivered(m, rec) => {
            assert_eq!(m.data, b"b1".to_vec());
            assert_eq!(rec, vec![hb.id()]);
        },
        _ => panic!("expected a delivery"),
    }
}

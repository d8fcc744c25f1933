//! The topic that threads share.

use lazily::queue::{TopicDurability, TopicSubscribeOutcome};
use lazily::reactive::{Effect, ThreadSafeContext};
use lazily::thread_safe_topic::ThreadSafeTopicCell;

#[test]
fn thread_safe_topic_readers_see_what_follows_their_cursor() {
    let mut ctx = ThreadSafeContext::new();
    let mut topic: ThreadSafeTopicCell<u64> = ThreadSafeTopicCell::new(&ctx);
    let early = "early".to_string();
    let late = "late".to_string();
    assert_eq!(
        topic.subscribe(&mut ctx, early.clone(), TopicDurability::Durable),
        TopicSubscribeOutcome::Created
    );
    assert_eq!(topic.publish(&mut ctx, 10), 0);
    assert_eq!(
        topic.subscribe(&mut ctx, late.clone(), TopicDurability::Ephemeral),
        TopicSubscribeOutcome::Created
    );
    assert_eq!(topic.publish(&mut ctx, 20), 1);
    assert_eq!(topic.read_stream(&mut ctx, &early), vec![10, 20]);
    assert_eq!(topic.read_stream(&mut ctx, &late), vec![20]);
    assert_eq!(topic.read(&mut ctx, &early), Some(10));
    assert_eq!(topic.advance(&mut ctx, &early), Some(10));
    assert_eq!(topic.read(&mut ctx, &early), Some(20));
    assert_eq!(topic.advance(&mut ctx, &"nobody".to_string()), None);
}

#[test]
fn thread_safe_topic_keeps_what_a_durable_subscriber_needs() {
    let mut ctx = ThreadSafeContext::new();
    let mut topic: ThreadSafeTopicCell<u64> = ThreadSafeTopicCell::new(&ctx);
    let kept = "kept".to_string();
    let gone = "gone".to_string();
    topic.subscribe(&mut ctx, kept.clone(), TopicDurability::Durable);
    topic.subscribe(&mut ctx, gone.clone(), TopicDurability::Ephemeral);
    for value in [1u64, 2, 3] {
        topic.publish(&mut ctx, value);
    }
    topic.advance(&mut ctx, &kept);
    assert!(topic.disconnect(&mut ctx, &kept));
    assert!(!topic.disconnect(&mut ctx, &kept));
    assert!(topic.disconnect(&mut ctx, &gone));
    assert!(topic.subscription(&gone).is_none());
    assert_eq!(topic.gc(), 1);
    assert_eq!((topic.base_offset(), topic.end_offset()), (1, 3));
    assert_eq!(topic.elements(), vec![2, 3]);
    assert_eq!(
        topic.reconnect(&mut ctx, kept.clone()),
        TopicSubscribeOutcome::Reconnected
    );
    assert_eq!(topic.read_stream(&mut ctx, &kept), vec![2, 3]);
}

#[test]
fn thread_safe_topic_comes_back_from_its_snapshot() {
    let mut ctx = ThreadSafeContext::new();
    let mut topic: ThreadSafeTopicCell<u64> = ThreadSafeTopicCell::new(&ctx);
    let reader = "reader".to_string();
    topic.subscribe(&mut ctx, reader.clone(), TopicDurability::Durable);
    topic.publish(&mut ctx, 5);
    topic.publish(&mut ctx, 6);
    topic.advance(&mut ctx, &reader);
    let snapshot = topic.snapshot();
    let mut other = ThreadSafeContext::new();
    let mut restored: ThreadSafeTopicCell<u64> = ThreadSafeTopicCell::from_snapshot(&mut other, snapshot);
    assert_eq!(restored.read_stream(&mut other, &reader), vec![6]);
    assert_eq!(restored.end_offset(), 2);
}

#[test]
fn thread_safe_topic_publishing_moves_the_connected_readers() {
    let mut ctx = ThreadSafeContext::new();
    let mut topic: ThreadSafeTopicCell<u64> = ThreadSafeTopicCell::new(&ctx);
    let on = "on".to_string();
    let off = "off".to_string();
    topic.subscribe(&mut ctx, on.clone(), TopicDurability::Durable);
    topic.subscribe(&mut ctx, off.clone(), TopicDurability::Durable);
    topic.disconnect(&mut ctx, &off);
    let watching = Effect::new(&mut ctx, vec![topic.reader_handle(&on).unwrap().id()]);
    assert!(watching.take_due(&mut ctx));
    assert!(topic.read_stream(&mut ctx, &on).is_empty());
    topic.publish(&mut ctx, 1);
    assert!(watching.take_due(&mut ctx));
    assert_eq!(topic.read_stream(&mut ctx, &on), vec![1]);
}

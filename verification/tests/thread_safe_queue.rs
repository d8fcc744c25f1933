//! The queue that threads share.

use lazily::queue::{QueuePopError, QueuePushError, VecDequeStorage};
use lazily::reactive::{Effect, ThreadSafeContext};
use lazily::thread_safe_queue::ThreadSafeQueueCell;

#[test]
fn thread_safe_queue_is_first_in_first_out() {
    let mut ctx = ThreadSafeContext::new();
    let mut queue: ThreadSafeQueueCell<u64> = ThreadSafeQueueCell::new(&mut ctx);
    assert_eq!(queue.try_pop(&mut ctx), Err(QueuePopError::Empty));
    for value in [3u64, 1, 2] {
        assert_eq!(queue.try_push(&mut ctx, value), Ok(()));
    }
    assert_eq!(queue.head(&mut ctx), Some(3));
    assert_eq!(queue.len(&mut ctx), 3);
    for value in [3u64, 1, 2] {
        assert_eq!(queue.try_pop(&mut ctx), Ok(value));
    }
    assert!(queue.is_empty(&mut ctx));
    assert_eq!(queue.head(&mut ctx), None);
}

#[test]
fn thread_safe_queue_refuses_beyond_its_capacity() {
    let mut ctx = ThreadSafeContext::new();
    let mut queue: ThreadSafeQueueCell<u64> = ThreadSafeQueueCell::with_capacity(&mut ctx, 1);
    assert_eq!(queue.capacity(), Some(1));
    assert!(!queue.is_full(&mut ctx));
    assert_eq!(queue.try_push(&mut ctx, 1), Ok(()));
    assert!(queue.is_full(&mut ctx));
    assert_eq!(queue.try_push(&mut ctx, 2), Err(QueuePushError::Full));
    assert_eq!(queue.len(&mut ctx), 1);
}

#[test]
fn thread_safe_queue_drains_after_it_closes() {
    let mut ctx = ThreadSafeContext::new();
    let mut queue: ThreadSafeQueueCell<u64> = ThreadSafeQueueCell::with_storage(&mut ctx, VecDequeStorage::unbounded());
    assert_eq!(queue.try_push(&mut ctx, 7), Ok(()));
    assert!(!queue.closed());
    queue.close(&mut ctx);
    assert!(queue.closed());
    assert_eq!(queue.try_push(&mut ctx, 8), Err(QueuePushError::Closed));
    assert_eq!(queue.try_pop(&mut ctx), Ok(7));
    assert_eq!(queue.try_pop(&mut ctx), Err(QueuePopError::Closed));
}

#[test]
fn thread_safe_queue_moves_only_the_readers_that_changed() {
    let mut ctx = ThreadSafeContext::new();
    let mut queue: ThreadSafeQueueCell<u64> = ThreadSafeQueueCell::new(&mut ctx);
    queue.try_push(&mut ctx, 1).unwrap();
    let head = Effect::new(&mut ctx, vec![queue.head_handle().id()]);
    let len = Effect::new(&mut ctx, vec![queue.len_handle().id()]);
    let empty = Effect::new(&mut ctx, vec![queue.is_empty_handle().id()]);
    for effect in [head, len, empty] {
        assert!(effect.take_due(&mut ctx));
    }
    queue.head(&mut ctx);
    queue.len(&mut ctx);
    queue.is_empty(&mut ctx);

    // A second element is behind the head and flips no emptiness.
    queue.try_push(&mut ctx, 2).unwrap();
    assert!(!head.take_due(&mut ctx));
    assert!(len.take_due(&mut ctx));
    assert!(!empty.take_due(&mut ctx));
    assert_eq!(queue.head(&mut ctx), Some(1));
    assert_eq!(queue.len(&mut ctx), 2);
}

//! The single-threaded work queue.

use lazily::reactive::{Context, Effect};
use lazily::work_queue::WorkQueueCell;
use lazily::work_queue_core::WorkQueueDeadLetterReason;

#[test]
fn work_queue_leases_each_item_once() {
    let mut ctx = Context::new();
    let mut queue: WorkQueueCell<u64> = WorkQueueCell::new(&mut ctx, 10, 2);
    let worker = "w".to_string();
    let other = "o".to_string();
    assert_eq!(queue.push(&mut ctx, 50), 0);
    assert_eq!(queue.push(&mut ctx, 60), 1);
    let first = queue.claim(&mut ctx, worker.clone(), 0).unwrap();
    assert_eq!((first.item_id, first.value, first.attempt), (0, 50, 1));
    let second = queue.claim(&mut ctx, other.clone(), 0).unwrap();
    assert_eq!(second.item_id, 1);
    assert!(queue.claim(&mut ctx, worker.clone(), 0).is_none());
    assert_eq!(queue.in_flight_len(&mut ctx), 2);
    // Only the owner of a lease can settle it.
    assert!(!queue.ack(&mut ctx, &other, first.delivery_id));
    assert!(queue.ack(&mut ctx, &worker, first.delivery_id));
    assert!(!queue.ack(&mut ctx, &worker, first.delivery_id));
    assert_eq!(queue.in_flight_len(&mut ctx), 1);
    assert!(queue.is_empty(&mut ctx));
}

#[test]
fn work_queue_buries_what_fails_too_often() {
    let mut ctx = Context::new();
    let mut queue: WorkQueueCell<u64> = WorkQueueCell::new(&mut ctx, 10, 2);
    let worker = "w".to_string();
    queue.push(&mut ctx, 50);
    let first = queue.claim(&mut ctx, worker.clone(), 0).unwrap();
    assert!(queue.nack(&mut ctx, &worker, first.delivery_id));
    assert_eq!(queue.pending_len(&mut ctx), 1);
    let again = queue.claim(&mut ctx, worker.clone(), 5).unwrap();
    assert_eq!((again.item_id, again.attempt), (0, 2));
    assert_ne!(again.delivery_id, first.delivery_id);
    assert!(queue.nack(&mut ctx, &worker, again.delivery_id));
    assert_eq!(queue.dead_letter_len(&mut ctx), 1);
    let letters = queue.dead_letters();
    assert_eq!((letters[0].item_id, letters[0].value), (0, 50));
    assert_eq!(letters[0].reason, WorkQueueDeadLetterReason::Nack);
    assert!(queue.pending().is_empty());
}

#[test]
fn work_queue_takes_back_what_expired() {
    let mut ctx = Context::new();
    let mut queue: WorkQueueCell<u64> = WorkQueueCell::new(&mut ctx, 10, 1);
    queue.push(&mut ctx, 50);
    queue.claim(&mut ctx, "w".to_string(), 0).unwrap();
    assert_eq!(queue.reap_expired(&mut ctx, 10), 0);
    assert_eq!(queue.reap_expired(&mut ctx, 11), 1);
    assert_eq!(queue.in_flight_len(&mut ctx), 0);
    assert_eq!(
        queue.dead_letters()[0].reason,
        WorkQueueDeadLetterReason::Expired
    );
}

#[test]
fn work_queue_moves_only_the_readers_that_changed() {
    let mut ctx = Context::new();
    let mut queue: WorkQueueCell<u64> = WorkQueueCell::new(&mut ctx, 10, 2);
    queue.push(&mut ctx, 50);
    let handles = queue.reader_handles();
    let pending = Effect::new(&mut ctx, vec![handles.pending_len.id()]);
    let empty = Effect::new(&mut ctx, vec![handles.is_empty.id()]);
    let dead = Effect::new(&mut ctx, vec![handles.dead_letter_len.id()]);
    for effect in [pending, empty, dead] {
        assert!(effect.take_due(&mut ctx));
    }
    queue.pending_len(&mut ctx);
    queue.is_empty(&mut ctx);
    queue.dead_letter_len(&mut ctx);
    queue.push(&mut ctx, 60);
    assert!(pending.take_due(&mut ctx));
    assert!(!empty.take_due(&mut ctx));
    assert!(!dead.take_due(&mut ctx));
}

//! The latest-durable cell that threads share.

use lazily::latest_durable_projection_core::{
    LatestDurableAck, LatestDurableClaim, LatestDurableUpsert,
};
use lazily::reactive::ThreadSafeContext;
use lazily::thread_safe_latest_durable_projection::ThreadSafeLatestDurableProjection;

#[test]
fn thread_safe_latest_durable_projection_shows_the_latest_desire() {
    let mut ctx = ThreadSafeContext::new();
    let mut projection: ThreadSafeLatestDurableProjection<&'static str, &'static str> = ThreadSafeLatestDurableProjection::new(&mut ctx, 1);
    assert_eq!(
        projection.upsert_desired(&mut ctx, "doc", 1, "one"),
        LatestDurableUpsert::Accepted
    );
    projection.upsert_desired(&mut ctx, "doc", 2, "two");
    let claim = projection.claim(&mut ctx, &"doc", 1);
    match claim {
        LatestDurableClaim::Claimed(envelope) => {
            assert_eq!((envelope.epoch, envelope.value), (2, "two"))
        }
        other => panic!("expected a claim, got {other:?}"),
    }
    assert_eq!(
        projection.ack_applied(&mut ctx, &"doc", 1, 2),
        LatestDurableAck::Advanced { durable_through: 2 }
    );
    let snapshot = projection.snapshot(&mut ctx);
    assert_eq!(snapshot.generation, 1);
    assert_eq!(snapshot.keys.len(), 1);
    assert_eq!(snapshot.keys[0].1.durable_through, Some(2));
}

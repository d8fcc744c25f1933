//! The latest-durable cell.

use lazily::latest_durable_projection::LatestDurableProjection;
use lazily::reactive::{Context, Effect};

#[test]
fn distinct_transitions_invalidate_the_reactive_snapshot() {
    let mut ctx = Context::new();
    let mut projection = LatestDurableProjection::new(&mut ctx, 1);
    let mut runs = 0;
    let effect = Effect::new(&mut ctx, vec![projection.state_handle().id()]);
    if effect.take_due(&mut ctx) {
        projection.snapshot(&mut ctx);
        runs += 1;
    }

    projection.upsert_desired(&mut ctx, "doc", 1, "one");
    if effect.take_due(&mut ctx) {
        projection.snapshot(&mut ctx);
        runs += 1;
    }
    projection.upsert_desired(&mut ctx, "doc", 1, "one");
    if effect.take_due(&mut ctx) {
        runs += 1;
    }
    assert_eq!(runs, 2);
}

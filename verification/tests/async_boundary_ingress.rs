//! The asynchronous boundary adapter.

use lazily::async_boundary_ingress::AsyncBoundaryIngressCell;
use lazily::boundary_types::{
    BoundaryIngressConfig, BoundaryIngressReadiness, BoundaryIngressSnapshot, BoundaryValidation,
};
use lazily::ingress_types::{IngressEnvelope, IngressPolicy};
use lazily::merge::KeepLatest;
use lazily::reactive::AsyncContext;

#[test]
fn async_boundary_ingress_starts_from_a_snapshot() {
    let mut ctx = AsyncContext::new();
    let mut adapter: AsyncBoundaryIngressCell<String, u64, KeepLatest> = AsyncBoundaryIngressCell::new(
        &mut ctx,
        BoundaryIngressConfig {
            max_buffered: 2,
            freshness_horizon: 10,
        },
        IngressPolicy::default(),
    )
    .expect("boundary ingress");
    adapter.subscribe(&mut ctx, 1);
    assert_eq!(
        adapter.readiness(&mut ctx),
        BoundaryIngressReadiness::Warming
    );
    adapter.apply_snapshot(
        &mut ctx,
        BoundaryIngressSnapshot {
            generation: 1,
            cursor: 4,
            stamped_at: 1,
            entries: vec![IngressEnvelope::new("a".to_string(), 1, 0, 1, 9)],
            members: vec!["m".to_string()],
            validation: BoundaryValidation::Valid,
        },
    );
    assert_eq!(adapter.readiness(&mut ctx), BoundaryIngressReadiness::Ready);
    assert_eq!(adapter.projection(&ctx).cursor, Some(4));
    assert_eq!(adapter.membership(&mut ctx), vec!["m".to_string()]);
    assert_eq!(
        adapter.ingress_mut().value(&mut ctx, &"a".to_string()),
        Some(9)
    );
}

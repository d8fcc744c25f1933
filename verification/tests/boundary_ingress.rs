//! The boundary ingress adapter.

use lazily::boundary_ingress::BoundaryIngressCell;
use lazily::boundary_types::{
    BoundaryFreshness, BoundaryIngressConfig, BoundaryIngressEffectIntent, BoundaryIngressEvent,
    BoundaryIngressPayload, BoundaryIngressReadiness, BoundaryIngressSnapshot, BoundaryValidation,
};
use lazily::ingress_types::{IngressEnvelope, IngressPolicy};
use lazily::merge::KeepLatest;
use lazily::reactive::{Context, Effect};

type Cell = BoundaryIngressCell<String, u64, KeepLatest>;

fn cell(ctx: &mut Context, max_buffered: usize) -> Cell {
    BoundaryIngressCell::new(
        ctx,
        BoundaryIngressConfig {
            max_buffered,
            freshness_horizon: 10,
        },
        IngressPolicy::default(),
    )
    .expect("boundary ingress")
}

fn envelope(
    key: &str,
    generation: u64,
    sequence: u64,
    value: u64,
) -> IngressEnvelope<String, u64> {
    IngressEnvelope::new(key.to_string(), generation, sequence, sequence, value)
}

#[test]
fn snapshot_plus_buffered_successor_has_no_torn_observation() {
    let mut ctx = Context::new();
    let mut adapter = cell(&mut ctx, 4);
    adapter.subscribe(&mut ctx, 1);
    adapter.apply_event(
        &mut ctx,
        BoundaryIngressEvent {
            generation: 1,
            cursor: 2,
            stamped_at: 2,
            payload: BoundaryIngressPayload::Upsert(envelope("b", 1, 0, 2)),
        },
    );

    let mut observations = Vec::new();
    let projection = adapter.projection_handle();
    let membership = adapter.membership_handle();
    let effect = Effect::new(&mut ctx, vec![projection.id(), membership.id()]);
    assert!(effect.take_due(&mut ctx));
    let _ = adapter.membership(&mut ctx);

    adapter.apply_snapshot(
        &mut ctx,
        BoundaryIngressSnapshot {
            generation: 1,
            cursor: 1,
            stamped_at: 1,
            entries: vec![envelope("a", 1, 0, 1)],
            members: vec!["editor-a".to_string()],
            validation: BoundaryValidation::Valid,
        },
    );
    while effect.take_due(&mut ctx) {
        observations.push((adapter.projection(&ctx), adapter.membership(&mut ctx)));
    }

    assert!(!observations.is_empty());
    for (projection, members) in observations.iter() {
        assert_eq!(projection.cursor, Some(2));
        assert_eq!(
            projection.source_keys,
            vec!["a".to_string(), "b".to_string()]
        );
        assert_eq!(members, &vec!["editor-a".to_string()]);
    }
    assert_eq!(
        adapter.ingress_mut().value(&mut ctx, &"a".to_string()),
        Some(1)
    );
    assert_eq!(
        adapter.ingress_mut().value(&mut ctx, &"b".to_string()),
        Some(2)
    );
}

#[test]
fn generation_gap_receipts_and_freshness_are_derived() {
    let mut ctx = Context::new();
    let mut adapter = cell(&mut ctx, 1);
    adapter.subscribe(&mut ctx, 7);
    adapter.apply_snapshot(
        &mut ctx,
        BoundaryIngressSnapshot {
            generation: 7,
            cursor: 10,
            stamped_at: 10,
            entries: vec![],
            members: vec![],
            validation: BoundaryValidation::Valid,
        },
    );
    assert_eq!(adapter.readiness(&mut ctx), BoundaryIngressReadiness::Ready);
    assert_eq!(adapter.freshness(&mut ctx), BoundaryFreshness::Fresh);

    adapter.apply_event(
        &mut ctx,
        BoundaryIngressEvent {
            generation: 7,
            cursor: 12,
            stamped_at: 12,
            payload: BoundaryIngressPayload::Upsert(envelope("c", 7, 0, 3)),
        },
    );
    assert_eq!(
        adapter.effect_intent(&mut ctx),
        BoundaryIngressEffectIntent::ColdReplay {
            generation: 7,
            from_cursor: 11,
        }
    );

    adapter.open_delivery(&mut ctx, "response-1".to_string());
    assert!(!adapter.delivery_converged(&mut ctx));
    adapter.member_join(&mut ctx, "editor-a".to_string());
    adapter.member_leave(&mut ctx, "editor-a");
    assert!(!adapter.delivery_converged(&mut ctx));
    adapter.acknowledge(&mut ctx, "response-1", "editor-a");
    assert!(adapter.delivery_converged(&mut ctx));
    let revision = adapter.projection(&ctx).revision;
    adapter.acknowledge(&mut ctx, "response-1", "editor-a");
    assert_eq!(adapter.projection(&ctx).revision, revision);

    adapter.tick(&mut ctx, 20);
    assert_eq!(adapter.freshness(&mut ctx), BoundaryFreshness::Fresh);
    adapter.tick(&mut ctx, 21);
    assert_eq!(adapter.freshness(&mut ctx), BoundaryFreshness::Stale);
}

#[test]
fn returning_to_a_receipt_is_published() {
    let mut ctx = Context::new();
    let mut adapter = cell(&mut ctx, 4);
    adapter.open_delivery(&mut ctx, "r1".to_string());
    adapter.open_delivery(&mut ctx, "r2".to_string());
    let effect = Effect::new(&mut ctx, vec![adapter.projection_handle().id()]);
    assert!(effect.take_due(&mut ctx));
    adapter.open_delivery(&mut ctx, "r1".to_string());
    assert!(effect.take_due(&mut ctx));
    let active = adapter.projection(&ctx).active_delivery.expect("active");
    assert_eq!(active.receipt_id, "r1");
    adapter.open_delivery(&mut ctx, "r1".to_string());
    assert!(!effect.take_due(&mut ctx));
}

#[test]
fn the_value_plane_shows_what_a_transition_did() {
    let mut ctx = Context::new();
    let mut adapter = cell(&mut ctx, 4);
    adapter.apply_snapshot(
        &mut ctx,
        BoundaryIngressSnapshot {
            generation: 1,
            cursor: 1,
            stamped_at: 1,
            entries: vec![envelope("a", 1, 0, 1)],
            members: vec![],
            validation: BoundaryValidation::Valid,
        },
    );
    let key = "a".to_string();
    assert_eq!(adapter.ingress_mut().value(&mut ctx, &key), Some(1));
    adapter.apply_event(
        &mut ctx,
        BoundaryIngressEvent {
            generation: 1,
            cursor: 2,
            stamped_at: 2,
            payload: BoundaryIngressPayload::Remove(key.clone()),
        },
    );
    assert_eq!(adapter.ingress_mut().value(&mut ctx, &key), None);
}

//! The latest-durable authority without a graph.

use lazily::latest_durable_projection_core::{
    LatestDurableAck, LatestDurableClaim, LatestDurableEnvelope, LatestDurableFailure,
    LatestDurableProjectionCore, LatestDurableReconnect,
};

fn claimed(
    core: &mut LatestDurableProjectionCore<&'static str, &'static str>,
    key: &'static str,
    generation: u64,
) -> LatestDurableEnvelope<&'static str, &'static str> {
    match core.claim(&key, generation).1 {
        LatestDurableClaim::Claimed(envelope) => envelope,
        other => panic!("expected claim, got {other:?}"),
    }
}

#[test]
fn newer_desire_supersedes_pending_without_command_history() {
    let mut core = LatestDurableProjectionCore::new(1);
    core.upsert_desired("doc", 1, "a");
    core.upsert_desired("doc", 2, "b");
    let envelope = claimed(&mut core, "doc", 1);
    assert_eq!((envelope.epoch, envelope.value), (2, "b"));
    assert!(core.state(&"doc").unwrap().desired.is_none());
}

#[test]
fn stale_success_advances_durability_but_never_clears_newer_desire() {
    let mut core = LatestDurableProjectionCore::new(4);
    core.upsert_desired("doc", 7, "old");
    claimed(&mut core, "doc", 4);
    core.upsert_desired("doc", 8, "new");

    assert_eq!(
        core.ack_applied(&"doc", 4, 7).1,
        LatestDurableAck::Advanced { durable_through: 7 }
    );
    assert_eq!(claimed(&mut core, "doc", 4).epoch, 8);
}

#[test]
fn retryable_failure_leaves_only_the_latest_desire_pending() {
    let mut core = LatestDurableProjectionCore::new(1);
    core.upsert_desired("doc", 10, "old");
    claimed(&mut core, "doc", 1);
    core.upsert_desired("doc", 11, "new");

    assert_eq!(
        core.fail_retryable(&"doc", 1, 10).1,
        LatestDurableFailure::Superseded
    );
    assert_eq!(claimed(&mut core, "doc", 1).value, "new");
}

#[test]
fn reconnect_fences_stale_receipts_and_requeues_inflight() {
    let mut core = LatestDurableProjectionCore::new(2);
    core.upsert_desired("doc", 1, "value");
    claimed(&mut core, "doc", 2);
    assert_eq!(
        core.reconnect(3).1,
        LatestDurableReconnect::Advanced {
            generation: 3,
            requeued: 1,
            superseded: 0,
        }
    );
    assert_eq!(
        core.ack_applied(&"doc", 2, 1).1,
        LatestDurableAck::StaleGeneration { current: 3 }
    );
    assert_eq!(claimed(&mut core, "doc", 3).epoch, 1);
}

#[test]
fn duplicate_ack_is_unchanged_but_unknown_future_epoch_is_rejected() {
    let mut core = LatestDurableProjectionCore::new(1);
    core.upsert_desired("doc", 3, "value");
    claimed(&mut core, "doc", 1);
    core.ack_applied(&"doc", 1, 3);
    assert_eq!(
        core.ack_applied(&"doc", 1, 3).1,
        LatestDurableAck::Unchanged { durable_through: 3 }
    );
    assert_eq!(
        core.ack_applied(&"doc", 1, 4).1,
        LatestDurableAck::UnknownEpoch
    );
}

#[test]
fn keys_have_independent_single_flight_lanes() {
    let mut core = LatestDurableProjectionCore::new(1);
    core.upsert_desired("a", 1, "a1");
    core.upsert_desired("b", 4, "b4");
    claimed(&mut core, "a", 1);
    claimed(&mut core, "b", 1);
    assert_eq!(core.claim(&"a", 1).1, LatestDurableClaim::Busy);
    assert_eq!(core.snapshot().keys.len(), 2);
}

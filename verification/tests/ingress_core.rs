//! The admission plane without a graph.

use lazily::ingress_core::IngressCore;
use lazily::ingress_types::{
    IngressAdmission, IngressConfigError, IngressDropReason, IngressEnvelope, IngressError,
    IngressPolicy, IngressReadiness, IngressReceiptChannel, IngressRetry, IngressSchedule,
    IngressScopeChange, IngressTransportKind, ReplayRequest,
};
use lazily::merge::{KeepLatest, RawFifo, Sum};
use lazily::relay::Overflow;

type Core = IngressCore<&'static str, u64, Sum>;

fn built(policy: IngressPolicy) -> Core {
    IngressCore::new(policy).expect("policy")
}

fn env(
    key: &'static str,
    generation: u64,
    sequence: u64,
    stamped_at: u64,
    payload: u64,
) -> IngressEnvelope<&'static str, u64> {
    IngressEnvelope::new(key, generation, sequence, stamped_at, payload)
}

#[test]
fn conflate_is_rejected_for_a_non_conflating_algebra() {
    let policy = IngressPolicy {
        overflow: Overflow::Conflate,
        ..IngressPolicy::default()
    };
    let built: Result<IngressCore<&str, Vec<u64>, RawFifo>, _> = IngressCore::new(policy);
    assert_eq!(built.err(), Some(IngressConfigError::ConflateNotBounding));
}

#[test]
fn zero_receipt_capacity_is_rejected() {
    let policy = IngressPolicy {
        receipt_capacity: 0,
        ..IngressPolicy::default()
    };
    let built: Result<Core, _> = IngressCore::new(policy);
    assert_eq!(built.err(), Some(IngressConfigError::ZeroReceiptCapacity));
}

#[test]
fn in_order_delivery_conflates_and_receipts() {
    let mut core = built(IngressPolicy::default());
    let (change, admission) = core.admit_envelope(env("a", 1, 0, 0, 5));
    assert_eq!(
        admission,
        IngressAdmission::Accepted {
            delivered_through: 0
        }
    );
    assert!(change.accepted_receipts);
    assert_eq!(change.scopes, vec![("a", IngressScopeChange::all())]);

    let (_, admission) = core.admit_envelope(env("a", 1, 1, 0, 7));
    assert_eq!(
        admission,
        IngressAdmission::Conflated {
            delivered_through: 1
        }
    );
    assert_eq!(core.peek(&"a"), Some(12));
    assert_eq!(core.receipts(IngressReceiptChannel::Accepted).len(), 2);
    assert!(core.receipts(IngressReceiptChannel::Dropped).is_empty());
}

#[test]
fn reorder_buffers_then_flushes_in_one_invalidation() {
    let mut core = built(IngressPolicy::default());
    let (change, admission) = core.admit_envelope(env("a", 1, 2, 0, 4));
    assert_eq!(admission, IngressAdmission::Buffered { gap_from: 0 });
    // A buffered envelope mints no receipt and moves no value. The scope's
    // first appearance does move it off `Unknown`, and saying so is the
    // difference between a sound invalidation set and a reader stuck on
    // `Unknown` forever.
    assert!(!change.accepted_receipts && !change.dropped_receipts);
    assert_eq!(change.scopes, vec![("a", IngressScopeChange::creation())]);
    assert_eq!(core.peek(&"a"), None);

    let (change, admission) = core.admit_envelope(env("a", 1, 1, 0, 2));
    assert_eq!(admission, IngressAdmission::Buffered { gap_from: 0 });
    // Now the scope exists, so a second buffered envelope really is invisible.
    assert!(change.is_empty());

    let (_, admission) = core.admit_envelope(env("a", 1, 0, 0, 1));
    // Three ops coalesced, so the delivery reports `Conflated` even though the
    // window it started from was empty.
    assert_eq!(
        admission,
        IngressAdmission::Conflated {
            delivered_through: 2
        }
    );
    // 1 ⊕ 2 ⊕ 4 — the whole flush lands as one window.
    assert_eq!(core.peek(&"a"), Some(7));
    assert_eq!(core.view(&"a").expect("scope").buffered, 0);
    // Exactly one accepted receipt for the delivery that unblocked the flush.
    assert_eq!(core.receipts(IngressReceiptChannel::Accepted).len(), 1);
}

#[test]
fn duplicates_are_dropped_after_delivery_and_while_buffered() {
    let mut core = built(IngressPolicy::default());
    core.admit_envelope(env("a", 1, 0, 0, 1));
    let (_, admission) = core.admit_envelope(env("a", 1, 0, 0, 1));
    assert_eq!(
        admission,
        IngressAdmission::Dropped(IngressDropReason::DuplicateSequence)
    );
    core.admit_envelope(env("a", 1, 5, 0, 1));
    let (_, admission) = core.admit_envelope(env("a", 1, 5, 0, 1));
    assert_eq!(
        admission,
        IngressAdmission::Dropped(IngressDropReason::DuplicateBuffered)
    );
    assert_eq!(core.peek(&"a"), Some(1));
}

#[test]
fn reorder_window_overflow_drops_rather_than_growing() {
    let mut core = built(IngressPolicy {
        reorder_window: 2,
        ..IngressPolicy::default()
    });
    core.admit_envelope(env("a", 1, 1, 0, 1));
    core.admit_envelope(env("a", 1, 2, 0, 1));
    let (_, admission) = core.admit_envelope(env("a", 1, 3, 0, 1));
    assert_eq!(
        admission,
        IngressAdmission::Dropped(IngressDropReason::ReorderWindowOverflow)
    );
    assert_eq!(core.view(&"a").expect("scope").buffered, 2);
}

#[test]
fn a_zero_reorder_window_drops_every_gap_immediately() {
    let mut core = built(IngressPolicy {
        reorder_window: 0,
        ..IngressPolicy::default()
    });
    let (_, admission) = core.admit_envelope(env("a", 1, 1, 0, 1));
    assert_eq!(
        admission,
        IngressAdmission::Dropped(IngressDropReason::ReorderWindowOverflow)
    );
}

#[test]
fn a_stale_generation_is_fenced_before_its_sequence_is_consulted() {
    let mut core = built(IngressPolicy::default());
    core.admit_envelope(env("a", 2, 0, 0, 1));
    // Sequence 0 would be a duplicate; generation 1 is stale. The fence wins,
    // which is what makes a zombie producer distinguishable from a retry.
    let (_, admission) = core.admit_envelope(env("a", 1, 0, 0, 9));
    assert_eq!(
        admission,
        IngressAdmission::Dropped(IngressDropReason::StaleGeneration)
    );
    assert_eq!(core.peek(&"a"), Some(1));
}

#[test]
fn a_newer_generation_hands_off_and_resets_the_sequence_space() {
    let mut core = built(IngressPolicy::default());
    core.admit_envelope(env("a", 1, 0, 0, 1));
    core.admit_envelope(env("a", 1, 7, 0, 1));
    let (_, admission) = core.admit_envelope(env("a", 2, 0, 0, 4));
    assert_eq!(
        admission,
        IngressAdmission::GenerationHandoff { from: 1, to: 2 }
    );
    let view = core.view(&"a").expect("scope");
    assert_eq!(view.generation, 2);
    assert_eq!(view.delivered_through, Some(0));
    // The old generation's buffered successor is not replayed under the new
    // fence — its sequence numbers mean something else now.
    assert_eq!(view.buffered, 0);
    // Nor is its undrained window folded into the new baseline.
    assert_eq!(core.peek(&"a"), Some(4));
}

#[test]
fn a_handoff_that_buffers_still_reports_the_baseline_reset() {
    // The case the formal model caught: a NEWER generation arriving out of
    // order resets the fence, the watermark, AND the window before parking the
    // envelope. Reporting that as "buffered, nothing changed" would leave every
    // reader showing the superseded generation's value forever.
    let mut core = built(IngressPolicy::default());
    core.admit_envelope(env("a", 1, 0, 0, 5));
    let (change, admission) = core.admit_envelope(env("a", 2, 3, 0, 9));
    assert_eq!(admission, IngressAdmission::Buffered { gap_from: 0 });
    assert_eq!(
        change.scopes,
        vec![(
            "a",
            IngressScopeChange {
                value: true,
                readiness: true,
                authority: true,
                retry: false,
            }
        )]
    );
    assert_eq!(core.peek(&"a"), None);
    let view = core.view(&"a").expect("scope");
    assert_eq!(view.generation, 2);
    assert_eq!(view.delivered_through, None);
    assert_eq!(view.buffered, 1);
    // A buffered envelope under the SAME generation is still invisible.
    let (change, _) = core.admit_envelope(env("a", 2, 4, 0, 1));
    assert!(change.is_empty());
}

#[test]
fn an_expired_envelope_never_occupies_a_reorder_slot() {
    let mut core = built(IngressPolicy {
        freshness_horizon: 10,
        reorder_window: 1,
        ..IngressPolicy::default()
    });
    core.tick(100);
    let (_, admission) = core.admit_envelope(env("a", 1, 3, 50, 1));
    assert_eq!(
        admission,
        IngressAdmission::Dropped(IngressDropReason::Expired)
    );
    // A refused envelope leaves no scope behind: an expired message for an
    // untracked key is not an admission plane.
    assert_eq!(core.view(&"a"), None);
    // The slot is still free for a fresh out-of-order envelope.
    let (_, admission) = core.admit_envelope(env("a", 1, 3, 95, 1));
    assert_eq!(admission, IngressAdmission::Buffered { gap_from: 0 });
}

#[test]
fn block_overflow_refuses_without_losing_the_window() {
    let mut core = IngressCore::<&str, u64, KeepLatest>::new(IngressPolicy {
        high_water: 1,
        overflow: Overflow::Block,
        ..IngressPolicy::default()
    })
    .expect("policy");
    core.admit_envelope(env("a", 1, 0, 0, 5));
    let (change, admission) = core.admit_envelope(env("a", 1, 1, 0, 9));
    assert_eq!(admission, IngressAdmission::Blocked);
    assert!(change.dropped_receipts);
    assert_eq!(core.peek(&"a"), Some(5));
    // The blocked envelope did not advance the watermark, so a producer retry
    // after a drain is still in order rather than a duplicate.
    assert_eq!(core.view(&"a").expect("scope").delivered_through, Some(0));
    core.drain(&"a");
    let (_, admission) = core.admit_envelope(env("a", 1, 1, 0, 9));
    assert_eq!(
        admission,
        IngressAdmission::Accepted {
            delivered_through: 1
        }
    );
}

#[test]
fn drop_oldest_restarts_the_window_at_the_incoming_op() {
    let mut core = IngressCore::<&str, u64, Sum>::new(IngressPolicy {
        high_water: 2,
        overflow: Overflow::DropOldest,
        ..IngressPolicy::default()
    })
    .expect("policy");
    core.admit_envelope(env("a", 1, 0, 0, 1));
    core.admit_envelope(env("a", 1, 1, 0, 2));
    let (_, admission) = core.admit_envelope(env("a", 1, 2, 0, 30));
    assert_eq!(
        admission,
        IngressAdmission::Accepted {
            delivered_through: 2
        }
    );
    assert_eq!(core.peek(&"a"), Some(30));
}

#[test]
fn drop_newest_keeps_the_window_and_receipts_the_drop() {
    let mut core = IngressCore::<&str, u64, Sum>::new(IngressPolicy {
        high_water: 1,
        overflow: Overflow::DropNewest,
        ..IngressPolicy::default()
    })
    .expect("policy");
    core.admit_envelope(env("a", 1, 0, 0, 5));
    let (change, admission) = core.admit_envelope(env("a", 1, 1, 0, 9));
    assert_eq!(
        admission,
        IngressAdmission::Dropped(IngressDropReason::Backpressure)
    );
    assert!(change.dropped_receipts);
    assert_eq!(core.peek(&"a"), Some(5));
}

#[test]
fn readiness_derives_from_lifecycle_and_freshness() {
    let mut core = built(IngressPolicy {
        freshness_horizon: 10,
        ..IngressPolicy::default()
    });
    assert_eq!(core.readiness(&"a"), IngressReadiness::Unknown);
    core.open("a", 1);
    assert_eq!(core.readiness(&"a"), IngressReadiness::Warming);
    core.admit_envelope(env("a", 1, 0, 0, 1));
    assert_eq!(core.readiness(&"a"), IngressReadiness::Ready);

    // Crossing the horizon is a readiness-only transition.
    let change = core.tick(50);
    assert_eq!(
        change.scopes,
        vec![("a", IngressScopeChange::readiness_only())]
    );
    assert_eq!(core.readiness(&"a"), IngressReadiness::Stale);
    // A further tick inside the same readiness dirties nothing.
    assert!(core.tick(60).is_empty());
}

#[test]
fn suspend_retains_the_watermark_and_reconnect_replays_the_gap() {
    let mut core = built(IngressPolicy::default());
    core.admit_envelope(env("a", 1, 0, 0, 1));
    core.admit_envelope(env("a", 1, 1, 0, 1));
    let (_, request) = core.suspend(&"a");
    assert_eq!(
        request,
        Some(ReplayRequest {
            generation: 1,
            from_sequence: 2
        })
    );
    assert_eq!(core.readiness(&"a"), IngressReadiness::Suspended);
    // The coalesced window survives a disconnect; only readiness changed.
    assert_eq!(core.peek(&"a"), Some(2));
    // Suspending twice is idempotent and dirties nothing.
    let (change, request) = core.suspend(&"a");
    assert!(change.is_empty());
    assert_eq!(request, None);

    let (_, request) = core.reconnect(&"a", 1);
    assert_eq!(
        request,
        ReplayRequest {
            generation: 1,
            from_sequence: 2
        }
    );
    assert_eq!(core.readiness(&"a"), IngressReadiness::Ready);
}

#[test]
fn reconnect_at_a_higher_generation_discards_the_stale_window() {
    let mut core = built(IngressPolicy::default());
    core.admit_envelope(env("a", 1, 0, 0, 5));
    core.suspend(&"a");
    let (change, request) = core.reconnect(&"a", 3);
    assert_eq!(
        request,
        ReplayRequest {
            generation: 3,
            from_sequence: 0
        }
    );
    assert!(change.scopes.iter().any(|(_, c)| c.value && c.authority));
    assert_eq!(core.peek(&"a"), None);
}

#[test]
fn errors_deepen_backoff_and_a_delivery_clears_it() {
    let mut core = built(IngressPolicy {
        retry_base: 10,
        retry_ceiling: 25,
        ..IngressPolicy::default()
    });
    core.open("a", 1);
    assert_eq!(core.retry(&"a"), None);

    core.fail(&"a", IngressError::TransportClosed);
    assert_eq!(
        core.retry(&"a"),
        Some(IngressRetry {
            attempt: 1,
            backoff: 10,
            resume_from: 0
        })
    );
    core.fail(&"a", IngressError::TransportClosed);
    assert_eq!(core.retry(&"a").expect("retry").backoff, 20);
    // Clamped, not doubled past the ceiling.
    core.fail(&"a", IngressError::TransportClosed);
    assert_eq!(core.retry(&"a").expect("retry").backoff, 25);
    assert_eq!(core.receipts(IngressReceiptChannel::Error).len(), 3);

    core.admit_envelope(env("a", 1, 0, 0, 1));
    assert_eq!(core.retry(&"a"), None);
}

#[test]
fn a_reconnect_clears_the_error_streak_without_a_delivery() {
    let mut core = built(IngressPolicy::default());
    core.open("a", 1);
    core.fail(&"a", IngressError::AuthorityLost);
    let (change, _) = core.reconnect(&"a", 1);
    assert!(change.scopes.iter().any(|(_, c)| c.retry));
    assert_eq!(core.retry(&"a"), None);
}

#[test]
fn closed_scopes_admit_nothing_and_claim_no_authority() {
    let mut core = built(IngressPolicy::default());
    core.admit_envelope(env("a", 1, 0, 0, 1));
    core.close(&"a");
    assert_eq!(core.authority(&"a"), None);
    let (_, admission) = core.admit_envelope(env("a", 1, 1, 0, 1));
    assert_eq!(
        admission,
        IngressAdmission::Dropped(IngressDropReason::ScopeClosed)
    );
    // Reopening a closed scope restarts its sequence space.
    core.open("a", 1);
    let (_, admission) = core.admit_envelope(env("a", 1, 0, 0, 4));
    assert_eq!(
        admission,
        IngressAdmission::Accepted {
            delivered_through: 0
        }
    );
}

#[test]
fn scopes_are_independent() {
    let mut core = built(IngressPolicy::default());
    core.admit_envelope(env("a", 1, 0, 0, 1));
    let (change, _) = core.admit_envelope(env("b", 1, 0, 0, 2));
    assert_eq!(change.scopes.len(), 1);
    assert_eq!(change.scopes[0].0, "b");
    core.close(&"b");
    assert_eq!(core.readiness(&"a"), IngressReadiness::Ready);
    assert_eq!(core.peek(&"a"), Some(1));
}

#[test]
fn receipts_are_bounded_and_offsets_stay_monotone() {
    let mut core = built(IngressPolicy {
        receipt_capacity: 2,
        ..IngressPolicy::default()
    });
    for seq in 0..4 {
        core.admit_envelope(env("a", 1, seq, 0, 1));
    }
    let accepted = core.receipts(IngressReceiptChannel::Accepted);
    assert_eq!(accepted.len(), 2);
    assert_eq!(
        accepted.iter().map(|r| r.offset).collect::<Vec<_>>(),
        vec![2, 3]
    );
}

#[test]
fn a_schedule_offers_a_poll_interval_only_without_event_delivery() {
    assert_eq!(
        IngressSchedule::for_kind(IngressTransportKind::EventChannel, 50).poll_interval,
        None
    );
    assert_eq!(
        IngressSchedule::for_kind(IngressTransportKind::RpcTriggered, 50).poll_interval,
        None
    );
    assert_eq!(
        IngressSchedule::for_kind(IngressTransportKind::BoundedPolling, 50).poll_interval,
        Some(50)
    );
    // A zero interval would be an unbounded refresh loop.
    assert_eq!(
        IngressSchedule::for_kind(IngressTransportKind::BoundedPolling, 0).poll_interval,
        Some(1)
    );
}

#[test]
fn drain_is_a_value_only_transition_and_empty_drains_dirty_nothing() {
    let mut core = built(IngressPolicy::default());
    core.admit_envelope(env("a", 1, 0, 0, 3));
    let (change, value) = core.drain(&"a");
    assert_eq!(value, Some(3));
    assert_eq!(change.scopes, vec![("a", IngressScopeChange::value_only())]);
    let (change, value) = core.drain(&"a");
    assert_eq!(value, None);
    assert!(change.is_empty());
    // Draining does not move the watermark: a drain is an egress, not an ack.
    assert_eq!(core.view(&"a").expect("scope").delivered_through, Some(0));
}

#[test]
fn out_of_order_arrival_converges_to_the_in_order_fold() {
    // The reordering tax is paid by the buffer, not by the algebra: for any
    // arrival permutation of a contiguous run, the drained window equals the
    // in-order fold.
    let permutations: [[u64; 4]; 5] = [
        [0, 1, 2, 3],
        [3, 2, 1, 0],
        [1, 0, 3, 2],
        [2, 0, 1, 3],
        [0, 3, 1, 2],
    ];
    for order in permutations {
        let mut core = built(IngressPolicy::default());
        for seq in order {
            core.admit_envelope(env("a", 1, seq, 0, 1 << seq));
        }
        assert_eq!(core.peek(&"a"), Some(1 + 2 + 4 + 8), "order {order:?}");
        assert_eq!(
            core.view(&"a").expect("scope").delivered_through,
            Some(3),
            "order {order:?}"
        );
    }
}

#[test]
fn a_full_log_drops_its_oldest_receipt_whatever_its_channel() {
    let mut core = built(IngressPolicy {
        receipt_capacity: 2,
        ..IngressPolicy::default()
    });
    core.admit_envelope(env("a", 1, 0, 0, 5));
    // A duplicate is dropped, and moves its own channel alone.
    let (change, _) = core.admit_envelope(env("a", 1, 0, 0, 5));
    assert!(change.dropped_receipts && !change.accepted_receipts);
    assert_eq!(core.receipts(IngressReceiptChannel::Accepted).len(), 1);
    assert_eq!(core.receipts(IngressReceiptChannel::Dropped).len(), 1);
    // The log is full: the accepted receipt makes way for the next drop.
    core.admit_envelope(env("a", 1, 0, 0, 5));
    assert!(core.receipts(IngressReceiptChannel::Accepted).is_empty());
    assert_eq!(core.receipts(IngressReceiptChannel::Dropped).len(), 2);
}

#[test]
fn a_refusal_behind_a_new_fence_reports_what_it_reset() {
    let mut core = built(IngressPolicy {
        reorder_window: 0,
        ..IngressPolicy::default()
    });
    core.admit_envelope(env("a", 1, 0, 0, 5));
    let (change, admission) = core.admit_envelope(env("a", 2, 1, 0, 9));
    assert_eq!(
        admission,
        IngressAdmission::Dropped(IngressDropReason::ReorderWindowOverflow)
    );
    assert_eq!(core.peek(&"a"), None);
    assert_eq!(
        change.scopes,
        vec![(
            "a",
            IngressScopeChange {
                value: true,
                readiness: true,
                authority: true,
                retry: false,
            }
        )]
    );
    assert!(change.dropped_receipts && !change.accepted_receipts);
}

#[test]
fn a_blocked_handoff_reports_what_it_reset() {
    let mut core = built(IngressPolicy {
        high_water: 0,
        overflow: Overflow::Block,
        ..IngressPolicy::default()
    });
    core.open("a", 1);
    let (change, admission) = core.admit_envelope(env("a", 2, 0, 0, 9));
    assert_eq!(admission, IngressAdmission::Blocked);
    assert_eq!(core.authority(&"a").map(|claim| claim.generation), Some(2));
    assert_eq!(
        change.scopes,
        vec![(
            "a",
            IngressScopeChange {
                value: false,
                readiness: false,
                authority: true,
                retry: false,
            }
        )]
    );
}

#[test]
fn opening_a_live_scope_at_a_newer_generation_reports_its_readiness() {
    let mut core = built(IngressPolicy::default());
    core.admit_envelope(env("a", 1, 0, 0, 5));
    assert_eq!(core.readiness(&"a"), IngressReadiness::Ready);
    let change = core.open("a", 2);
    assert_eq!(core.readiness(&"a"), IngressReadiness::Warming);
    let claim = core.authority(&"a").expect("authority");
    assert_eq!((claim.generation, claim.delivered_through), (2, None));
    assert_eq!(
        change.scopes,
        vec![(
            "a",
            IngressScopeChange {
                value: false,
                readiness: true,
                authority: true,
                retry: false,
            }
        )]
    );
}

#[test]
fn a_moved_resume_point_is_a_moved_retry() {
    let mut core = built(IngressPolicy::default());
    core.admit_envelope(env("a", 1, 0, 0, 5));
    core.fail(&"a", IngressError::TransportClosed);
    assert_eq!(core.retry(&"a").map(|retry| retry.resume_from), Some(1));
    // Parking behind a fence sends the resume point back to the start.
    let (change, admission) = core.admit_envelope(env("a", 2, 3, 0, 9));
    assert_eq!(admission, IngressAdmission::Buffered { gap_from: 0 });
    assert_eq!(core.retry(&"a").map(|retry| retry.resume_from), Some(0));
    assert_eq!(change.scopes, vec![("a", IngressScopeChange::all())]);

    core.close(&"a");
    core.fail(&"a", IngressError::TransportClosed);
    let change = core.open("a", 3);
    assert_eq!(core.retry(&"a"), None);
    assert!(change.scopes[0].1.retry);
}

#[test]
fn reviving_a_closed_scope_reports_its_authority() {
    let mut core = built(IngressPolicy::default());
    core.open("a", 1);
    core.close(&"a");
    assert!(core.authority(&"a").is_none());
    let (change, _) = core.reconnect(&"a", 1);
    assert!(core.authority(&"a").is_some());
    assert!(change.scopes[0].1.authority);
}

#[test]
fn an_evicted_receipt_marks_its_channel() {
    let mut core = built(IngressPolicy {
        receipt_capacity: 1,
        ..IngressPolicy::default()
    });
    core.admit_envelope(env("a", 1, 0, 0, 5));
    let (change, _) = core.admit_envelope(env("a", 1, 0, 0, 5));
    assert!(change.dropped_receipts && change.accepted_receipts && !change.error_receipts);
    let change = core.fail(&"a", IngressError::TransportClosed);
    assert!(change.error_receipts && change.dropped_receipts && !change.accepted_receipts);
}

#[test]
fn the_last_sequence_is_no_matter_where_it_is_refused() {
    let mut core = built(IngressPolicy::default());
    core.open("a", 2);
    let (_, admission) = core.admit_envelope(env("a", 1, u64::MAX, 0, 5));
    assert_eq!(
        admission,
        IngressAdmission::Dropped(IngressDropReason::StaleGeneration)
    );
}

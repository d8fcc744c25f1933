//! Every outcome that the graph-agnostic cores can give, with an input that gives it.

use lazily::boundary_ingress_core::BoundaryIngressCore;
use lazily::boundary_types::{
    BoundaryFreshness, BoundaryIngressAction, BoundaryIngressConfig, BoundaryIngressEffectIntent,
    BoundaryIngressEvent, BoundaryIngressPayload, BoundaryIngressPhase, BoundaryIngressReadiness,
    BoundaryIngressSnapshot, BoundaryValidation,
};
use lazily::egress_core::{
    EgressAck, EgressClaim, EgressConfigError, EgressCore, EgressFailure, EgressPolicy,
    EgressReconnect, EgressRetryAction,
};
use lazily::ingress_types::IngressEnvelope;
use lazily::latest_durable_projection_core::{
    LatestDurableAck, LatestDurableClaim, LatestDurableFailure, LatestDurableProjectionCore,
    LatestDurableReconnect, LatestDurableUpsert,
};
use lazily::queue::{TopicDurability, TopicSubscribeOutcome};
use lazily::topic_core::TopicCore;

type Egress = EgressCore<&'static str>;
type Durable = LatestDurableProjectionCore<&'static str, &'static str>;
type Boundary = BoundaryIngressCore<&'static str, u64>;

fn egress(inflight_limit: usize, retry_budget: u32) -> Egress {
    EgressCore::new(
        1,
        EgressPolicy {
            inflight_limit,
            retry_budget,
            retry_base: 5,
            retry_ceiling: 20,
        },
    )
    .expect("policy")
}

#[test]
fn egress_policies_are_judged_in_order() {
    let refused = |policy: EgressPolicy| Egress::new(1, policy).err();
    assert_eq!(
        refused(EgressPolicy {
            inflight_limit: 0,
            retry_base: 0,
            ..EgressPolicy::default()
        }),
        Some(EgressConfigError::ZeroInflightLimit)
    );
    assert_eq!(
        refused(EgressPolicy {
            retry_base: 0,
            ..EgressPolicy::default()
        }),
        Some(EgressConfigError::ZeroRetryBase)
    );
    assert_eq!(
        refused(EgressPolicy {
            retry_base: 11,
            retry_ceiling: 10,
            ..EgressPolicy::default()
        }),
        Some(EgressConfigError::RetryCeilingBelowBase)
    );
    assert_eq!(refused(EgressPolicy::default()), None);
}

#[test]
fn egress_claims_are_bounded_by_the_window() {
    let mut core = egress(1, 3);
    assert_eq!(core.claim(1).1, EgressClaim::Empty);
    core.enqueue("a");
    core.enqueue("b");
    assert!(matches!(core.claim(1).1, EgressClaim::Claimed(record) if record.payload == "a"));
    assert_eq!(core.claim(1).1, EgressClaim::WindowFull);
    assert_eq!(core.claim(9).1, EgressClaim::StaleGeneration { current: 1 });
}

#[test]
fn egress_backoff_doubles_up_to_its_ceiling() {
    let mut core = egress(1, 9);
    core.enqueue("a");
    let mut backoffs = Vec::new();
    for _ in 0..4 {
        assert!(matches!(core.claim(1).1, EgressClaim::Claimed(_)));
        match core.fail(1, 0).1 {
            EgressFailure::Retrying(retry) => backoffs.push(retry.backoff),
            other => panic!("expected a retry, got {other:?}"),
        }
        core.retry_now(1, 0);
    }
    assert_eq!(backoffs, vec![5, 10, 20, 20]);
}

#[test]
fn egress_reports_of_others_change_nothing() {
    let mut core = egress(2, 1);
    core.enqueue("a");
    assert_eq!(core.fail(1, 0).1, EgressFailure::UnknownSequence);
    assert_eq!(core.fail(2, 0).1, EgressFailure::StaleGeneration { current: 1 });
    assert_eq!(core.retry_now(1, 0).1, EgressRetryAction::UnknownSequence);
    assert_eq!(
        core.retry_now(2, 0).1,
        EgressRetryAction::StaleGeneration { current: 1 }
    );
    assert_eq!(core.ack(2, 0).1, EgressAck::StaleGeneration { current: 1 });
    assert_eq!(core.reconnect(1).1, EgressReconnect::Unchanged { generation: 1 });
    assert_eq!(
        core.reconnect(0).1,
        EgressReconnect::StaleGeneration { current: 1 }
    );
    assert_eq!(core.pending().len(), 1);
}

#[test]
fn egress_reconnect_puts_everything_back_in_sequence() {
    let mut core = egress(3, 3);
    for payload in ["a", "b", "c", "d"] {
        core.enqueue(payload);
    }
    core.claim(1);
    core.claim(1);
    core.claim(1);
    core.ack(1, 0);
    core.fail(1, 1);
    // One is parked, one in flight, one was never sent.
    assert_eq!(
        core.reconnect(2).1,
        EgressReconnect::Advanced {
            generation: 2,
            replayed: 2
        }
    );
    let pending = core.pending();
    let sequences: Vec<u64> = pending.iter().map(|record| record.sequence).collect();
    assert_eq!(sequences, vec![1, 2, 3]);
    assert!(pending.iter().all(|record| record.generation == 2));
    assert_eq!(core.acked_through(), Some(0));
    assert_eq!(core.next_sequence(), 4);
    assert!(core.inflight().is_empty());
    assert_eq!(core.retry(), None);
}

#[test]
fn an_acknowledgement_settles_what_it_covers() {
    let mut core = egress(3, 3);
    for payload in ["a", "b", "c"] {
        core.enqueue(payload);
    }
    core.claim(1);
    core.claim(1);
    core.fail(1, 0);
    let (change, ack) = core.ack(1, 1);
    assert_eq!(ack, EgressAck::Advanced { through: 1 });
    assert!(change.inflight && change.acked_through && change.retry && !change.pending);
    assert!(core.inflight().is_empty());
    assert_eq!(core.retry_now(1, 0).1, EgressRetryAction::UnknownSequence);
    assert_eq!(core.pending().len(), 1);
    assert_eq!(core.ack(1, 0).1, EgressAck::Unchanged { through: Some(1) });
}

#[test]
fn desires_are_judged_by_their_epoch() {
    let mut core = Durable::new(1);
    assert_eq!(
        core.upsert_desired("k", 5, "five").1,
        LatestDurableUpsert::Accepted
    );
    assert_eq!(
        core.upsert_desired("k", 5, "five").1,
        LatestDurableUpsert::Unchanged
    );
    assert_eq!(
        core.upsert_desired("k", 5, "other").1,
        LatestDurableUpsert::EpochConflict
    );
    assert_eq!(
        core.upsert_desired("k", 4, "four").1,
        LatestDurableUpsert::StaleEpoch { current: 5 }
    );
    core.claim(&"k", 1);
    core.ack_applied(&"k", 1, 5);
    let (change, outcome) = core.upsert_desired("k", 5, "five");
    assert_eq!(
        outcome,
        LatestDurableUpsert::AlreadyDurable { durable_through: 5 }
    );
    assert!(!change.state);
    assert_eq!(core.durable_through(&"k"), Some(5));
}

#[test]
fn sinks_of_another_generation_are_fenced() {
    let mut core = Durable::new(2);
    core.upsert_desired("k", 1, "one");
    assert_eq!(
        core.claim(&"k", 1).1,
        LatestDurableClaim::StaleGeneration { current: 2 }
    );
    assert_eq!(core.claim(&"other", 2).1, LatestDurableClaim::Empty);
    assert_eq!(
        core.fail_retryable(&"k", 2, 1).1,
        LatestDurableFailure::UnknownEpoch
    );
    core.claim(&"k", 2);
    assert_eq!(
        core.fail_retryable(&"k", 1, 1).1,
        LatestDurableFailure::StaleGeneration { current: 2 }
    );
    assert_eq!(
        core.fail_retryable(&"k", 2, 1).1,
        LatestDurableFailure::Pending
    );
    assert_eq!(core.pending_keys(), vec!["k"]);
    assert_eq!(
        core.reconnect(2).1,
        LatestDurableReconnect::Unchanged { generation: 2 }
    );
    assert_eq!(
        core.reconnect(1).1,
        LatestDurableReconnect::StaleGeneration { current: 2 }
    );
}

#[test]
fn a_reconnect_counts_what_it_gives_back() {
    let mut core = Durable::new(1);
    for key in ["a", "b", "c"] {
        core.upsert_desired(key, 1, "one");
    }
    core.claim(&"a", 1);
    core.claim(&"b", 1);
    core.upsert_desired("b", 2, "two");
    assert_eq!(
        core.reconnect(2).1,
        LatestDurableReconnect::Advanced {
            generation: 2,
            requeued: 1,
            superseded: 1
        }
    );
    assert_eq!(core.pending_keys(), vec!["a", "b", "c"]);
    match core.claim(&"b", 2).1 {
        LatestDurableClaim::Claimed(envelope) => assert_eq!(envelope.value, "two"),
        other => panic!("expected a claim, got {other:?}"),
    }
    assert_eq!(
        core.ack_applied(&"b", 1, 2).1,
        LatestDurableAck::StaleGeneration { current: 2 }
    );
}

fn boundary(max_buffered: usize) -> Boundary {
    BoundaryIngressCore::new(BoundaryIngressConfig {
        max_buffered,
        freshness_horizon: 10,
    })
}

fn frame(
    generation: u64,
    cursor: u64,
    payload: BoundaryIngressPayload<&'static str, u64>,
) -> BoundaryIngressEvent<&'static str, u64> {
    BoundaryIngressEvent {
        generation,
        cursor,
        stamped_at: cursor,
        payload,
    }
}

fn upsert(key: &'static str, value: u64) -> BoundaryIngressPayload<&'static str, u64> {
    BoundaryIngressPayload::Upsert(IngressEnvelope::new(key, 1, 0, 0, value))
}

fn snapshot(
    generation: u64,
    cursor: u64,
    keys: &[&'static str],
) -> BoundaryIngressSnapshot<&'static str, u64> {
    BoundaryIngressSnapshot {
        generation,
        cursor,
        stamped_at: cursor,
        entries: keys
            .iter()
            .map(|key| IngressEnvelope::new(*key, generation, 0, cursor, 0))
            .collect(),
        members: vec!["m".to_string()],
        validation: BoundaryValidation::Valid,
    }
}

#[test]
fn a_boundary_passes_through_its_phases() {
    let mut core = boundary(1);
    let detached = core.projection();
    assert_eq!(detached.phase, BoundaryIngressPhase::Detached);
    assert_eq!(detached.freshness, BoundaryFreshness::Unknown);
    assert_eq!(detached.readiness(), BoundaryIngressReadiness::Detached);
    assert!(detached.authority().is_none());

    assert!(core.subscribe(1).changed);
    assert_eq!(
        core.projection().readiness(),
        BoundaryIngressReadiness::Warming
    );
    assert!(!core.subscribe(0).changed);

    core.apply_snapshot(snapshot(1, 5, &["a"]));
    assert_eq!(
        core.projection().readiness(),
        BoundaryIngressReadiness::Ready
    );
    assert_eq!(
        core.projection().effect_intent(),
        BoundaryIngressEffectIntent::Idle
    );

    core.apply_event(frame(1, 7, upsert("b", 1)));
    assert_eq!(
        core.projection().readiness(),
        BoundaryIngressReadiness::ReplayRequired
    );
    assert_eq!(core.projection().buffered_cursors, vec![7]);

    core.apply_event(frame(1, 8, upsert("c", 1)));
    assert_eq!(
        core.projection().readiness(),
        BoundaryIngressReadiness::Backpressured
    );
    assert_eq!(core.projection().replay_from, Some(6));

    // The missing frame closes the gap up to what was buffered.
    let closed = core.apply_event(frame(
        1,
        6,
        BoundaryIngressPayload::Validate(BoundaryValidation::Invalid),
    ));
    assert_eq!(closed.actions.len(), 1);
    let after = core.projection();
    assert_eq!(after.cursor, Some(7));
    assert_eq!(after.readiness(), BoundaryIngressReadiness::Invalid);
    assert_eq!(after.source_keys, vec!["a", "b"]);
}

#[test]
fn a_snapshot_closes_what_is_gone_before_it_hands_over() {
    let mut core = boundary(4);
    core.apply_snapshot(snapshot(1, 5, &["c", "a", "b"]));
    let transition = core.apply_snapshot(snapshot(1, 9, &["b", "d"]));
    let steps: Vec<String> = transition
        .actions
        .iter()
        .map(|action| match action {
            BoundaryIngressAction::Admit(envelope) => format!("admit {}", envelope.key),
            BoundaryIngressAction::Close(key) => format!("close {key}"),
        })
        .collect();
    assert_eq!(steps, vec!["close a", "close c", "admit b", "admit d"]);
}

#[test]
fn frames_below_the_fence_are_counted_and_inert() {
    let mut core = boundary(4);
    core.apply_snapshot(snapshot(3, 5, &["a"]));
    let before = core.projection();
    assert!(core.apply_event(frame(2, 6, upsert("b", 1))).changed);
    assert!(core.apply_snapshot(snapshot(2, 9, &["b"])).changed);
    let after = core.projection();
    assert_eq!(after.stale_events, 2);
    assert_eq!(after.revision, before.revision + 2);
    assert_eq!(after.source_keys, before.source_keys);
    assert_eq!(after.cursor, before.cursor);
    // A frame that was applied already is no news.
    assert!(!core.apply_event(frame(3, 5, upsert("b", 1))).changed);
    assert_eq!(core.projection().revision, after.revision);
}

#[test]
fn a_newer_generation_starts_over() {
    let mut core = boundary(4);
    core.apply_snapshot(snapshot(1, 5, &["a"]));
    core.apply_event(frame(2, 0, upsert("b", 1)));
    let after = core.projection();
    assert_eq!((after.generation, after.cursor), (2, None));
    assert_eq!(after.phase, BoundaryIngressPhase::Bootstrapping);
    assert!(after.source_keys.is_empty() && after.members.is_empty());
    assert_eq!(after.buffered_cursors, vec![0]);
}

#[test]
fn topics_tell_how_a_subscriber_comes_back() {
    let mut core: TopicCore<u64, &'static str> = TopicCore::new();
    assert_eq!(
        core.subscribe("d", TopicDurability::Durable).0,
        TopicSubscribeOutcome::Created
    );
    assert_eq!(
        core.subscribe("d", TopicDurability::Durable).0,
        TopicSubscribeOutcome::AlreadyConnected
    );
    assert_eq!(core.disconnect(&"nobody"), None);
    assert!(core.disconnect(&"d").is_some());
    assert_eq!(core.publish(7).0, 0);
    assert!(core.read_suffix(&"d").is_empty());
    assert_eq!(
        core.subscribe("d", TopicDurability::Durable).0,
        TopicSubscribeOutcome::Reconnected
    );
    assert_eq!(core.read_suffix(&"d"), vec![7]);
    assert_eq!(core.advance(&"d"), Some(7));
    assert_eq!(core.advance(&"d"), None);
    assert_eq!(core.gc(), 1);
    assert_eq!(core.gc(), 0);
}

#[test]
fn returning_to_a_receipt_is_one_revision() {
    let mut core = boundary(4);
    assert!(core.open_delivery("r1".to_string()));
    assert!(core.open_delivery("r2".to_string()));
    assert_eq!(core.projection().revision, 2);
    assert!(core.open_delivery("r1".to_string()));
    let after = core.projection();
    assert_eq!(after.revision, 3);
    assert_eq!(after.active_delivery.unwrap().receipt_id, "r1");
    assert!(!core.open_delivery("r1".to_string()));
    assert_eq!(core.projection().revision, 3);
}

#[test]
fn frames_in_any_order_hand_out_the_same_actions() {
    let orders: [[usize; 4]; 4] = [[0, 1, 2, 3], [3, 2, 1, 0], [1, 3, 0, 2], [2, 0, 3, 1]];
    for order in orders {
        let mut core = boundary(3);
        core.apply_snapshot(snapshot(1, 5, &[]));
        let mut steps = Vec::new();
        for place in order {
            let payload = match place {
                0 => upsert("a", 1),
                1 => upsert("b", 2),
                2 => BoundaryIngressPayload::Remove("a"),
                _ => upsert("c", 3),
            };
            let transition = core.apply_event(frame(1, 6 + place as u64, payload));
            for action in transition.actions {
                steps.push(match action {
                    BoundaryIngressAction::Admit(envelope) => format!("admit {}", envelope.key),
                    BoundaryIngressAction::Close(key) => format!("close {key}"),
                });
            }
        }
        assert_eq!(
            steps,
            vec!["admit a", "admit b", "close a", "admit c"],
            "order {order:?}"
        );
        let after = core.projection();
        assert_eq!(after.cursor, Some(9));
        assert_eq!(after.phase, BoundaryIngressPhase::Live);
        assert!(after.buffered_cursors.is_empty() && after.replay_from.is_none());
    }
}

#[test]
fn a_reconnect_reports_records_that_only_changed_their_generation() {
    let mut core = egress(1, 3);
    core.enqueue("a");
    let (change, outcome) = core.reconnect(2);
    assert_eq!(
        outcome,
        EgressReconnect::Advanced {
            generation: 2,
            replayed: 0
        }
    );
    assert!(change.pending && !change.inflight);
    assert_eq!(core.pending()[0].generation, 2);
}

#[test]
fn a_parked_record_is_released_once_and_in_order() {
    let mut core = egress(2, 3);
    for payload in ["a", "b", "c"] {
        core.enqueue(payload);
    }
    core.claim(1);
    assert!(matches!(core.fail(1, 0).1, EgressFailure::Retrying(_)));
    core.enqueue("d");
    core.claim(1);
    core.reconnect(1);
    assert_eq!(
        core.retry_now(1, 0).1,
        EgressRetryAction::Scheduled { sequence: 0 }
    );
    let sequences: Vec<u64> = core.pending().iter().map(|record| record.sequence).collect();
    assert_eq!(sequences, vec![0, 2, 3]);
    assert_eq!(core.pending()[0].attempt, 1);
    assert_eq!(core.retry(), None);
    let (change, outcome) = core.retry_now(1, 0);
    assert_eq!(outcome, EgressRetryAction::UnknownSequence);
    assert!(change.is_empty());
}

#[test]
fn epochs_ascend_and_the_flag_says_what_changed() {
    let mut core = Durable::new(1);
    core.upsert_desired("k", 1, "one");
    core.claim(&"k", 1);
    core.ack_applied(&"k", 1, 1);
    core.upsert_desired("k", 2, "two");
    core.claim(&"k", 1);
    core.upsert_desired("k", 3, "three");
    let before = core.snapshot();
    let state = &before.keys[0].1;
    assert_eq!(state.durable_through, Some(1));
    assert_eq!(state.inflight.as_ref().map(|envelope| envelope.epoch), Some(2));
    assert_eq!(state.desired.as_ref().map(|revision| revision.epoch), Some(3));
    let (change, _) = core.ack_applied(&"k", 1, 3);
    assert!(!change.state);
    assert_eq!(core.snapshot(), before);
    let (change, _) = core.fail_retryable(&"k", 1, 2);
    assert!(change.state);
    assert_ne!(core.snapshot(), before);
}

#[test]
fn a_topic_without_lagging_readers_is_rebuilt_from_its_snapshot() {
    let mut core: TopicCore<u64, &'static str> = TopicCore::new();
    core.subscribe("durable", TopicDurability::Durable);
    core.subscribe("ephemeral", TopicDurability::Ephemeral);
    core.publish(10);
    core.publish(20);
    core.advance(&"durable");
    core.advance(&"ephemeral");
    assert_eq!(core.gc(), 1);
    let snapshot = core.snapshot();
    assert_eq!(snapshot.base_offset, 1);
    let mut again = TopicCore::from_snapshot(snapshot);
    assert_eq!(again.read_suffix(&"durable"), vec![20]);
    assert_eq!(again.advance(&"ephemeral"), Some(20));
}

#[test]
fn a_lagging_ephemeral_reader_loses_the_collected_prefix() {
    let mut core: TopicCore<u64, &'static str> = TopicCore::new();
    core.subscribe("durable", TopicDurability::Durable);
    core.subscribe("ephemeral", TopicDurability::Ephemeral);
    core.publish(10);
    core.publish(20);
    core.advance(&"durable");
    assert_eq!(core.gc(), 1);
    let record = core.subscription(&"ephemeral").expect("subscription");
    assert!(record.cursor < core.base_offset());
    assert_eq!(core.read_suffix(&"ephemeral"), vec![20]);
}

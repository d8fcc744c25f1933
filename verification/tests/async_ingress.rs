//! The asynchronous ingress cell.

use lazily::async_ingress::AsyncIngressCell;
use lazily::ingress_types::{
    InProcIngress, IngressAdmission, IngressAuthority, IngressDropReason, IngressEnvelope,
    IngressError, IngressPolicy, IngressReadiness, IngressReceiptOutcome, IngressTransportKind,
    ReplayRequest,
};
use lazily::merge::Sum;
use lazily::reactive::AsyncContext;

type Cell = AsyncIngressCell<&'static str, u64, Sum>;

fn cell(ctx: &mut AsyncContext, policy: IngressPolicy) -> Cell {
    AsyncIngressCell::new(ctx, policy, IngressTransportKind::EventChannel, 25).expect("policy")
}

fn env(
    key: &'static str,
    generation: u64,
    sequence: u64,
    stamped_at: u64,
    payload: u64,
) -> IngressEnvelope<&'static str, u64> {
    IngressEnvelope::new(key, generation, sequence, stamped_at, payload)
}

#[test]
fn readers_return_plain_values_with_no_settle_step() {
    // The whole point of the async shell's shape: nothing here is
    // async-coloured, so a value is observable without driving the graph.
    let mut ctx = AsyncContext::new();
    let mut ingress = cell(&mut ctx, IngressPolicy::default());
    assert_eq!(ingress.value(&mut ctx, &"a"), None);
    ingress.admit_envelope(&mut ctx, env("a", 1, 0, 0, 5));
    assert_eq!(ingress.value(&mut ctx, &"a"), Some(5));
    ingress.admit_envelope(&mut ctx, env("a", 1, 1, 0, 7));
    assert_eq!(ingress.value(&mut ctx, &"a"), Some(12));
    assert_eq!(ingress.drain(&mut ctx, &"a"), Some(12));
    assert_eq!(ingress.value(&mut ctx, &"a"), None);
}

#[test]
fn async_ingress_readiness_authority_and_retry_are_derives() {
    let mut ctx = AsyncContext::new();
    let mut ingress = cell(
        &mut ctx,
        IngressPolicy {
            freshness_horizon: 10,
            retry_base: 4,
            ..IngressPolicy::default()
        },
    );
    assert_eq!(ingress.readiness(&mut ctx, &"a"), IngressReadiness::Unknown);
    ingress.open(&mut ctx, "a", 3);
    assert_eq!(ingress.readiness(&mut ctx, &"a"), IngressReadiness::Warming);
    ingress.admit_envelope(&mut ctx, env("a", 3, 0, 5, 1));
    assert_eq!(ingress.readiness(&mut ctx, &"a"), IngressReadiness::Ready);
    assert_eq!(
        ingress.authority(&mut ctx, &"a"),
        Some(IngressAuthority {
            generation: 3,
            delivered_through: Some(0),
            stamped_at: 5
        })
    );
    ingress.tick(&mut ctx, 100);
    assert_eq!(ingress.readiness(&mut ctx, &"a"), IngressReadiness::Stale);
    ingress.fail(&mut ctx, &"a", IngressError::TransportClosed);
    assert_eq!(ingress.retry(&mut ctx, &"a").expect("retry").backoff, 4);
}

#[test]
fn reorder_duplication_and_fencing_match_the_other_flavors() {
    let mut ctx = AsyncContext::new();
    let mut ingress = cell(&mut ctx, IngressPolicy::default());
    assert_eq!(
        ingress.admit_envelope(&mut ctx, env("a", 1, 2, 0, 4)),
        IngressAdmission::Buffered { gap_from: 0 }
    );
    assert_eq!(
        ingress.admit_envelope(&mut ctx, env("a", 1, 2, 0, 4)),
        IngressAdmission::Dropped(IngressDropReason::DuplicateBuffered)
    );
    ingress.admit_envelope(&mut ctx, env("a", 1, 1, 0, 2));
    assert_eq!(
        ingress.admit_envelope(&mut ctx, env("a", 1, 0, 0, 1)),
        IngressAdmission::Conflated {
            delivered_through: 2
        }
    );
    assert_eq!(ingress.value(&mut ctx, &"a"), Some(7));
    assert_eq!(
        ingress.admit_envelope(&mut ctx, env("a", 1, 0, 0, 1)),
        IngressAdmission::Dropped(IngressDropReason::DuplicateSequence)
    );
}

#[test]
fn a_generation_handoff_resets_the_baseline() {
    let mut ctx = AsyncContext::new();
    let mut ingress = cell(&mut ctx, IngressPolicy::default());
    ingress.admit_envelope(&mut ctx, env("a", 1, 0, 0, 5));
    assert_eq!(
        ingress.admit_envelope(&mut ctx, env("a", 2, 0, 0, 9)),
        IngressAdmission::GenerationHandoff { from: 1, to: 2 }
    );
    assert_eq!(ingress.value(&mut ctx, &"a"), Some(9));
    assert_eq!(
        ingress.authority(&mut ctx, &"a").expect("authority").generation,
        2
    );
}

#[test]
fn async_ingress_receipt_channels_are_independent_readers() {
    let mut ctx = AsyncContext::new();
    let mut ingress = cell(&mut ctx, IngressPolicy::default());
    ingress.admit_envelope(&mut ctx, env("a", 2, 0, 0, 1));
    ingress.admit_envelope(&mut ctx, env("a", 1, 0, 0, 1));
    ingress.fail(&mut ctx, &"a", IngressError::DecodeFailed);
    assert_eq!(ingress.accepted(&mut ctx).len(), 1);
    let dropped = ingress.dropped(&mut ctx);
    assert_eq!(dropped.len(), 1);
    assert_eq!(
        dropped[0].outcome,
        IngressReceiptOutcome::Dropped(IngressDropReason::StaleGeneration)
    );
    assert_eq!(ingress.errors(&mut ctx).len(), 1);
}

#[test]
fn async_ingress_the_schedule_derives_from_the_transport_and_retunes_live() {
    let mut ctx = AsyncContext::new();
    let mut ingress = cell(&mut ctx, IngressPolicy::default());
    assert_eq!(ingress.schedule(&mut ctx).poll_interval, None);
    ingress.set_transport(&mut ctx, IngressTransportKind::BoundedPolling);
    assert_eq!(ingress.schedule(&mut ctx).poll_interval, Some(25));
    ingress.set_poll_interval(&mut ctx, 200);
    assert_eq!(ingress.schedule(&mut ctx).poll_interval, Some(200));
    ingress.set_transport(&mut ctx, IngressTransportKind::EventChannel);
    assert_eq!(ingress.schedule(&mut ctx).poll_interval, None);
}

#[test]
fn async_ingress_pump_admits_a_batch_and_requests_replay_for_a_surviving_gap() {
    let mut ctx = AsyncContext::new();
    let mut ingress = cell(&mut ctx, IngressPolicy::default());
    let mut transport = InProcIngress::new(IngressTransportKind::EventChannel);
    transport.push(env("a", 1, 0, 0, 1));
    transport.push(env("a", 1, 2, 0, 4));
    let outcomes = ingress.pump(&mut ctx, &mut transport);
    assert!(outcomes[0].is_delivered());
    assert_eq!(outcomes[1], IngressAdmission::Buffered { gap_from: 1 });
    assert_eq!(
        transport.replays(),
        &[(
            "a",
            ReplayRequest {
                generation: 1,
                from_sequence: 1
            }
        )]
    );
}

#[test]
fn suspend_and_reconnect_report_the_gap() {
    let mut ctx = AsyncContext::new();
    let mut ingress = cell(&mut ctx, IngressPolicy::default());
    ingress.admit_envelope(&mut ctx, env("a", 1, 0, 0, 1));
    ingress.admit_envelope(&mut ctx, env("a", 1, 1, 0, 1));
    assert_eq!(
        ingress.suspend(&mut ctx, &"a"),
        Some(ReplayRequest {
            generation: 1,
            from_sequence: 2
        })
    );
    assert_eq!(ingress.readiness(&mut ctx, &"a"), IngressReadiness::Suspended);
    assert_eq!(ingress.reconnect(&mut ctx, &"a", 1).from_sequence, 2);
    assert_eq!(ingress.readiness(&mut ctx, &"a"), IngressReadiness::Ready);
}

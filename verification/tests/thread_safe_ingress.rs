//! The ingress cell that threads share.

use lazily::ingress_types::{
    InProcIngress, IngressAdmission, IngressAuthority, IngressDropReason, IngressEnvelope,
    IngressError, IngressPolicy, IngressReadiness, IngressReceiptOutcome, IngressTransportKind,
    ReplayRequest,
};
use lazily::merge::Sum;
use lazily::reactive::{Effect, ThreadSafeContext};
use lazily::thread_safe_ingress::ThreadSafeIngressCell;

type Cell = ThreadSafeIngressCell<&'static str, u64, Sum>;

fn cell(ctx: &mut ThreadSafeContext, policy: IngressPolicy) -> Cell {
    ThreadSafeIngressCell::new(ctx, policy, IngressTransportKind::EventChannel, 25)
        .expect("policy")
}

fn env(
    key: &'static str,
    generation: u64,
    sequence: u64,
    stamped_at: u64,
    payload: u64,
) -> IngressEnvelope<&'static str, u64> {
    IngressEnvelope::new(key, generation, sequence, stamped_at, payload)
}

#[test]
fn thread_safe_ingress_delivery_is_visible_through_the_value_reader() {
    let mut ctx = ThreadSafeContext::new();
    let mut ingress = cell(&mut ctx, IngressPolicy::default());
    assert_eq!(ingress.value(&mut ctx, &"a"), None);
    ingress.admit_envelope(&mut ctx, env("a", 1, 0, 0, 5));
    assert_eq!(ingress.value(&mut ctx, &"a"), Some(5));
    ingress.admit_envelope(&mut ctx, env("a", 1, 1, 0, 7));
    assert_eq!(ingress.value(&mut ctx, &"a"), Some(12));
    assert_eq!(ingress.drain(&mut ctx, &"a"), Some(12));
    assert_eq!(ingress.value(&mut ctx, &"a"), None);
}

#[test]
fn thread_safe_ingress_readiness_authority_and_retry_are_derives() {
    let mut ctx = ThreadSafeContext::new();
    let mut ingress = cell(
        &mut ctx,
        IngressPolicy {
            freshness_horizon: 10,
            retry_base: 4,
            ..IngressPolicy::default()
        },
    );
    assert_eq!(ingress.readiness(&mut ctx, &"a"), IngressReadiness::Unknown);
    ingress.open(&mut ctx, "a", 3);
    assert_eq!(ingress.readiness(&mut ctx, &"a"), IngressReadiness::Warming);
    ingress.admit_envelope(&mut ctx, env("a", 3, 0, 5, 1));
    assert_eq!(ingress.readiness(&mut ctx, &"a"), IngressReadiness::Ready);
    assert_eq!(
        ingress.authority(&mut ctx, &"a"),
        Some(IngressAuthority {
            generation: 3,
            delivered_through: Some(0),
            stamped_at: 5
        })
    );
    ingress.tick(&mut ctx, 100);
    assert_eq!(ingress.readiness(&mut ctx, &"a"), IngressReadiness::Stale);

    ingress.fail(&mut ctx, &"a", IngressError::TransportClosed);
    assert_eq!(ingress.retry(&mut ctx, &"a").expect("retry").backoff, 4);
}

#[test]
fn a_generation_handoff_lands_value_and_authority_in_one_frontier_walk() {
    let mut ctx = ThreadSafeContext::new();
    let mut ingress = cell(&mut ctx, IngressPolicy::default());
    ingress.admit_envelope(&mut ctx, env("a", 1, 0, 0, 5));

    let value = ingress.value_handle(&mut ctx, &"a");
    let authority = ingress.authority_handle(&mut ctx, &"a");
    let mut runs = 0usize;
    let mut seen = Vec::new();
    let effect = Effect::new(&mut ctx, vec![value.id(), authority.id()]);
    while effect.take_due(&mut ctx) {
        runs += 1;
        let v = ingress.value(&mut ctx, &"a");
        let a = ingress.authority(&mut ctx, &"a").map(|a| a.generation);
        seen.push((v, a));
    }
    assert_eq!(runs, 1);

    ingress.admit_envelope(&mut ctx, env("a", 2, 0, 0, 9));
    while effect.take_due(&mut ctx) {
        runs += 1;
        let v = ingress.value(&mut ctx, &"a");
        let a = ingress.authority(&mut ctx, &"a").map(|a| a.generation);
        seen.push((v, a));
    }
    assert_eq!(
        runs, 2,
        "one admission is one effect run, not one per reader kind"
    );
    assert_eq!(seen, vec![(Some(5), Some(1)), (Some(9), Some(2))]);
}

#[test]
fn a_buffered_envelope_and_an_in_horizon_tick_invalidate_nothing() {
    let mut ctx = ThreadSafeContext::new();
    let mut ingress = cell(
        &mut ctx,
        IngressPolicy {
            freshness_horizon: 100,
            ..IngressPolicy::default()
        },
    );
    ingress.admit_envelope(&mut ctx, env("a", 1, 0, 0, 1));

    let value = ingress.value_handle(&mut ctx, &"a");
    let readiness = ingress.readiness_handle(&mut ctx, &"a");
    let mut runs = 0usize;
    let effect = Effect::new(&mut ctx, vec![value.id(), readiness.id()]);
    if effect.take_due(&mut ctx) {
        runs += 1;
        let _ = ingress.value(&mut ctx, &"a");
        let _ = ingress.readiness(&mut ctx, &"a");
    }
    assert_eq!(runs, 1);

    ingress.admit_envelope(&mut ctx, env("a", 1, 3, 0, 8));
    ingress.tick(&mut ctx, 50);
    if effect.take_due(&mut ctx) {
        runs += 1;
    }
    assert_eq!(runs, 1);

    ingress.tick(&mut ctx, 500);
    if effect.take_due(&mut ctx) {
        runs += 1;
    }
    assert_eq!(runs, 2, "the horizon crossing shows");
}

#[test]
fn thread_safe_ingress_receipt_channels_are_independent_readers() {
    let mut ctx = ThreadSafeContext::new();
    let mut ingress = cell(&mut ctx, IngressPolicy::default());
    ingress.admit_envelope(&mut ctx, env("a", 2, 0, 0, 1));
    ingress.admit_envelope(&mut ctx, env("a", 1, 0, 0, 1));
    ingress.fail(&mut ctx, &"a", IngressError::DecodeFailed);
    assert_eq!(ingress.accepted(&mut ctx).len(), 1);
    let dropped = ingress.dropped(&mut ctx);
    assert_eq!(dropped.len(), 1);
    assert_eq!(
        dropped[0].outcome,
        IngressReceiptOutcome::Dropped(IngressDropReason::StaleGeneration)
    );
    assert_eq!(ingress.errors(&mut ctx).len(), 1);
}

#[test]
fn thread_safe_ingress_the_schedule_derives_from_the_transport_and_retunes_live() {
    let mut ctx = ThreadSafeContext::new();
    let mut ingress = cell(&mut ctx, IngressPolicy::default());
    assert_eq!(ingress.schedule(&mut ctx).poll_interval, None);
    ingress.set_transport(&mut ctx, IngressTransportKind::BoundedPolling);
    assert_eq!(ingress.schedule(&mut ctx).poll_interval, Some(25));
    ingress.set_poll_interval(&mut ctx, 200);
    assert_eq!(ingress.schedule(&mut ctx).poll_interval, Some(200));
}

#[test]
fn thread_safe_ingress_pump_admits_a_batch_and_requests_replay_for_a_surviving_gap() {
    let mut ctx = ThreadSafeContext::new();
    let mut ingress = cell(&mut ctx, IngressPolicy::default());
    let mut transport = InProcIngress::new(IngressTransportKind::EventChannel);
    transport.push(env("a", 1, 0, 0, 1));
    transport.push(env("a", 1, 2, 0, 4));
    let outcomes = ingress.pump(&mut ctx, &mut transport);
    assert!(outcomes[0].is_delivered());
    assert_eq!(outcomes[1], IngressAdmission::Buffered { gap_from: 1 });
    assert_eq!(
        transport.replays(),
        &[(
            "a",
            ReplayRequest {
                generation: 1,
                from_sequence: 1
            }
        )]
    );
}

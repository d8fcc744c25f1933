//! The single-threaded ingress cell.

use lazily::ingress::IngressCell;
use lazily::ingress_types::{
    InProcIngress, IngressAdmission, IngressAuthority, IngressDropReason, IngressEnvelope,
    IngressError, IngressPolicy, IngressReadiness, IngressReceiptOutcome, IngressTransportKind,
    ReplayRequest,
};
use lazily::merge::Sum;
use lazily::reactive::{Context, Effect};

type Cell = IngressCell<&'static str, u64, Sum>;

fn cell(ctx: &mut Context, policy: IngressPolicy) -> Cell {
    IngressCell::new(ctx, policy, IngressTransportKind::EventChannel, 25).expect("policy")
}

fn env(
    key: &'static str,
    generation: u64,
    sequence: u64,
    stamped_at: u64,
    payload: u64,
) -> IngressEnvelope<&'static str, u64> {
    IngressEnvelope::new(key, generation, sequence, stamped_at, payload)
}

#[test]
fn ingress_delivery_is_visible_through_the_value_reader() {
    let mut ctx = Context::new();
    let mut ingress = cell(&mut ctx, IngressPolicy::default());
    assert_eq!(ingress.value(&mut ctx, &"a"), None);
    ingress.admit_envelope(&mut ctx, env("a", 1, 0, 0, 5));
    assert_eq!(ingress.value(&mut ctx, &"a"), Some(5));
    ingress.admit_envelope(&mut ctx, env("a", 1, 1, 0, 7));
    assert_eq!(ingress.value(&mut ctx, &"a"), Some(12));
    assert_eq!(ingress.drain(&mut ctx, &"a"), Some(12));
    assert_eq!(ingress.value(&mut ctx, &"a"), None);
}

#[test]
fn readiness_and_authority_are_derives_of_the_same_transitions() {
    let mut ctx = Context::new();
    let mut ingress = cell(
        &mut ctx,
        IngressPolicy {
            freshness_horizon: 10,
            ..IngressPolicy::default()
        },
    );
    assert_eq!(ingress.readiness(&mut ctx, &"a"), IngressReadiness::Unknown);
    assert_eq!(ingress.authority(&mut ctx, &"a"), None);

    ingress.open(&mut ctx, "a", 4);
    assert_eq!(ingress.readiness(&mut ctx, &"a"), IngressReadiness::Warming);
    assert_eq!(
        ingress.authority(&mut ctx, &"a"),
        Some(IngressAuthority {
            generation: 4,
            delivered_through: None,
            stamped_at: 0
        })
    );

    ingress.admit_envelope(&mut ctx, env("a", 4, 0, 5, 1));
    assert_eq!(ingress.readiness(&mut ctx, &"a"), IngressReadiness::Ready);
    assert_eq!(
        ingress.authority(&mut ctx, &"a"),
        Some(IngressAuthority {
            generation: 4,
            delivered_through: Some(0),
            stamped_at: 5
        })
    );

    ingress.tick(&mut ctx, 100);
    assert_eq!(ingress.readiness(&mut ctx, &"a"), IngressReadiness::Stale);
}

#[test]
fn a_buffered_envelope_reruns_no_effect() {
    let mut ctx = Context::new();
    let mut ingress = cell(&mut ctx, IngressPolicy::default());
    ingress.open(&mut ctx, "a", 1);

    let value = ingress.value_handle(&mut ctx, &"a");
    let mut runs = 0usize;
    let mut observed = Vec::new();
    let effect = Effect::new(&mut ctx, vec![value.id()]);
    if effect.take_due(&mut ctx) {
        runs += 1;
        observed.push(ingress.value(&mut ctx, &"a"));
    }
    assert_eq!(runs, 1);

    // Out of order: nothing observable moved, so the value effect must not run.
    ingress.admit_envelope(&mut ctx, env("a", 1, 2, 0, 4));
    assert!(!effect.take_due(&mut ctx));
    ingress.admit_envelope(&mut ctx, env("a", 1, 1, 0, 2));
    assert!(!effect.take_due(&mut ctx));
    assert_eq!(runs, 1);

    // The delivery that closes the gap flushes all three as ONE value change.
    ingress.admit_envelope(&mut ctx, env("a", 1, 0, 0, 1));
    if effect.take_due(&mut ctx) {
        runs += 1;
        observed.push(ingress.value(&mut ctx, &"a"));
    }
    assert_eq!(runs, 2);
    assert_eq!(observed, vec![None, Some(7)]);
    assert!(!effect.take_due(&mut ctx));
}

#[test]
fn a_tick_inside_the_horizon_reruns_no_readiness_effect() {
    let mut ctx = Context::new();
    let mut ingress = cell(
        &mut ctx,
        IngressPolicy {
            freshness_horizon: 100,
            ..IngressPolicy::default()
        },
    );
    ingress.admit_envelope(&mut ctx, env("a", 1, 0, 0, 1));

    let readiness = ingress.readiness_handle(&mut ctx, &"a");
    let mut runs = 0usize;
    let effect = Effect::new(&mut ctx, vec![readiness.id()]);
    if effect.take_due(&mut ctx) {
        runs += 1;
        let _ = ingress.readiness(&mut ctx, &"a");
    }
    assert_eq!(runs, 1);

    ingress.tick(&mut ctx, 50);
    if effect.take_due(&mut ctx) {
        runs += 1;
    }
    assert_eq!(runs, 1, "tick inside the horizon is not a change");
    ingress.tick(&mut ctx, 500);
    if effect.take_due(&mut ctx) {
        runs += 1;
    }
    assert_eq!(runs, 2, "crossing the horizon is a change");
}

#[test]
fn an_error_moves_retry_without_touching_the_value() {
    let mut ctx = Context::new();
    let mut ingress = cell(&mut ctx, IngressPolicy::default());
    ingress.admit_envelope(&mut ctx, env("a", 1, 0, 0, 9));

    let value = ingress.value_handle(&mut ctx, &"a");
    let mut value_runs = 0usize;
    let value_effect = Effect::new(&mut ctx, vec![value.id()]);
    if value_effect.take_due(&mut ctx) {
        value_runs += 1;
        let _ = ingress.value(&mut ctx, &"a");
    }
    ingress.fail(&mut ctx, &"a", IngressError::TransportClosed);
    if value_effect.take_due(&mut ctx) {
        value_runs += 1;
    }
    assert_eq!(value_runs, 1);
    assert_eq!(ingress.retry(&mut ctx, &"a").expect("retry").attempt, 1);
    assert_eq!(ingress.value(&mut ctx, &"a"), Some(9));
}

#[test]
fn ingress_receipt_channels_are_independent_readers() {
    let mut ctx = Context::new();
    let mut ingress = cell(&mut ctx, IngressPolicy::default());
    ingress.admit_envelope(&mut ctx, env("a", 2, 0, 0, 1));
    assert_eq!(ingress.accepted(&mut ctx).len(), 1);
    assert!(ingress.dropped(&mut ctx).is_empty());
    assert!(ingress.errors(&mut ctx).is_empty());

    // A fenced zombie shows up only on the dropped channel.
    ingress.admit_envelope(&mut ctx, env("a", 1, 0, 0, 1));
    assert_eq!(ingress.accepted(&mut ctx).len(), 1);
    let dropped = ingress.dropped(&mut ctx);
    assert_eq!(dropped.len(), 1);
    assert_eq!(
        dropped[0].outcome,
        IngressReceiptOutcome::Dropped(IngressDropReason::StaleGeneration)
    );

    ingress.fail(&mut ctx, &"a", IngressError::DecodeFailed);
    assert_eq!(ingress.errors(&mut ctx).len(), 1);
    assert_eq!(ingress.dropped(&mut ctx).len(), 1);
}

#[test]
fn ingress_the_schedule_derives_from_the_transport_and_retunes_live() {
    let mut ctx = Context::new();
    let mut ingress = cell(&mut ctx, IngressPolicy::default());
    assert_eq!(ingress.schedule(&mut ctx).poll_interval, None);

    ingress.set_transport(&mut ctx, IngressTransportKind::BoundedPolling);
    assert_eq!(ingress.schedule(&mut ctx).poll_interval, Some(25));
    ingress.set_poll_interval(&mut ctx, 200);
    assert_eq!(ingress.schedule(&mut ctx).poll_interval, Some(200));

    ingress.set_transport(&mut ctx, IngressTransportKind::RpcTriggered);
    assert_eq!(ingress.schedule(&mut ctx).poll_interval, None);
}

#[test]
fn ingress_pump_admits_a_batch_and_requests_replay_for_a_surviving_gap() {
    let mut ctx = Context::new();
    let mut ingress = cell(&mut ctx, IngressPolicy::default());
    let mut transport = InProcIngress::new(IngressTransportKind::EventChannel);
    transport.push(env("a", 1, 0, 0, 1));
    transport.push(env("a", 1, 2, 0, 4));

    let outcomes = ingress.pump(&mut ctx, &mut transport);
    assert_eq!(outcomes.len(), 2);
    assert!(outcomes[0].is_delivered());
    assert_eq!(outcomes[1], IngressAdmission::Buffered { gap_from: 1 });
    assert_eq!(
        transport.replays(),
        &[(
            "a",
            ReplayRequest {
                generation: 1,
                from_sequence: 1
            }
        )]
    );

    // The replay closes the gap, and a second pump asks for nothing more.
    transport.push(env("a", 1, 1, 0, 2));
    ingress.pump(&mut ctx, &mut transport);
    assert_eq!(ingress.value(&mut ctx, &"a"), Some(7));
    assert_eq!(transport.replays().len(), 1);
}

#[test]
fn a_polling_transport_cannot_serve_a_replay() {
    let mut ctx = Context::new();
    let mut ingress = cell(&mut ctx, IngressPolicy::default());
    let mut transport = InProcIngress::new(IngressTransportKind::BoundedPolling);
    transport.push(env("a", 1, 3, 0, 1));
    ingress.pump(&mut ctx, &mut transport);
    assert!(transport.replays().is_empty());
}

#[test]
fn a_generation_handoff_never_shows_a_new_value_with_stale_authority() {
    let mut ctx = Context::new();
    let mut ingress = cell(&mut ctx, IngressPolicy::default());
    ingress.admit_envelope(&mut ctx, env("a", 1, 0, 0, 5));

    let value_handle = ingress.value_handle(&mut ctx, &"a");
    let authority_handle = ingress.authority_handle(&mut ctx, &"a");
    let mut seen = Vec::new();
    let effect = Effect::new(&mut ctx, vec![value_handle.id(), authority_handle.id()]);
    if effect.take_due(&mut ctx) {
        let value = ingress.value(&mut ctx, &"a");
        let authority = ingress.authority(&mut ctx, &"a");
        seen.push((value, authority.map(|a| a.generation)));
    }
    ingress.admit_envelope(&mut ctx, env("a", 2, 0, 0, 9));
    while effect.take_due(&mut ctx) {
        let value = ingress.value(&mut ctx, &"a");
        let authority = ingress.authority(&mut ctx, &"a");
        seen.push((value, authority.map(|a| a.generation)));
    }
    // Value and authority land together — one frontier walk, one effect run.
    assert_eq!(seen, vec![(Some(5), Some(1)), (Some(9), Some(2))]);
}

#[test]
fn scopes_do_not_invalidate_each_other() {
    let mut ctx = Context::new();
    let mut ingress = cell(&mut ctx, IngressPolicy::default());
    ingress.admit_envelope(&mut ctx, env("a", 1, 0, 0, 1));

    let value = ingress.value_handle(&mut ctx, &"a");
    let mut runs = 0usize;
    let effect = Effect::new(&mut ctx, vec![value.id()]);
    if effect.take_due(&mut ctx) {
        runs += 1;
        let _ = ingress.value(&mut ctx, &"a");
    }
    assert_eq!(runs, 1);
    ingress.admit_envelope(&mut ctx, env("b", 1, 0, 0, 2));
    if effect.take_due(&mut ctx) {
        runs += 1;
    }
    ingress.close(&mut ctx, &"b");
    if effect.take_due(&mut ctx) {
        runs += 1;
    }
    assert_eq!(runs, 1);
    assert_eq!(ingress.value(&mut ctx, &"a"), Some(1));
}

#[test]
fn suspend_and_reconnect_move_readiness_and_report_the_gap() {
    let mut ctx = Context::new();
    let mut ingress = cell(&mut ctx, IngressPolicy::default());
    ingress.admit_envelope(&mut ctx, env("a", 1, 0, 0, 1));
    ingress.admit_envelope(&mut ctx, env("a", 1, 1, 0, 1));

    let request = ingress.suspend(&mut ctx, &"a").expect("request");
    assert_eq!(
        request,
        ReplayRequest {
            generation: 1,
            from_sequence: 2
        }
    );
    assert_eq!(ingress.readiness(&mut ctx, &"a"), IngressReadiness::Suspended);
    assert_eq!(ingress.value(&mut ctx, &"a"), Some(2));

    let request = ingress.reconnect(&mut ctx, &"a", 1);
    assert_eq!(request.from_sequence, 2);
    assert_eq!(ingress.readiness(&mut ctx, &"a"), IngressReadiness::Ready);
}

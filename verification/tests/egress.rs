//! The single-threaded egress cell.

use lazily::egress::EgressCell;
use lazily::egress_core::{EgressAck, EgressEnvelope, EgressPolicy, EgressRetryAction};
use lazily::egress_shell::EgressTransport;
use lazily::reactive::{Context, Effect, ReactiveGraph};

#[derive(Default)]
struct Transport {
    sent: Vec<u64>,
    fail_next: bool,
}

impl EgressTransport<i32> for Transport {
    fn send(&mut self, envelope: &EgressEnvelope<i32>) -> bool {
        if self.fail_next {
            self.fail_next = false;
            return false;
        }
        self.sent.push(envelope.sequence);
        true
    }
}

#[test]
fn one_effect_projects_pending_to_transport_and_inflight() {
    let mut ctx = Context::new();
    let mut egress = EgressCell::new(&mut ctx, 1, EgressPolicy::default()).unwrap();
    let _effect = egress.attach_transport(&mut ctx, Transport::default());
    egress.enqueue(&mut ctx, 10);
    egress.enqueue(&mut ctx, 20);
    assert_eq!(egress.transport(0).sent, vec![0, 1]);
    assert!(egress.pending(&mut ctx).is_empty());
    assert_eq!(egress.inflight(&mut ctx).len(), 2);
}

#[test]
fn reconnect_makes_old_attachment_inert() {
    let mut ctx = Context::new();
    let mut egress = EgressCell::new(&mut ctx, 3, EgressPolicy::default()).unwrap();
    let _old_effect = egress.attach_transport(&mut ctx, Transport::default());
    egress.enqueue(&mut ctx, 10);
    egress.reconnect(&mut ctx, 4);
    egress.enqueue(&mut ctx, 20);
    assert_eq!(egress.transport(0).sent, vec![0]);
    let _fresh_effect = egress.attach_transport(&mut ctx, Transport::default());
    assert_eq!(egress.transport(1).sent, vec![0, 1]);
}

#[test]
fn ack_reopens_the_window_without_a_request_ack_handshake() {
    let mut ctx = Context::new();
    let policy = EgressPolicy {
        inflight_limit: 1,
        ..EgressPolicy::default()
    };
    let mut egress = EgressCell::new(&mut ctx, 1, policy).unwrap();
    let _effect = egress.attach_transport(&mut ctx, Transport::default());
    egress.enqueue(&mut ctx, 10);
    egress.enqueue(&mut ctx, 20);
    assert_eq!(egress.transport(0).sent, vec![0]);
    assert_eq!(egress.pending(&mut ctx).len(), 1);

    assert_eq!(egress.ack(&mut ctx, 1, 0), EgressAck::Advanced { through: 0 });
    assert_eq!(egress.transport(0).sent, vec![0, 1]);
    assert!(egress.pending(&mut ctx).is_empty());
}

#[test]
fn reader_kinds_invalidate_independently() {
    let mut ctx = Context::new();
    let mut egress: EgressCell<i32, Transport> =
        EgressCell::new(&mut ctx, 1, EgressPolicy::default()).unwrap();
    let mut pending_runs = 0;
    let mut ack_runs = 0;
    let pending_effect = Effect::new(&mut ctx, vec![egress.pending_handle().id()]);
    let ack_effect = Effect::new(&mut ctx, vec![egress.acked_through_handle().id()]);
    if pending_effect.take_due(&mut ctx) {
        egress.pending(&mut ctx);
        pending_runs += 1;
    }
    if ack_effect.take_due(&mut ctx) {
        egress.acked_through(&mut ctx);
        ack_runs += 1;
    }
    egress.enqueue(&mut ctx, 1);
    if pending_effect.take_due(&mut ctx) {
        pending_runs += 1;
    }
    if ack_effect.take_due(&mut ctx) {
        ack_runs += 1;
    }
    assert_eq!(pending_runs, 2);
    assert_eq!(ack_runs, 1);
}

#[test]
fn a_refused_send_is_retried_after_its_backoff() {
    let mut ctx = Context::new();
    let mut egress = EgressCell::new(&mut ctx, 1, EgressPolicy::default()).unwrap();
    let transport = Transport {
        sent: Vec::new(),
        fail_next: true,
    };
    let _effect = egress.attach_transport(&mut ctx, transport);
    egress.enqueue(&mut ctx, 10);
    assert!(egress.transport(0).sent.is_empty());
    let retry = egress.retry(&mut ctx).expect("retry");
    assert_eq!((retry.sequence, retry.attempt), (0, 1));
    assert_eq!(
        egress.retry_now(&mut ctx, 1, 0),
        EgressRetryAction::Scheduled { sequence: 0 }
    );
    assert_eq!(egress.transport(0).sent, vec![0]);
    assert_eq!(egress.retry(&mut ctx), None);
}

#[test]
fn an_attachment_sends_what_was_pending_before_it() {
    let mut ctx = Context::new();
    let mut egress = EgressCell::new(&mut ctx, 1, EgressPolicy::default()).unwrap();
    egress.enqueue(&mut ctx, 5);
    egress.enqueue(&mut ctx, 6);
    let effect = egress.attach_transport(&mut ctx, Transport::default());
    assert_eq!(effect.generation, 1);
    assert_eq!(egress.transport(0).sent, vec![0, 1]);
    assert!(!effect.effect.take_due(&mut ctx));
}

#[test]
fn a_batch_holds_every_send_back() {
    let mut ctx = Context::new();
    let mut egress = EgressCell::new(&mut ctx, 1, EgressPolicy::default()).unwrap();
    let _effect = egress.attach_transport(&mut ctx, Transport::default());
    ctx.begin_batch();
    egress.enqueue(&mut ctx, 5);
    egress.enqueue(&mut ctx, 6);
    assert!(egress.transport(0).sent.is_empty());
    ctx.finish_batch();
    egress.run_due(&mut ctx);
    assert_eq!(egress.transport(0).sent, vec![0, 1]);
}

#[test]
fn the_pending_reader_follows_a_fence() {
    let mut ctx = Context::new();
    let mut egress: EgressCell<i32, Transport> = EgressCell::new(&mut ctx, 1, EgressPolicy::default()).unwrap();
    egress.enqueue(&mut ctx, 10);
    assert_eq!(egress.pending(&mut ctx)[0].generation, 1);
    egress.reconnect(&mut ctx, 2);
    assert_eq!(egress.pending(&mut ctx)[0].generation, 2);
}

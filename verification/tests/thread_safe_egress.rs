//! The egress cell that threads share.

use lazily::egress_core::{EgressEnvelope, EgressPolicy};
use lazily::egress_shell::EgressTransport;
use lazily::reactive::ThreadSafeContext;
use lazily::thread_safe_egress::ThreadSafeEgressCell;

struct Transport(Vec<u64>);

impl EgressTransport<i32> for Transport {
    fn send(&mut self, envelope: &EgressEnvelope<i32>) -> bool {
        self.0.push(envelope.sequence);
        true
    }
}

#[test]
fn attachment_drives_the_shared_projection() {
    let mut ctx = ThreadSafeContext::new();
    let mut egress = ThreadSafeEgressCell::new(&mut ctx, 1, EgressPolicy::default()).unwrap();
    let _effect = egress.attach_transport(&mut ctx, Transport(Vec::new()));
    egress.enqueue(&mut ctx, 7);
    assert_eq!(egress.transport(0).0, vec![0]);
    assert_eq!(egress.inflight(&mut ctx).len(), 1);
}

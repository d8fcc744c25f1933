//! The asynchronous egress cell.

use lazily::async_egress::AsyncEgressCell;
use lazily::egress_core::{EgressEnvelope, EgressPolicy};
use lazily::egress_shell::EgressTransport;
use lazily::reactive::AsyncContext;

struct Transport(Vec<u64>);

impl EgressTransport<i32> for Transport {
    fn send(&mut self, envelope: &EgressEnvelope<i32>) -> bool {
        self.0.push(envelope.sequence);
        true
    }
}

#[test]
fn attachment_drives_the_async_projection() {
    let mut ctx = AsyncContext::new();
    let mut egress = AsyncEgressCell::new(&mut ctx, 1, EgressPolicy::default()).unwrap();
    let _effect = egress.attach_transport(&mut ctx, Transport(Vec::new()));
    egress.enqueue(&mut ctx, 7);
    assert_eq!(egress.transport(0).0, vec![0]);
    assert_eq!(egress.inflight(&mut ctx).len(), 1);
}

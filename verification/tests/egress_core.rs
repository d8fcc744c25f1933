//! The egress authority without a graph.

use lazily::egress_core::{
    EgressAck, EgressClaim, EgressCore, EgressFailure, EgressPolicy, EgressReconnect,
    EgressRetryAction,
};

fn policy() -> EgressPolicy {
    EgressPolicy {
        inflight_limit: 2,
        retry_budget: 1,
        retry_base: 5,
        retry_ceiling: 20,
    }
}

#[test]
fn ack_is_monotone_and_reconnect_fences_old_attachment() {
    let mut core = EgressCore::new(7, policy()).unwrap();
    core.enqueue("a");
    core.enqueue("b");
    assert!(matches!(core.claim(7).1, EgressClaim::Claimed(_)));
    assert!(matches!(
        core.ack(7, 0).1,
        EgressAck::Advanced { through: 0 }
    ));
    assert!(matches!(core.ack(7, 0).1, EgressAck::Unchanged { .. }));
    assert!(matches!(
        core.reconnect(8).1,
        EgressReconnect::Advanced { generation: 8, .. }
    ));
    assert_eq!(core.claim(7).1, EgressClaim::StaleGeneration { current: 8 });
    assert_eq!(core.acked_through(), Some(0));
}

#[test]
fn retry_budget_is_bounded() {
    let mut core = EgressCore::new(1, policy()).unwrap();
    core.enqueue(1u64);
    let EgressClaim::Claimed(first) = core.claim(1).1 else {
        panic!("first claim");
    };
    assert!(matches!(
        core.fail(1, first.sequence).1,
        EgressFailure::Retrying(_)
    ));
    assert_eq!(
        core.retry_now(1, first.sequence).1,
        EgressRetryAction::Scheduled {
            sequence: first.sequence
        }
    );
    let EgressClaim::Claimed(second) = core.claim(1).1 else {
        panic!("retry claim");
    };
    assert_eq!(second.attempt, 2);
    assert!(matches!(
        core.fail(1, second.sequence).1,
        EgressFailure::Exhausted(_)
    ));
    assert!(core.pending().is_empty());
}

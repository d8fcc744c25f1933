//! Laws of the egress cell: which readers a change moves, what reads show, and what
//! superseded attachments do.

use vstd::prelude::*;

use crate::egress_core::{EgressChange, EgressEnvelope, EgressState, by_sequence};
use crate::egress_laws::unmarked_egress_holds;
use crate::egress_shell::EgressCellState;
use crate::graph::{Ledger, a_leaf_falls_as_a_root, settling_moves_one};

verus! {

/// Every reader whose cache stands has in it what the authority derives now.
pub open spec fn egress_is_fresh<P>(cell: EgressCellState<P>, ledger: Ledger) -> bool {
    &&& cell.pending.fresh(ledger, cell.core.pending)
    &&& cell.inflight.fresh(ledger, by_sequence(cell.core.inflight))
    &&& cell.acked_through.fresh(ledger, cell.core.acked_through)
    &&& cell.retry.fresh(ledger, cell.core.retry)
}

/// A change unseats exactly the readers that it marks.
pub proof fn exactly_the_marked_egress_readers_fall<P>(
    cell: EgressCellState<P>,
    ledger: Ledger,
    change: EgressChange,
)
    requires
        cell.on(ledger),
        ledger.sound(),
    ensures
        ({
            let after = ledger.cleared(cell.roots(change));
            &&& after.stands(cell.pending.slot) == (ledger.stands(cell.pending.slot)
                && !change.pending)
            &&& after.stands(cell.inflight.slot) == (ledger.stands(cell.inflight.slot)
                && !change.inflight)
            &&& after.stands(cell.acked_through.slot) == (ledger.stands(cell.acked_through.slot)
                && !change.acked_through)
            &&& after.stands(cell.retry.slot) == (ledger.stands(cell.retry.slot) && !change.retry)
        }),
{
    let roots = cell.roots(change);
    a_leaf_falls_as_a_root(ledger, roots, cell.pending.slot);
    a_leaf_falls_as_a_root(ledger, roots, cell.inflight.slot);
    a_leaf_falls_as_a_root(ledger, roots, cell.acked_through.slot);
    a_leaf_falls_as_a_root(ledger, roots, cell.retry.slot);
}

/// A transition that marks every reader it moves leaves every reader fresh.
pub proof fn marking_what_moves_keeps_egress_fresh<P>(
    cell: EgressCellState<P>,
    ledger: Ledger,
    core: EgressState<P>,
    change: EgressChange,
)
    requires
        cell.on(ledger),
        ledger.sound(),
        egress_is_fresh(cell, ledger),
        unmarked_egress_holds(cell.core, core, change),
    ensures
        egress_is_fresh(cell.over(core), ledger.cleared(cell.roots(change))),
{
    exactly_the_marked_egress_readers_fall(cell, ledger, change);
}

/// While every cache that stands is fresh and no batch is open, a read shows what the
/// authority derives, and leaves every reader fresh.
pub proof fn egress_reads_show_the_authority<P>(cell: EgressCellState<P>, ledger: Ledger)
    requires
        cell.on(ledger),
        ledger.sound(),
        ledger.depth == 0,
        egress_is_fresh(cell, ledger),
    ensures
        cell.pending.shows(ledger, cell.core.pending) == cell.core.pending,
        cell.inflight.shows(ledger, by_sequence(cell.core.inflight)) == by_sequence(
            cell.core.inflight,
        ),
        cell.acked_through.shows(ledger, cell.core.acked_through) == cell.core.acked_through,
        cell.retry.shows(ledger, cell.core.retry) == cell.core.retry,
        egress_is_fresh(cell.looked(ledger).0, cell.looked(ledger).1),
        cell.looked(ledger).2 == cell.core.pending,
{
    cell.pending.fresh_shows(ledger, cell.core.pending);
    cell.inflight.fresh_shows(ledger, by_sequence(cell.core.inflight));
    cell.acked_through.fresh_shows(ledger, cell.core.acked_through);
    cell.retry.fresh_shows(ledger, cell.core.retry);
    let settled = ledger.settled(cell.inflight.slot);
    settling_moves_one(ledger, cell.inflight.slot, cell.pending.slot);
    cell.pending.settling_keeps_fresh(ledger, cell.inflight.slot, cell.core.pending);
    cell.acked_through.settling_keeps_fresh(ledger, cell.inflight.slot, cell.core.acked_through);
    cell.retry.settling_keeps_fresh(ledger, cell.inflight.slot, cell.core.retry);
    cell.pending.fresh_shows(settled, cell.core.pending);
    cell.inflight.showing(by_sequence(cell.core.inflight)).settling_keeps_fresh(
        settled,
        cell.pending.slot,
        by_sequence(cell.core.inflight),
    );
    cell.acked_through.settling_keeps_fresh(settled, cell.pending.slot, cell.core.acked_through);
    cell.retry.settling_keeps_fresh(settled, cell.pending.slot, cell.core.retry);
}

/// An attachment whose captured generation was superseded sends nothing and changes
/// nothing but what its own reads settle.
pub proof fn superseded_attachments_send_nothing<P>(
    cell: EgressCellState<P>,
    ledger: Ledger,
    generation: u64,
    attempts: Seq<(EgressEnvelope<P>, bool)>,
    after: (EgressCellState<P>, Ledger),
)
    requires
        generation != cell.core.generation,
        cell.runs(ledger, generation, attempts, after),
    ensures
        attempts.len() == 0,
        after == (cell.looked(ledger).0, cell.looked(ledger).1),
        after.0.core == cell.core,
{
    let (seen, here, pending) = cell.looked(ledger);
    if pending.len() > 0 {
        no_attempt_from_a_superseded_attachment(seen, here, generation, attempts);
    }
}

/// No attempt can be made for a generation that is not the fence.
proof fn no_attempt_from_a_superseded_attachment<P>(
    cell: EgressCellState<P>,
    ledger: Ledger,
    generation: u64,
    attempts: Seq<(EgressEnvelope<P>, bool)>,
)
    requires
        generation != cell.core.generation,
        cell.makes(ledger, generation, attempts),
    ensures
        attempts.len() == 0,
    decreases attempts.len(),
{
    if attempts.len() > 0 {
        no_attempt_from_a_superseded_attachment(cell, ledger, generation, attempts.drop_last());
        assert(cell.claimed(ledger, generation).2 is StaleGeneration);
    }
}

/// A run that the transport refuses nothing of leaves nothing pending, or a full
/// window.
pub proof fn an_accepting_transport_drains_up_to_the_window<P>(
    cell: EgressCellState<P>,
    ledger: Ledger,
    attempts: Seq<(EgressEnvelope<P>, bool)>,
    after: (EgressCellState<P>, Ledger),
)
    requires
        cell.looked(ledger).2.len() > 0,
        cell.runs(ledger, cell.core.generation, attempts, after),
        forall|i: int| 0 <= i < attempts.len() ==> (#[trigger] attempts[i]).1,
    ensures
        after.0.core.pending.len() == 0 || after.0.core.inflight.len()
            >= after.0.core.policy.inflight_limit,
{
    let generation = cell.core.generation;
    let (seen, here, pending) = cell.looked(ledger);
    sending_keeps_the_fence(seen, here, generation, attempts);
    if attempts.len() > 0 {
        assert(attempts[attempts.len() - 1].1);
    }
}

/// Sending moves neither the fence nor the policy.
pub proof fn sending_keeps_the_fence<P>(
    cell: EgressCellState<P>,
    ledger: Ledger,
    generation: u64,
    attempts: Seq<(EgressEnvelope<P>, bool)>,
)
    ensures
        cell.sent(ledger, generation, attempts).0.core.generation == cell.core.generation,
        cell.sent(ledger, generation, attempts).0.core.policy == cell.core.policy,
    decreases attempts.len(),
{
    if attempts.len() > 0 {
        sending_keeps_the_fence(cell, ledger, generation, attempts.drop_last());
    }
}

} // verus!

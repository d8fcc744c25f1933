//! Laws of attached transports: which records they are offered, when a run ends, and what it
//! leaves.

use vstd::prelude::*;

use crate::egress_core::{EgressEnvelope, EgressPolicy, EgressState, by_sequence};
use crate::egress_line::{EgressLineState, EgressRun, due, is_next, quiet};
use crate::egress_shell::{EgressAttachment, EgressCellState};
use crate::egress_shell_laws::sending_keeps_the_fence;
use crate::graph::Ledger;

verus! {

/// A new cell has nothing to send and its readers have computed nothing yet.
pub proof fn a_new_egress_cell_has_read_nothing<P>(
    generation: u64,
    policy: EgressPolicy,
    first: int,
)
    requires
        0 <= first,
        first + 3 <= usize::MAX,
    ensures
        ({
            let cell = EgressCellState::<P>::initial(generation, policy, first);
            &&& cell.core == EgressState::<P>::initial(generation, policy)
            &&& cell.pending.slot.index == first && cell.pending.cached is None
            &&& cell.inflight.slot.index == first + 1 && cell.inflight.cached is None
            &&& cell.acked_through.slot.index == first + 2 && cell.acked_through.cached is None
            &&& cell.retry.slot.index == first + 3 && cell.retry.cached is None
        }),
{
}

/// Another authority leaves the readers alone, and a claim or a failure of the cell is one of
/// its authority.
pub proof fn cells_do_what_their_authority_does<P>(
    cell: EgressCellState<P>,
    ledger: Ledger,
    generation: u64,
    sequence: u64,
    core: EgressState<P>,
)
    ensures
        cell.over(core).core == core,
        cell.over(core).pending == cell.pending,
        cell.over(core).inflight == cell.inflight,
        cell.over(core).acked_through == cell.acked_through,
        cell.over(core).retry == cell.retry,
        cell.claimed(ledger, generation).0 == cell.over(cell.core.claimed(generation).0),
        cell.claimed(ledger, generation).2 == cell.core.claimed(generation).2,
        cell.failing(ledger, generation, sequence).0 == cell.over(
            cell.core.failing(generation, sequence).0,
        ),
        cell.failing(ledger, generation, sequence).2 == cell.core.failing(generation, sequence).2,
{
}

/// A look reads both projections: what each reader keeps while its slot is clean, and what
/// the authority derives otherwise. It keeps what it showed, makes both slots clean and moves
/// nothing else.
pub proof fn a_look_reads_both_projections<P>(cell: EgressCellState<P>, ledger: Ledger)
    requires
        cell.on(ledger),
    ensures
        ({
            let (after, later, shown) = cell.looked(ledger);
            let kept = ledger.clean(cell.pending.slot) && cell.pending.cached is Some;
            let flying = ledger.clean(cell.inflight.slot) && cell.inflight.cached is Some;
            &&& kept ==> cell.pending.cached == Some(shown)
            &&& !kept ==> shown == cell.core.pending
            &&& after.pending.cached == Some(shown)
            &&& flying ==> after.inflight.cached == cell.inflight.cached
            &&& !flying ==> after.inflight.cached == Some(by_sequence(cell.core.inflight))
            &&& after.seated_as(cell)
            &&& after.core == cell.core
            &&& after.acked_through == cell.acked_through
            &&& after.retry == cell.retry
            &&& later.slots.len() == ledger.slots.len()
            &&& forall|at: int|
                0 <= at < ledger.slots.len() ==> {
                    &&& (#[trigger] later.slots[at]).deps == ledger.slots[at].deps
                    &&& later.slots[at].clean <==> ledger.slots[at].clean || at
                        == cell.pending.slot.index || at == cell.inflight.slot.index
                }
            &&& later.walks == ledger.walks
            &&& later.depth == ledger.depth
            &&& later.held == ledger.held
        }),
{
}

/// Whether the last of some attempts was refused.
pub open spec fn refused<P>(attempts: Seq<(EgressEnvelope<P>, bool)>) -> bool {
    attempts.len() > 0 && !attempts[attempts.len() - 1].1
}

/// An attachment offers the pending records oldest first, each as one more attempt, and goes
/// on only where the transport accepts. What was offered is no longer pending; what was
/// accepted is in the window, and a refused record is not.
pub proof fn attempts_offer_the_oldest_records<P>(
    cell: EgressCellState<P>,
    ledger: Ledger,
    generation: u64,
    attempts: Seq<(EgressEnvelope<P>, bool)>,
)
    requires
        cell.makes(ledger, generation, attempts),
    ensures
        ({
            let after = cell.sent(ledger, generation, attempts).0;
            let pending = cell.core.pending;
            &&& attempts.len() <= pending.len()
            &&& attempts.len() > 0 ==> generation == cell.core.generation
            &&& forall|i: int|
                0 <= i < attempts.len() ==> {
                    let record = (#[trigger] attempts[i]).0;
                    &&& record.generation == generation
                    &&& record.sequence == pending[i].sequence
                    &&& record.payload == pending[i].payload
                    &&& pending[i].attempt < u32::MAX ==> record.attempt == pending[i].attempt + 1
                }
            &&& forall|i: int| 0 <= i < attempts.len() - 1 ==> (#[trigger] attempts[i]).1
            &&& after.core.pending == pending.skip(attempts.len() as int)
            &&& forall|s: u64| #[trigger]
                after.core.inflight.contains_key(s) <==> (cell.core.inflight.contains_key(s)
                    || exists|i: int|
                    0 <= i < attempts.len() && (#[trigger] attempts[i]).0.sequence == s) && !(
                refused(attempts) && s == attempts[attempts.len() - 1].0.sequence)
        }),
    decreases attempts.len(),
{
    let pending = cell.core.pending;
    if attempts.len() > 0 {
        let earlier = attempts.drop_last();
        let last = attempts.len() - 1;
        attempts_offer_the_oldest_records(cell, ledger, generation, earlier);
        sending_keeps_the_fence(cell, ledger, generation, earlier);
        let (before, here) = cell.sent(ledger, generation, earlier);
        let claimed = before.claimed(here, generation).0;
        let after = cell.sent(ledger, generation, attempts).0;
        assert(before.core.pending[0] == pending[last]);
        assert(before.core.pending.skip(1) =~= pending.skip(last + 1));
        assert forall|i: int| 0 <= i < attempts.len() - 1 implies (#[trigger] attempts[i]).1 by {
            assert(earlier[i] == attempts[i]);
            if i < earlier.len() - 1 {
                assert(earlier[i].1);
            }
        }
        assert forall|i: int| 0 <= i < attempts.len() implies {
            let record = (#[trigger] attempts[i]).0;
            &&& record.generation == generation
            &&& record.sequence == pending[i].sequence
            &&& record.payload == pending[i].payload
            &&& pending[i].attempt < u32::MAX ==> record.attempt == pending[i].attempt + 1
        } by {
            if i < last {
                assert(earlier[i] == attempts[i]);
            }
        }
        assert forall|s: u64| #[trigger]
            after.core.inflight.contains_key(s) <==> (cell.core.inflight.contains_key(s)
                || exists|i: int|
                0 <= i < attempts.len() && (#[trigger] attempts[i]).0.sequence == s) && !(refused(
                attempts,
            ) && s == attempts[last].0.sequence) by {
            assert(before.core.inflight.contains_key(s) <==> cell.core.inflight.contains_key(s)
                || exists|i: int|
                0 <= i < earlier.len() && (#[trigger] earlier[i]).0.sequence == s);
            if exists|i: int| 0 <= i < earlier.len() && (#[trigger] earlier[i]).0.sequence == s {
                let i = choose|i: int|
                    0 <= i < earlier.len() && (#[trigger] earlier[i]).0.sequence == s;
                assert(attempts[i].0.sequence == s);
            }
            if exists|i: int| 0 <= i < attempts.len() && (#[trigger] attempts[i]).0.sequence == s {
                let i = choose|i: int|
                    0 <= i < attempts.len() && (#[trigger] attempts[i]).0.sequence == s;
                if i < last {
                    assert(earlier[i].0.sequence == s);
                }
            }
            assert(claimed.core.inflight.contains_key(s) <==> before.core.inflight.contains_key(s)
                || s == attempts[last].0.sequence);
        }
    } else {
        assert(pending.skip(0) =~= pending);
    }
}

/// A run sends nothing where its look shows nothing pending. Otherwise it takes what it offers
/// off the pending records, and ends only where the transport refused, the window is full,
/// nothing is pending, or its generation is not the current one.
pub proof fn a_run_ends_where_nothing_can_be_sent<P>(
    cell: EgressCellState<P>,
    ledger: Ledger,
    generation: u64,
    attempts: Seq<(EgressEnvelope<P>, bool)>,
    after: (EgressCellState<P>, Ledger),
)
    requires
        cell.runs(ledger, generation, attempts, after),
    ensures
        cell.looked(ledger).2.len() == 0 ==> attempts.len() == 0 && after.0.core == cell.core,
        cell.looked(ledger).2.len() > 0 ==> {
            let core = after.0.core;
            &&& core.pending == cell.core.pending.skip(attempts.len() as int)
            &&& refused(attempts) || generation != core.generation || core.pending.len() == 0
                || core.policy.inflight_limit <= core.inflight.len()
        },
        after.0.core.generation == cell.core.generation,
        after.0.core.policy == cell.core.policy,
{
    let (seen, here, pending) = cell.looked(ledger);
    if pending.len() > 0 {
        attempts_offer_the_oldest_records(seen, here, generation, attempts);
        sending_keeps_the_fence(seen, here, generation, attempts);
    }
}

/// A run makes its own effect clean first, adds what it offered to its own transport's log,
/// and moves no other attachment.
pub proof fn a_run_writes_its_own_log<P>(
    line: EgressLineState<P>,
    ledger: Ledger,
    run: EgressRun<P>,
)
    requires
        0 <= run.at < line.attachments.len(),
        line.logs.len() == line.attachments.len(),
    ensures
        ({
            let (after, later) = line.after_run(ledger, run);
            let attachment = line.attachments[run.at];
            let here = ledger.settled(attachment.effect.id());
            &&& (after.cell, later) == line.cell.ran(here, attachment.generation, run.made)
            &&& after.attachments == line.attachments
            &&& after.logs.len() == line.logs.len()
            &&& after.logs[run.at] == line.logs[run.at] + run.made
            &&& forall|i: int|
                0 <= i < line.logs.len() && i != run.at ==> #[trigger] after.logs[i]
                    == line.logs[i]
        }),
{
}

/// Attaching puts one attachment, and its transport's log, behind the others; another
/// authority leaves them alone.
pub proof fn attachments_come_last<P>(
    line: EgressLineState<P>,
    attachment: EgressAttachment,
    log: Seq<(EgressEnvelope<P>, bool)>,
    core: EgressState<P>,
)
    ensures
        line.attached(attachment, log).cell == line.cell,
        line.attached(attachment, log).attachments == line.attachments.push(attachment),
        line.attached(attachment, log).logs == line.logs.push(log),
        line.over(core).cell == line.cell.over(core),
        line.over(core).attachments == line.attachments,
        line.over(core).logs == line.logs,
        EgressLineState::bare(line.cell).cell == line.cell,
        EgressLineState::bare(line.cell).attachments.len() == 0,
        EgressLineState::bare(line.cell).logs.len() == 0,
{
}

/// No effect is due exactly where every one is clean; otherwise one is the first.
pub proof fn a_first_effect_is_due_or_none_is(
    ledger: Ledger,
    attachments: Seq<EgressAttachment>,
)
    ensures
        due(ledger, attachments) == 0 <==> quiet(ledger, attachments),
        !quiet(ledger, attachments) ==> exists|at: int| is_next(ledger, attachments, at),
    decreases attachments.len(),
{
    if attachments.len() > 0 {
        let fewer = attachments.drop_last();
        let last = attachments.len() - 1;
        a_first_effect_is_due_or_none_is(ledger, fewer);
        assert(attachments[last] == attachments.last());
        if quiet(ledger, attachments) {
            assert(quiet(ledger, fewer)) by {
                assert forall|i: int| 0 <= i < fewer.len() implies ledger.clean(
                    (#[trigger] fewer[i]).effect.id(),
                ) by {
                    assert(fewer[i] == attachments[i]);
                }
            }
        }
        if quiet(ledger, fewer) {
            assert forall|i: int| 0 <= i < last implies ledger.clean(
                (#[trigger] attachments[i]).effect.id(),
            ) by {
                assert(fewer[i] == attachments[i]);
            }
            if !ledger.clean(attachments[last].effect.id()) {
                assert(is_next(ledger, attachments, last));
            }
        } else {
            let at = choose|at: int| is_next(ledger, fewer, at);
            assert(attachments[at] == fewer[at]);
            assert forall|i: int| 0 <= i < at implies ledger.clean(
                (#[trigger] attachments[i]).effect.id(),
            ) by {
                assert(fewer[i] == attachments[i]);
            }
            assert(is_next(ledger, attachments, at));
        }
    }
}

} // verus!

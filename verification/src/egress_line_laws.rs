//! Laws of an egress cell with attached transports: when they run, and what is left to
//! send once they have.

use vstd::prelude::*;

use crate::egress_core::{EgressChange, EgressEnvelope, EgressState};
use crate::egress_laws::unmarked_egress_holds;
use crate::egress_line::{
    EgressLineState, EgressRun, is_next, quiet, sending_moves_no_reader,
};
use crate::egress_shell::EgressCellState;
use crate::egress_shell_laws::{
    an_accepting_transport_drains_up_to_the_window, egress_is_fresh,
    egress_reads_show_the_authority, marking_what_moves_keeps_egress_fresh,
    sending_keeps_the_fence, superseded_attachments_send_nothing,
};
use crate::graph::{Ledger, SlotId, clearing_unseats_what_it_reaches, reaches, settling_moves_one};

verus! {

/// Whether nothing can be sent: nothing is pending, or the window is full.
pub open spec fn served<P>(core: EgressState<P>) -> bool {
    core.pending.len() == 0 || core.inflight.len() >= core.policy.inflight_limit
}

/// Whether a transport accepted everything that it was offered behind a part of its log.
pub open spec fn accepted<P>(
    before: Seq<(EgressEnvelope<P>, bool)>,
    after: Seq<(EgressEnvelope<P>, bool)>,
) -> bool {
    forall|i: int| before.len() <= i < after.len() ==> (#[trigger] after[i]).1
}

/// While no transport effect is due, none runs.
pub proof fn nothing_runs_while_nothing_is_due<P>(
    line: EgressLineState<P>,
    ledger: Ledger,
    after: EgressLineState<P>,
    later: Ledger,
)
    requires
        line.settles(ledger, after, later),
        quiet(ledger, line.attachments),
    ensures
        after == line,
        later == ledger,
{
    let runs = choose|runs: Seq<EgressRun<P>>| #[trigger]
        line.may_follow(ledger, runs) && line.after_runs(ledger, runs) == (after, later) && quiet(
            later,
            after.attachments,
        );
    no_run_follows_a_quiet_ledger(line, ledger, runs);
}

/// No run starts from a ledger on which nothing is due.
proof fn no_run_follows_a_quiet_ledger<P>(
    line: EgressLineState<P>,
    ledger: Ledger,
    runs: Seq<EgressRun<P>>,
)
    requires
        line.may_follow(ledger, runs),
        quiet(ledger, line.attachments),
    ensures
        runs.len() == 0,
    decreases runs.len(),
{
    if runs.len() > 0 {
        no_run_follows_a_quiet_ledger(line, ledger, runs.drop_last());
        assert(is_next(ledger, line.attachments, runs.last().at));
    }
}

/// Inside a batch a transition makes no transport effect due; outside of one, it makes
/// every transport effect due where it moves the pending or the in-flight projection.
pub proof fn transports_follow_both_projections<P>(
    line: EgressLineState<P>,
    ledger: Ledger,
    change: EgressChange,
)
    requires
        line.on(ledger),
        ledger.sound(),
    ensures
        ({
            let after = ledger.cleared(line.cell.roots(change));
            &&& ledger.depth > 0 ==> after.slots == ledger.slots
            &&& ledger.depth == 0 && (change.pending || change.inflight) ==> forall|i: int|
                0 <= i < line.attachments.len() ==> !after.clean(
                    (#[trigger] line.attachments[i]).effect.id(),
                )
        }),
{
    let roots = line.cell.roots(change);
    let after = ledger.cleared(roots);
    if ledger.depth == 0 && (change.pending || change.inflight) {
        let which: int = if change.pending {
            0
        } else {
            1
        };
        let root = line.cell.driving()[which];
        assert(roots.contains(root));
        assert forall|i: int| 0 <= i < line.attachments.len() implies !after.clean(
            (#[trigger] line.attachments[i]).effect.id(),
        ) by {
            let slot = line.attachments[i].effect.id();
            let at = slot.index as int;
            assert(ledger.slots[at].deps[which] == root);
            assert(reaches(ledger.slots, roots, root));
            assert(reaches(ledger.slots, roots, at));
        }
    }
}

/// Sending keeps every reader fresh and the ledger sound, makes no slot clean, and opens
/// no batch.
proof fn sending_keeps_egress_fresh<P>(
    cell: EgressCellState<P>,
    ledger: Ledger,
    generation: u64,
    attempts: Seq<(EgressEnvelope<P>, bool)>,
)
    requires
        cell.on(ledger),
        ledger.sound(),
        egress_is_fresh(cell, ledger),
    ensures
        ({
            let (after, later) = cell.sent(ledger, generation, attempts);
            &&& after.on(later)
            &&& later.sound()
            &&& later.depth == ledger.depth
            &&& later.extends(ledger)
            &&& later.slots.len() == ledger.slots.len()
            &&& egress_is_fresh(after, later)
            &&& forall|slot: SlotId| ledger.has(slot) && #[trigger] later.clean(slot)
                ==> ledger.clean(slot)
        }),
    decreases attempts.len(),
{
    if attempts.len() > 0 {
        let earlier = attempts.drop_last();
        sending_keeps_egress_fresh(cell, ledger, generation, earlier);
        let (mid, here) = cell.sent(ledger, generation, earlier);
        let (claiming, change, _) = mid.core.claimed(generation);
        assert(unmarked_egress_holds(mid.core, claiming, change));
        clearing_unseats_what_it_reaches(here, mid.roots(change), mid.pending.slot);
        marking_what_moves_keeps_egress_fresh(mid, here, claiming, change);
        let (claimed, walked, _) = mid.claimed(here, generation);
        claimed.stays_on(here, walked);
        clearing_cleans_nothing(here, mid.roots(change));
        if !attempts.last().1 {
            let sequence = attempts.last().0.sequence;
            let (failing, fallen, _) = claimed.core.failing(generation, sequence);
            assert(unmarked_egress_holds(claimed.core, failing, fallen));
            clearing_unseats_what_it_reaches(walked, claimed.roots(fallen), claimed.pending.slot);
            marking_what_moves_keeps_egress_fresh(claimed, walked, failing, fallen);
            clearing_cleans_nothing(walked, claimed.roots(fallen));
            let (failed, last, _) = claimed.failing(walked, generation, sequence);
            failed.stays_on(walked, last);
        }
    }
}

/// Clearing makes no slot clean.
proof fn clearing_cleans_nothing(ledger: Ledger, roots: Set<int>)
    ensures
        ledger.cleared(roots).depth == ledger.depth,
        forall|slot: SlotId| ledger.has(slot) && #[trigger] ledger.cleared(roots).clean(slot)
            ==> ledger.clean(slot),
{
}

/// What one run keeps: the readers are fresh, and no other transport effect stops being
/// due.
proof fn a_run_keeps_egress_fresh<P>(line: EgressLineState<P>, ledger: Ledger, run: EgressRun<P>)
    requires
        line.on(ledger),
        ledger.sound(),
        ledger.depth == 0,
        egress_is_fresh(line.cell, ledger),
        line.may_run(ledger, run),
    ensures
        ({
            let (after, later) = line.after_run(ledger, run);
            &&& after.on(later)
            &&& later.sound()
            &&& later.depth == 0
            &&& egress_is_fresh(after.cell, later)
            &&& after.attachments == line.attachments
            &&& after.cell.core.generation == line.cell.core.generation
            &&& after.cell.core.policy == line.cell.core.policy
            &&& forall|i: int|
                0 <= i < line.attachments.len() && i != run.at && !ledger.clean(
                    (#[trigger] line.attachments[i]).effect.id(),
                ) ==> !later.clean(line.attachments[i].effect.id())
        }),
{
    let attachment = line.attachments[run.at];
    let effect = attachment.effect.id();
    let here = ledger.settled(effect);
    let cell = line.cell;
    settling_moves_one(ledger, effect, cell.pending.slot);
    settling_moves_one(ledger, effect, cell.inflight.slot);
    settling_moves_one(ledger, effect, cell.acked_through.slot);
    settling_moves_one(ledger, effect, cell.retry.slot);
    line.stays_on(ledger, here);
    egress_reads_show_the_authority(cell, here);
    let (seen, settled, pending) = cell.looked(here);
    settling_moves_one(here, cell.inflight.slot, cell.pending.slot);
    settling_moves_one(
        here.settled(cell.inflight.slot),
        cell.pending.slot,
        cell.inflight.slot,
    );
    seen.stays_on(here, settled);
    let (after, later) = line.after_run(ledger, run);
    if pending.len() > 0 {
        sending_keeps_egress_fresh(seen, settled, attachment.generation, run.made);
        sending_keeps_the_fence(seen, settled, attachment.generation, run.made);
        sending_moves_no_reader(seen, settled, attachment.generation, run.made);
    }
    line.stays_on(ledger, later);
    assert(after.on(later));
}

/// What some runs keep.
proof fn runs_keep_egress_fresh<P>(
    line: EgressLineState<P>,
    ledger: Ledger,
    runs: Seq<EgressRun<P>>,
)
    requires
        line.on(ledger),
        ledger.sound(),
        ledger.depth == 0,
        egress_is_fresh(line.cell, ledger),
        line.may_follow(ledger, runs),
    ensures
        ({
            let (after, later) = line.after_runs(ledger, runs);
            &&& after.on(later)
            &&& later.sound()
            &&& later.depth == 0
            &&& egress_is_fresh(after.cell, later)
            &&& after.attachments == line.attachments
            &&& after.cell.core.generation == line.cell.core.generation
            &&& after.cell.core.policy == line.cell.core.policy
            &&& forall|i: int|
                0 <= i < line.logs.len() ==> (#[trigger] line.logs[i]).len() <= after.logs[i].len()
        }),
    decreases runs.len(),
{
    if runs.len() > 0 {
        runs_keep_egress_fresh(line, ledger, runs.drop_last());
        let (mid, here) = line.after_runs(ledger, runs.drop_last());
        a_run_keeps_egress_fresh(mid, here, runs.last());
    }
}

/// What the transport effects do keeps every reader fresh, the fence and the policy where
/// they were, and leaves nothing due.
pub proof fn transports_keep_egress_fresh<P>(
    line: EgressLineState<P>,
    ledger: Ledger,
    after: EgressLineState<P>,
    later: Ledger,
)
    requires
        line.on(ledger),
        ledger.sound(),
        ledger.depth == 0,
        egress_is_fresh(line.cell, ledger),
        line.settles(ledger, after, later),
    ensures
        egress_is_fresh(after.cell, later),
        after.cell.core.generation == line.cell.core.generation,
        after.cell.core.policy == line.cell.core.policy,
        quiet(later, after.attachments),
{
    let runs = choose|runs: Seq<EgressRun<P>>| #[trigger]
        line.may_follow(ledger, runs) && line.after_runs(ledger, runs) == (after, later) && quiet(
            later,
            after.attachments,
        );
    runs_keep_egress_fresh(line, ledger, runs);
}

/// Where nothing can be sent, no run sends anything.
proof fn a_served_cell_sends_nothing<P>(
    cell: EgressCellState<P>,
    ledger: Ledger,
    generation: u64,
    attempts: Seq<(EgressEnvelope<P>, bool)>,
)
    requires
        served(cell.core),
        cell.makes(ledger, generation, attempts),
    ensures
        attempts.len() == 0,
    decreases attempts.len(),
{
    if attempts.len() > 0 {
        a_served_cell_sends_nothing(cell, ledger, generation, attempts.drop_last());
        assert(!(cell.claimed(ledger, generation).2 is Claimed));
    }
}

/// After some runs either nothing can be sent, or an attachment of the current generation
/// that was due is still due, as long as the transports accept what they are offered.
proof fn a_due_transport_serves<P>(
    line: EgressLineState<P>,
    ledger: Ledger,
    runs: Seq<EgressRun<P>>,
    at: int,
)
    requires
        line.on(ledger),
        ledger.sound(),
        ledger.depth == 0,
        egress_is_fresh(line.cell, ledger),
        line.may_follow(ledger, runs),
        0 <= at < line.attachments.len(),
        line.attachments[at].generation == line.cell.core.generation,
        !ledger.clean(line.attachments[at].effect.id()),
        forall|i: int|
            0 <= i < line.logs.len() ==> accepted(
                #[trigger] line.logs[i],
                line.after_runs(ledger, runs).0.logs[i],
            ),
    ensures
        served(line.after_runs(ledger, runs).0.cell.core) || !line.after_runs(
            ledger,
            runs,
        ).1.clean(line.attachments[at].effect.id()),
    decreases runs.len(),
{
    if runs.len() > 0 {
        let earlier = runs.drop_last();
        let run = runs.last();
        let (mid, here) = line.after_runs(ledger, earlier);
        let (after, later) = line.after_runs(ledger, runs);
        runs_keep_egress_fresh(line, ledger, earlier);
        a_run_keeps_egress_fresh(mid, here, run);
        assert(after.logs == mid.logs.update(run.at, mid.logs[run.at] + run.made));
        assert forall|i: int| 0 <= i < line.logs.len() implies accepted(
            #[trigger] line.logs[i],
            mid.logs[i],
        ) by {
            assert(accepted(line.logs[i], after.logs[i]));
            assert forall|k: int| line.logs[i].len() <= k < mid.logs[i].len() implies (
            #[trigger] mid.logs[i][k]).1 by {
                assert(after.logs[i][k] == mid.logs[i][k]);
            }
        }
        a_due_transport_serves(line, ledger, earlier, at);
        let attachment = line.attachments[run.at];
        let ready = here.settled(attachment.effect.id());
        let (seen, settled, pending) = mid.cell.looked(ready);
        if served(mid.cell.core) {
            if pending.len() > 0 {
                a_served_cell_sends_nothing(seen, settled, attachment.generation, run.made);
            }
        } else if run.at == at {
            let slot = attachment.effect.id();
            settling_moves_one(here, slot, mid.cell.pending.slot);
            settling_moves_one(here, slot, mid.cell.inflight.slot);
            settling_moves_one(here, slot, mid.cell.acked_through.slot);
            settling_moves_one(here, slot, mid.cell.retry.slot);
            mid.stays_on(here, ready);
            egress_reads_show_the_authority(mid.cell, ready);
            assert forall|i: int| 0 <= i < run.made.len() implies (#[trigger] run.made[i]).1 by {
                let log = line.logs[at];
                assert(accepted(log, after.logs[at]));
                assert(after.logs[at][mid.logs[at].len() + i] == run.made[i]);
                assert(log.len() <= mid.logs[at].len());
            }
            an_accepting_transport_drains_up_to_the_window(
                mid.cell,
                ready,
                run.made,
                (after.cell, later),
            );
        }
    }
}

/// Where a transport of the current generation is due and the transports accept what they
/// are offered, nothing is left to send: everything pending went out, or the window is
/// full.
pub proof fn a_due_transport_sends_what_the_window_takes<P>(
    line: EgressLineState<P>,
    ledger: Ledger,
    after: EgressLineState<P>,
    later: Ledger,
    at: int,
)
    requires
        line.on(ledger),
        ledger.sound(),
        ledger.depth == 0,
        egress_is_fresh(line.cell, ledger),
        line.settles(ledger, after, later),
        0 <= at < line.attachments.len(),
        line.attachments[at].generation == line.cell.core.generation,
        !ledger.clean(line.attachments[at].effect.id()),
        forall|i: int|
            0 <= i < line.logs.len() ==> accepted(#[trigger] line.logs[i], after.logs[i]),
    ensures
        served(after.cell.core),
{
    let runs = choose|runs: Seq<EgressRun<P>>| #[trigger]
        line.may_follow(ledger, runs) && line.after_runs(ledger, runs) == (after, later) && quiet(
            later,
            after.attachments,
        );
    runs_keep_egress_fresh(line, ledger, runs);
    a_due_transport_serves(line, ledger, runs, at);
    assert(after.attachments[at] == line.attachments[at]);
}

/// A transition that moves the pending or the in-flight projection, as a value that is
/// enqueued and an acknowledgement that covers an unacknowledged record do, resumes
/// sending: as long as the transports accept what they are offered, nothing is left
/// pending that the window takes.
pub proof fn a_moved_projection_resumes_sending<P>(
    line: EgressLineState<P>,
    ledger: Ledger,
    core: EgressState<P>,
    change: EgressChange,
    after: EgressLineState<P>,
    later: Ledger,
    at: int,
)
    requires
        line.on(ledger),
        ledger.sound(),
        ledger.depth == 0,
        egress_is_fresh(line.cell, ledger),
        unmarked_egress_holds(line.cell.core, core, change),
        change.pending || change.inflight,
        line.over(core).settles(ledger.cleared(line.cell.roots(change)), after, later),
        0 <= at < line.attachments.len(),
        line.attachments[at].generation == core.generation,
        forall|i: int|
            0 <= i < line.logs.len() ==> accepted(#[trigger] line.logs[i], after.logs[i]),
    ensures
        served(after.cell.core),
{
    let roots = line.cell.roots(change);
    let cleared = ledger.cleared(roots);
    transports_follow_both_projections(line, ledger, change);
    marking_what_moves_keeps_egress_fresh(line.cell, ledger, core, change);
    clearing_unseats_what_it_reaches(ledger, roots, line.cell.pending.slot);
    line.over(core).stays_on(ledger, cleared);
    a_due_transport_sends_what_the_window_takes(line.over(core), cleared, after, later, at);
}

/// An attachment whose captured generation was superseded sends nothing when it runs.
pub proof fn superseded_transports_run_dry<P>(
    line: EgressLineState<P>,
    ledger: Ledger,
    run: EgressRun<P>,
)
    requires
        line.may_run(ledger, run),
        line.attachments[run.at].generation != line.cell.core.generation,
    ensures
        run.made.len() == 0,
        line.after_run(ledger, run).0.cell.core == line.cell.core,
{
    let attachment = line.attachments[run.at];
    let here = ledger.settled(attachment.effect.id());
    superseded_attachments_send_nothing(
        line.cell,
        here,
        attachment.generation,
        run.made,
        line.cell.ran(here, attachment.generation, run.made),
    );
}

} // verus!

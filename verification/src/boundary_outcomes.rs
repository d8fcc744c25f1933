//! Laws of the boundary's frames and snapshots: what each leaves of the cursor, the keys, the
//! stamp that freshness goes by, and the phase.

use vstd::prelude::*;

use crate::boundary_convergence::run_actions;
use crate::boundary_model::{
    BoundaryState, entry_keys, install_actions, installed, payload_actions, replaced,
};
use crate::boundary_types::{
    BoundaryFreshness, BoundaryIngressAction, BoundaryIngressEvent, BoundaryIngressPayload,
    BoundaryValidation, SnapshotFacts,
};
use crate::ingress_types::IngressEnvelope;
use crate::sorted::{ascending, in_order, in_order_exists};
use crate::value::OrderedKey;

verus! {

/// Whether a key is a source key once some frames were applied in order: it goes by the last
/// frame that names it.
pub open spec fn named_by<Id, P>(
    frames: Seq<BoundaryIngressEvent<Id, P>>,
    before: bool,
    key: Id,
) -> bool
    decreases frames.len(),
{
    if frames.len() == 0 {
        before
    } else {
        match frames.last().payload {
            BoundaryIngressPayload::Upsert(envelope) => envelope.key == key || named_by(
                frames.drop_last(),
                before,
                key,
            ),
            BoundaryIngressPayload::Remove(gone) => gone != key && named_by(
                frames.drop_last(),
                before,
                key,
            ),
            BoundaryIngressPayload::Validate(_) => named_by(frames.drop_last(), before, key),
        }
    }
}

/// The validation once some frames were applied in order: that of the last frame that states
/// one.
pub open spec fn stated_by<Id, P>(
    frames: Seq<BoundaryIngressEvent<Id, P>>,
    before: BoundaryValidation,
) -> BoundaryValidation
    decreases frames.len(),
{
    if frames.len() == 0 {
        before
    } else {
        match frames.last().payload {
            BoundaryIngressPayload::Validate(validation) => validation,
            _ => stated_by(frames.drop_last(), before),
        }
    }
}

/// The waiting frames right behind a cursor, in order.
pub open spec fn run_behind<Id, P>(
    buffered: Map<u64, BoundaryIngressEvent<Id, P>>,
    cursor: u64,
    count: nat,
) -> Seq<BoundaryIngressEvent<Id, P>> {
    Seq::new(count, |i: int| buffered[(cursor + 1 + i) as u64])
}

/// What applying some frames in order to a boundary leaves.
pub open spec fn has_applied<Id, P>(
    before: BoundaryState<Id, P>,
    frames: Seq<BoundaryIngressEvent<Id, P>>,
    after: BoundaryState<Id, P>,
) -> bool {
    &&& before.cursor is Some
    &&& after.cursor is Some
    &&& after.cursor->0 == before.cursor->0 + frames.len()
    &&& after.last_stamped_at == if frames.len() > 0 {
        Some(frames.last().stamped_at)
    } else {
        before.last_stamped_at
    }
    &&& forall|key: Id| #[trigger]
        after.source_keys.contains(key) <==> named_by(
            frames,
            before.source_keys.contains(key),
            key,
        )
    &&& after.validation == stated_by(frames, before.validation)
    &&& after.generation == before.generation
    &&& after.members == before.members
    &&& after.deliveries == before.deliveries
    &&& after.active_delivery == before.active_delivery
    &&& after.stale_events == before.stale_events
    &&& after.now == before.now
    &&& after.config == before.config
}

/// The phase, the replay and the waiting frames say the same: where nothing waits the
/// boundary is contiguous and live if it is valid; otherwise a replay from the missing cursor
/// is required.
pub open spec fn tells_its_gap<Id, P>(state: BoundaryState<Id, P>) -> bool {
    if state.buffered.dom() == Set::<u64>::empty() {
        &&& state.replay_from is None
        &&& state.phase is Live <==> state.validation is Valid
        &&& state.phase is Invalid <==> state.validation is Invalid
    } else {
        &&& state.replay_from == Some((state.cursor->0 + 1) as u64)
        &&& state.phase is ReplayRequired
    }
}

/// A frame in front of others names keys first.
proof fn naming_from_the_front<Id, P>(
    first: BoundaryIngressEvent<Id, P>,
    rest: Seq<BoundaryIngressEvent<Id, P>>,
    before: bool,
    validation: BoundaryValidation,
    key: Id,
)
    ensures
        named_by(seq![first] + rest, before, key) == named_by(
            rest,
            named_by(seq![first], before, key),
            key,
        ),
        stated_by(seq![first] + rest, validation) == stated_by(
            rest,
            stated_by(seq![first], validation),
        ),
    decreases rest.len(),
{
    let all = seq![first] + rest;
    if rest.len() == 0 {
        assert(all =~= seq![first]);
    } else {
        naming_from_the_front(first, rest.drop_last(), before, validation, key);
        assert(all.drop_last() =~= seq![first] + rest.drop_last());
        assert(all.last() == rest.last());
    }
}

/// What one frame leaves.
proof fn one_frame_is_applied<Id, P>(
    state: BoundaryState<Id, P>,
    event: BoundaryIngressEvent<Id, P>,
)
    requires
        state.cursor is Some,
        event.cursor == state.cursor->0 + 1,
    ensures
        has_applied(state, seq![event], state.applied(event)),
        state.applied(event).buffered == state.buffered,
        state.applied(event).revision == state.revision,
{
    reveal_with_fuel(named_by, 2);
    reveal_with_fuel(stated_by, 2);
    assert(seq![event].drop_last() =~= Seq::empty());
    assert(seq![event].last() == event);
}

/// Applying one frame and then some is applying them all.
proof fn applying_adds_up<Id, P>(
    before: BoundaryState<Id, P>,
    first: BoundaryIngressEvent<Id, P>,
    middle: BoundaryState<Id, P>,
    rest: Seq<BoundaryIngressEvent<Id, P>>,
    after: BoundaryState<Id, P>,
)
    requires
        has_applied(before, seq![first], middle),
        has_applied(middle, rest, after),
    ensures
        has_applied(before, seq![first] + rest, after),
{
    let all = seq![first] + rest;
    assert forall|key: Id| #[trigger] after.source_keys.contains(key) <==> named_by(
        all,
        before.source_keys.contains(key),
        key,
    ) by {
        naming_from_the_front(
            first,
            rest,
            before.source_keys.contains(key),
            before.validation,
            key,
        );
        assert(middle.source_keys.contains(key) == named_by(
            seq![first],
            before.source_keys.contains(key),
            key,
        ));
    }
    naming_from_the_front(first, rest, true, before.validation, arbitrary());
    if rest.len() > 0 {
        assert(all.last() == rest.last());
    } else {
        assert(all.last() == first);
        assert(seq![first].last() == first);
    }
}

/// What frames ask of the value plane does not hang on where they start.
proof fn asking_shifts<Id, P>(
    one: Seq<BoundaryIngressEvent<Id, P>>,
    other: Seq<BoundaryIngressEvent<Id, P>>,
    from: int,
    to: int,
    shift: int,
)
    requires
        0 <= from,
        0 <= from + shift,
        to <= one.len(),
        to + shift <= other.len(),
        forall|i: int| from <= i < to ==> #[trigger] one[i] == other[i + shift],
    ensures
        run_actions(one, from, to) == run_actions(other, from + shift, to + shift),
    decreases to - from,
{
    if from < to {
        asking_shifts(one, other, from + 1, to, shift);
        assert(one[from] == other[from + shift]);
    }
}

/// What draining leaves: the run of waiting frames right behind the cursor is applied, and no
/// other frame is touched.
proof fn a_drain_applies_the_run<Id, P>(state: BoundaryState<Id, P>)
    requires
        state.cursor is Some,
        state.cursor->0 < u64::MAX,
        forall|at: u64| #[trigger]
            state.buffered.contains_key(at) ==> at < u64::MAX && state.buffered[at].cursor == at,
    ensures
        ({
            let (after, actions) = state.drained();
            let from = state.cursor->0;
            let to = after.cursor->0;
            let frames = run_behind(state.buffered, from, (to - from) as nat);
            &&& from <= to < u64::MAX
            &&& has_applied(state, frames, after)
            &&& forall|at: u64| from < at <= to ==> #[trigger] state.buffered.contains_key(at)
            &&& !state.buffered.contains_key((to + 1) as u64)
            &&& forall|at: u64| #[trigger]
                after.buffered.contains_key(at) <==> state.buffered.contains_key(at) && !(from < at
                    <= to)
            &&& forall|at: u64| #[trigger]
                after.buffered.contains_key(at) ==> after.buffered[at] == state.buffered[at]
            &&& actions == run_actions(frames, 0, frames.len() as int)
            &&& after.revision == state.revision
            &&& after.phase == state.phase
            &&& after.replay_from == state.replay_from
        }),
    decreases u64::MAX - state.cursor->0,
{
    let from = state.cursor->0;
    let next = (from + 1) as u64;
    let (after, actions) = state.drained();
    if state.buffered.contains_key(next) {
        let event = state.buffered[next];
        let taken = BoundaryState { buffered: state.buffered.remove(next), ..state };
        let first = taken.applied(event);
        one_frame_is_applied(taken, event);
        assert(has_applied(state, seq![event], first));
        a_drain_applies_the_run(first);
        let to = after.cursor->0;
        let rest = run_behind(first.buffered, next, (to - next) as nat);
        let frames = run_behind(state.buffered, from, (to - from) as nat);
        applying_adds_up(state, event, first, rest, after);
        assert forall|at: u64| from < at <= to implies #[trigger] state.buffered.contains_key(
            at,
        ) by {
            if at != next {
                assert(first.buffered.contains_key(at));
            }
        }
        assert(!first.buffered.contains_key((to + 1) as u64));
        assert(frames =~= seq![event] + rest) by {
            assert forall|i: int| 0 <= i < frames.len() implies #[trigger] frames[i] == (
            seq![event] + rest)[i] by {
                if i > 0 {
                    let at = (from + 1 + i) as u64;
                    assert(at == (next + 1 + (i - 1)) as u64);
                    assert(first.buffered.contains_key(at));
                }
            }
        }
        asking_shifts(rest, frames, 0, rest.len() as int, 1);
        assert(run_actions(frames, 0, frames.len() as int) =~= payload_actions(event.payload)
            + run_actions(frames, 1, frames.len() as int));
    } else {
        let frames = run_behind(state.buffered, from, 0);
        assert(frames =~= Seq::empty());
        assert(has_applied(state, frames, after));
    }
}

/// What a frame asks of the value plane: an upsert hands its envelope over, a removal closes
/// its key, a validation asks nothing.
pub proof fn payloads_ask_what_they_carry<Id, P>(
    envelope: IngressEnvelope<Id, P>,
    key: Id,
    validation: BoundaryValidation,
)
    ensures
        payload_actions(BoundaryIngressPayload::Upsert(envelope)) == seq![
            BoundaryIngressAction::Admit(envelope),
        ],
        payload_actions(BoundaryIngressPayload::<Id, P>::Remove(key)) == seq![
            BoundaryIngressAction::<Id, P>::Close(key),
        ],
        payload_actions(BoundaryIngressPayload::<Id, P>::Validate(validation)).len() == 0,
{
}

/// A boundary is as fresh as the stamp it goes by: unknown before there is one, fresh up to
/// and including the horizon behind it, and stale after that.
pub proof fn freshness_goes_by_the_stamp<Id, P>(state: BoundaryState<Id, P>)
    ensures
        state.freshness_of() is Unknown <==> state.last_stamped_at is None,
        state.freshness_of() is Fresh <==> state.last_stamped_at is Some && state.now
            - state.last_stamped_at->0 <= state.config.freshness_horizon,
        state.freshness_of() is Stale <==> state.last_stamped_at is Some && state.now
            - state.last_stamped_at->0 > state.config.freshness_horizon,
{
}

/// The frame that follows the cursor is applied, and with it the run of waiting frames that
/// it closes the gap to, in order and each once. The stamp that freshness goes by is that of
/// the last frame applied, the one at the cursor, and the phase says whether frames still
/// wait.
pub proof fn the_next_frame_is_applied_with_its_run<Id, P>(
    state: BoundaryState<Id, P>,
    event: BoundaryIngressEvent<Id, P>,
    now: u64,
)
    requires
        state.wf(),
        event.generation == state.generation,
        state.cursor is Some,
        event.cursor == state.cursor->0 + 1,
        event.cursor < u64::MAX,
    ensures
        ({
            let (after, facts) = state.received(event);
            let to = after.cursor->0;
            let rest = run_behind(state.buffered, event.cursor, (to - event.cursor) as nat);
            let frames = seq![event] + rest;
            let stamp = frames.last().stamped_at;
            &&& event.cursor <= to < u64::MAX
            &&& has_applied(state, frames, after)
            &&& forall|at: u64| event.cursor < at <= to ==> #[trigger] state.buffered.contains_key(
                at,
            )
            &&& !state.buffered.contains_key((to + 1) as u64)
            &&& forall|at: u64| #[trigger]
                after.buffered.contains_key(at) <==> state.buffered.contains_key(at) && to < at
            &&& forall|at: u64| #[trigger]
                after.buffered.contains_key(at) ==> after.buffered[at] == state.buffered[at]
            &&& tells_its_gap(after)
            &&& after.last_stamped_at == Some(stamp)
            &&& to == event.cursor ==> stamp == event.stamped_at
            &&& after.ticked(now).0.freshness_of() == if now - stamp
                <= state.config.freshness_horizon {
                BoundaryFreshness::Fresh
            } else {
                BoundaryFreshness::Stale
            }
            &&& facts.changed
            &&& facts.actions == run_actions(frames, 0, frames.len() as int)
            &&& after.revision == state.revision.wrapping_add(1)
        }),
{
    let applied = state.applied(event);
    one_frame_is_applied(state, event);
    a_drain_applies_the_run(applied);
    let drained = applied.drained().0;
    let (after, facts) = state.received(event);
    let to = after.cursor->0;
    let rest = run_behind(state.buffered, event.cursor, (to - event.cursor) as nat);
    let frames = seq![event] + rest;
    assert(drained.cursor == after.cursor);
    applying_adds_up(state, event, applied, rest, drained);
    assert(has_applied(state, frames, after));
    asking_shifts(rest, frames, 0, rest.len() as int, 1);
    assert(run_actions(frames, 0, frames.len() as int) =~= payload_actions(event.payload)
        + run_actions(frames, 1, frames.len() as int));
    assert forall|at: u64| #[trigger] after.buffered.contains_key(at) <==> state.buffered.contains_key(
        at,
    ) && to < at by {
        if state.buffered.contains_key(at) {
            assert(state.cursor->0 + 1 < at);
        }
    }
    remaining_frames_are_counted(state, drained);
    if rest.len() == 0 {
        assert(frames.last() == event);
    }
}

/// Nothing waits exactly where no frame is filed.
proof fn remaining_frames_are_counted<Id, P>(
    state: BoundaryState<Id, P>,
    after: BoundaryState<Id, P>,
)
    requires
        state.buffered.dom().finite(),
        forall|at: u64| #[trigger]
            after.buffered.contains_key(at) ==> state.buffered.contains_key(at),
    ensures
        after.buffered.len() == 0 <==> after.buffered.dom() == Set::<u64>::empty(),
{
    assert(after.buffered.dom().subset_of(state.buffered.dom()));
    vstd::set_lib::lemma_set_subset_finite(state.buffered.dom(), after.buffered.dom());
    if after.buffered.len() == 0 {
        assert(after.buffered.dom() =~= Set::<u64>::empty());
    }
}

/// What a frame that is not applied leaves as it was, whatever becomes of it.
pub open spec fn nothing_applied<Id, P>(
    before: BoundaryState<Id, P>,
    after: BoundaryState<Id, P>,
) -> bool {
    &&& after.generation == before.generation
    &&& after.cursor == before.cursor
    &&& after.source_keys == before.source_keys
    &&& after.members == before.members
    &&& after.validation == before.validation
    &&& after.last_stamped_at == before.last_stamped_at
    &&& after.deliveries == before.deliveries
    &&& after.active_delivery == before.active_delivery
    &&& after.stale_events == before.stale_events
    &&& after.now == before.now
    &&& after.config == before.config
}

/// A frame of the current generation that does not follow the cursor applies nothing. One
/// that the cursor has passed, or that waits already, changes nothing at all; another one
/// waits for the gap to close while there is room for it, and is refused otherwise, and in
/// both cases the boundary tells what is missing.
pub proof fn a_frame_out_of_turn_waits<Id, P>(
    state: BoundaryState<Id, P>,
    event: BoundaryIngressEvent<Id, P>,
)
    requires
        state.wf(),
        event.generation == state.generation,
        state.cursor is Some,
        event.cursor != state.cursor->0 + 1,
    ensures
        ({
            let (after, facts) = state.received(event);
            let known = event.cursor <= state.cursor->0 || state.buffered.contains_key(
                event.cursor,
            );
            let full = state.buffered.len() >= state.config.max_buffered;
            &&& facts.actions.len() == 0
            &&& facts.changed <==> !known
            &&& known ==> after == state
            &&& !known ==> {
                &&& nothing_applied(state, after)
                &&& after.replay_from == Some((state.cursor->0 + 1) as u64)
                &&& after.revision == state.revision.wrapping_add(1)
                &&& full ==> after.phase is Backpressured && after.buffered == state.buffered
                &&& !full ==> after.phase is ReplayRequired && after.buffered
                    == state.buffered.insert(event.cursor, event)
            }
        }),
{
}

/// A frame of the current generation that comes before its snapshot applies nothing and
/// waits for it, the newest of each cursor, while there is room; otherwise everything is to
/// be replayed.
pub proof fn a_frame_before_its_snapshot_waits<Id, P>(
    state: BoundaryState<Id, P>,
    event: BoundaryIngressEvent<Id, P>,
)
    requires
        state.wf(),
        event.generation == state.generation,
        state.cursor is None,
    ensures
        ({
            let (after, facts) = state.received(event);
            let known = state.buffered.contains_key(event.cursor);
            let full = state.buffered.len() >= state.config.max_buffered;
            &&& facts.actions.len() == 0
            &&& facts.changed <==> !known
            &&& nothing_applied(state, after)
            &&& known || !full ==> {
                &&& after.buffered == state.buffered.insert(event.cursor, event)
                &&& after.phase == state.phase
                &&& after.replay_from == state.replay_from
            }
            &&& !known && full ==> {
                &&& after.buffered == state.buffered
                &&& after.phase is Backpressured
                &&& after.replay_from == Some(0u64)
            }
            &&& after.revision == if known {
                state.revision
            } else {
                state.revision.wrapping_add(1)
            }
        }),
{
}

/// A frame of a newer producer takes the fence: nothing of the older one is kept but what is
/// not the producer's, and the frame waits for the new one's snapshot, where there is room
/// for any frame.
pub proof fn a_newer_producer_bootstraps<Id, P>(
    state: BoundaryState<Id, P>,
    event: BoundaryIngressEvent<Id, P>,
)
    requires
        state.wf(),
        state.generation < event.generation,
    ensures
        ({
            let (after, facts) = state.received(event);
            let full = state.config.max_buffered == 0;
            &&& facts.actions.len() == 0
            &&& facts.changed
            &&& after.generation == event.generation
            &&& after.cursor is None
            &&& after.source_keys == Set::<Id>::empty()
            &&& after.members == Set::<Seq<char>>::empty()
            &&& after.validation == state.validation
            &&& after.last_stamped_at == state.last_stamped_at
            &&& after.deliveries == state.deliveries
            &&& after.active_delivery == state.active_delivery
            &&& after.stale_events == state.stale_events
            &&& after.now == state.now
            &&& after.config == state.config
            &&& after.revision == state.revision.wrapping_add(1)
            &&& !full ==> {
                &&& after.phase is Bootstrapping
                &&& after.replay_from is None
                &&& after.buffered == Map::<u64, BoundaryIngressEvent<Id, P>>::empty().insert(
                    event.cursor,
                    event,
                )
            }
            &&& full ==> {
                &&& after.phase is Backpressured
                &&& after.replay_from == Some(0u64)
                &&& after.buffered == Map::<u64, BoundaryIngressEvent<Id, P>>::empty()
            }
        }),
{
}

/// A frame or a snapshot of an older producer is counted, and nothing else moves.
pub proof fn an_older_producer_is_counted<Id, P>(state: BoundaryState<Id, P>)
    ensures
        state.outdated() == (BoundaryState {
            stale_events: state.stale_events.wrapping_add(1),
            revision: state.revision.wrapping_add(1),
            ..state
        }),
{
}

/// A snapshot that is not older than the fence replaces what was known of its producer, and
/// with it the run of waiting frames right behind it is applied, in order and each once; of a
/// newer producer no frame waits. The stamp is that of the last frame applied, or the
/// snapshot's own where none is, and the phase says whether frames still wait.
pub proof fn a_snapshot_covers_and_its_run_follows<K: OrderedKey, P>(
    state: BoundaryState<K::V, P>,
    snapshot: SnapshotFacts<K::V, P>,
)
    requires
        state.wf(),
        state.generation <= snapshot.generation,
        snapshot.cursor < u64::MAX,
    ensures
        ({
            let (after, facts) = installed::<K, P>(state, snapshot);
            let parked = if state.generation < snapshot.generation {
                Map::<u64, BoundaryIngressEvent<K::V, P>>::empty()
            } else {
                state.buffered
            };
            let from = snapshot.cursor;
            let to = after.cursor->0;
            let frames = run_behind(parked, from, (to - from) as nat);
            &&& after.generation == snapshot.generation
            &&& after.cursor is Some
            &&& from <= to < u64::MAX
            &&& forall|at: u64| from < at <= to ==> #[trigger] parked.contains_key(at)
            &&& !parked.contains_key((to + 1) as u64)
            &&& forall|at: u64| #[trigger]
                after.buffered.contains_key(at) <==> parked.contains_key(at) && to < at
            &&& forall|at: u64| #[trigger]
                after.buffered.contains_key(at) ==> after.buffered[at] == parked[at]
            &&& after.last_stamped_at == Some(
                if frames.len() > 0 {
                    frames.last().stamped_at
                } else {
                    snapshot.stamped_at
                },
            )
            &&& forall|key: K::V| #[trigger]
                after.source_keys.contains(key) <==> named_by(
                    frames,
                    exists|i: int|
                        0 <= i < snapshot.entries.len() && (#[trigger] snapshot.entries[i]).key
                            == key,
                    key,
                )
            &&& forall|member: Seq<char>| #[trigger]
                after.members.contains(member) <==> snapshot.members.contains(member)
            &&& after.validation == stated_by(frames, snapshot.validation)
            &&& tells_its_gap(after)
            &&& after.deliveries == state.deliveries
            &&& after.active_delivery == state.active_delivery
            &&& after.stale_events == state.stale_events
            &&& after.now == state.now
            &&& after.config == state.config
            &&& after.revision == state.revision.wrapping_add(1)
            &&& facts.changed
            &&& facts.actions == install_actions::<K, P>(state.source_keys, snapshot.entries)
                + run_actions(frames, 0, frames.len() as int)
        }),
{
    let base = replaced(state, snapshot).beyond(snapshot.cursor);
    let parked = if state.generation < snapshot.generation {
        Map::<u64, BoundaryIngressEvent<K::V, P>>::empty()
    } else {
        state.buffered
    };
    a_drain_applies_the_run(base);
    let (after, facts) = installed::<K, P>(state, snapshot);
    let drained = base.drained().0;
    let from = snapshot.cursor;
    let to = after.cursor->0;
    let frames = run_behind(parked, from, (to - from) as nat);
    assert forall|at: u64| from < at <= to implies #[trigger] parked.contains_key(at) by {
        assert(base.buffered.contains_key(at));
    }
    assert(run_behind(base.buffered, from, (to - from) as nat) =~= frames) by {
        assert forall|i: int| 0 <= i < frames.len() implies run_behind(
            base.buffered,
            from,
            (to - from) as nat,
        )[i] == #[trigger] frames[i] by {
            assert(base.buffered.contains_key((from + 1 + i) as u64));
        }
    }
    assert(!base.buffered.contains_key((to + 1) as u64));
    let keys = snapshot.entries.map_values(|entry: IngressEnvelope<K::V, P>| entry.key);
    assert forall|key: K::V| #[trigger] after.source_keys.contains(key) <==> named_by(
        frames,
        exists|i: int|
            0 <= i < snapshot.entries.len() && (#[trigger] snapshot.entries[i]).key == key,
        key,
    ) by {
        an_entry_names_its_key(snapshot.entries, key);
        assert(drained.source_keys.contains(key) <==> named_by(
            frames,
            base.source_keys.contains(key),
            key,
        ));
    }
    assert forall|member: Seq<char>| #[trigger] after.members.contains(
        member,
    ) <==> snapshot.members.contains(member) by {
        broadcast use vstd::seq_lib::group_seq_properties;

    }
    remaining_frames_are_counted(state, drained);
}

/// A key is among the keys of some entries exactly where one of them has it.
proof fn an_entry_names_its_key<Id, P>(entries: Seq<IngressEnvelope<Id, P>>, key: Id)
    ensures
        entry_keys(entries).contains(key) <==> exists|i: int|
            0 <= i < entries.len() && (#[trigger] entries[i]).key == key,
{
    let keys = entries.map_values(|entry: IngressEnvelope<Id, P>| entry.key);
    if keys.contains(key) {
        let at = keys.index_of(key);
        assert(entries[at].key == key);
    }
    if exists|i: int| 0 <= i < entries.len() && (#[trigger] entries[i]).key == key {
        let at = choose|i: int| 0 <= i < entries.len() && (#[trigger] entries[i]).key == key;
        assert(keys[at] == key);
    }
}

/// What a snapshot asks of the value plane first: every source key that it does not have is
/// closed, each once and in ascending order; then every entry is handed over, in its order.
pub proof fn a_snapshot_closes_what_is_gone<K: OrderedKey, P>(
    source_keys: Set<K::V>,
    entries: Seq<IngressEnvelope<K::V, P>>,
)
    requires
        source_keys.finite(),
    ensures
        ({
            let actions = install_actions::<K, P>(source_keys, entries);
            let count = actions.len() - entries.len();
            &&& 0 <= count
            &&& forall|i: int| 0 <= i < count ==> #[trigger] actions[i] is Close
            &&& forall|i: int|
                0 <= i < entries.len() ==> actions[count + i] == BoundaryIngressAction::Admit(
                    #[trigger] entries[i],
                )
            &&& forall|key: K::V|
                (exists|i: int|
                    0 <= i < count && #[trigger] actions[i] == BoundaryIngressAction::<
                        K::V,
                        P,
                    >::Close(key)) <==> #[trigger] source_keys.contains(key) && !exists|i: int|
                    0 <= i < entries.len() && (#[trigger] entries[i]).key == key
            &&& ascending::<K>(
                Seq::new(
                    count as nat,
                    |i: int|
                        match actions[i] {
                            BoundaryIngressAction::Close(key) => key,
                            BoundaryIngressAction::Admit(entry) => entry.key,
                        },
                ),
            )
        }),
{
    let gone = source_keys.difference(entry_keys(entries));
    in_order_exists::<K>(gone);
    let order = in_order::<K>(gone);
    let actions = install_actions::<K, P>(source_keys, entries);
    let count = actions.len() - entries.len();
    assert(count == order.len());
    assert forall|key: K::V|
        (exists|i: int|
            0 <= i < count && #[trigger] actions[i] == BoundaryIngressAction::<K::V, P>::Close(
                key,
            )) <==> #[trigger] source_keys.contains(key) && !exists|i: int|
            0 <= i < entries.len() && (#[trigger] entries[i]).key == key by {
        an_entry_names_its_key(entries, key);
        if source_keys.contains(key) && !entry_keys(entries).contains(key) {
            assert(order.to_set().contains(key));
            let at = order.index_of(key);
            assert(actions[at] == BoundaryIngressAction::<K::V, P>::Close(key));
        }
        if exists|i: int|
            0 <= i < count && #[trigger] actions[i] == BoundaryIngressAction::<K::V, P>::Close(
                key,
            ) {
            let at = choose|i: int|
                0 <= i < count && #[trigger] actions[i] == BoundaryIngressAction::<
                    K::V,
                    P,
                >::Close(key);
            assert(order[at] == key);
            assert(order.to_set().contains(key));
        }
    }
    assert(Seq::new(
        count as nat,
        |i: int|
            match actions[i] {
                BoundaryIngressAction::Close(key) => key,
                BoundaryIngressAction::Admit(entry) => entry.key,
            },
    ) =~= order);
}

} // verus!

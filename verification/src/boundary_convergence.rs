//! Frame order does not matter: any arrival order of a contiguous run of frames hands out
//! the same actions and leaves a live boundary.

use vstd::prelude::*;

use crate::boundary_model::{BoundaryState, payload_actions};
use crate::boundary_types::{BoundaryIngressAction, BoundaryIngressEvent};

verus! {

/// What the frames from `from` up to `to` ask of the value plane, in cursor order.
pub open spec fn run_actions<Id, P>(
    events: Seq<BoundaryIngressEvent<Id, P>>,
    from: int,
    to: int,
) -> Seq<BoundaryIngressAction<Id, P>>
    decreases to - from,
{
    if from >= to {
        Seq::empty()
    } else {
        payload_actions(events[from].payload) + run_actions(events, from + 1, to)
    }
}

/// A boundary after some frames were received one after the other, and the actions that
/// were handed out, in the order of handing out.
pub open spec fn received_all<Id, P>(
    state: BoundaryState<Id, P>,
    frames: Seq<BoundaryIngressEvent<Id, P>>,
) -> (BoundaryState<Id, P>, Seq<BoundaryIngressAction<Id, P>>)
    decreases frames.len(),
{
    if frames.len() == 0 {
        (state, Seq::empty())
    } else {
        let (before, actions) = received_all(state, frames.drop_last());
        let (after, transition) = before.received(frames.last());
        (after, actions + transition.actions)
    }
}

/// Two runs that meet are one.
proof fn runs_join<Id, P>(
    events: Seq<BoundaryIngressEvent<Id, P>>,
    from: int,
    middle: int,
    to: int,
)
    requires
        from <= middle <= to,
    ensures
        run_actions(events, from, middle) + run_actions(events, middle, to) == run_actions(
            events,
            from,
            to,
        ),
    decreases middle - from,
{
    if from < middle {
        runs_join(events, from + 1, middle, to);
        assert(run_actions(events, from, middle) + run_actions(events, middle, to) =~=
            payload_actions(events[from].payload) + (run_actions(events, from + 1, middle)
            + run_actions(events, middle, to)));
    } else {
        assert(run_actions(events, from, middle) + run_actions(events, middle, to) =~= run_actions(
            events,
            from,
            to,
        ));
    }
}

/// Whether some frames are a contiguous run behind a cursor, of one generation and without
/// validation facts.
pub open spec fn is_run<Id, P>(
    events: Seq<BoundaryIngressEvent<Id, P>>,
    generation: u64,
    cursor: u64,
) -> bool {
    &&& cursor + events.len() < u64::MAX
    &&& forall|i: int|
        0 <= i < events.len() ==> {
            &&& (#[trigger] events[i]).generation == generation
            &&& events[i].cursor == cursor + 1 + i
            &&& !(events[i].payload is Validate)
        }
}

/// A boundary that has applied the first `count` frames of a run and parked exactly the
/// others that have come in.
spec fn holds<Id, P>(
    state: BoundaryState<Id, P>,
    generation: u64,
    cursor: u64,
    events: Seq<BoundaryIngressEvent<Id, P>>,
    came: Seq<int>,
    count: int,
) -> bool {
    &&& 0 <= count <= events.len()
    &&& state.generation == generation
    &&& state.cursor == Some((cursor + count) as u64)
    &&& state.validation is Valid
    &&& state.buffered.dom().finite()
    &&& state.buffered.len() + count == came.len()
    &&& forall|value: int| 0 <= value < count ==> came.contains(value)
    &&& forall|at: u64| #[trigger]
        state.buffered.contains_key(at) <==> cursor + 1 + count <= at && came.contains(
            at - cursor - 1,
        )
    &&& forall|at: u64| #[trigger]
        state.buffered.contains_key(at) ==> state.buffered[at] == events[at - cursor - 1]
}

/// Draining applies up to the first frame that has not come in.
proof fn drain_settles<Id, P>(
    state: BoundaryState<Id, P>,
    generation: u64,
    cursor: u64,
    events: Seq<BoundaryIngressEvent<Id, P>>,
    came: Seq<int>,
    count: int,
) -> (settled: int)
    requires
        holds(state, generation, cursor, events, came, count),
        is_run(events, generation, cursor),
        forall|i: int| 0 <= i < came.len() ==> 0 <= #[trigger] came[i] < events.len(),
    ensures
        count <= settled,
        holds(state.drained().0, generation, cursor, events, came, settled),
        state.drained().0.config == state.config,
        state.drained().1 == run_actions(events, count, settled),
        !came.contains(settled),
    decreases events.len() - count,
{
    let next = (cursor + count + 1) as u64;
    if state.buffered.contains_key(next) {
        let at = came.index_of(count);
        assert(came.contains(next - cursor - 1));
        assert(came[at] == count);
        let event = state.buffered[next];
        assert(event == events[count]);
        let taken = BoundaryState { buffered: state.buffered.remove(next), ..state };
        let after = taken.applied(event);
        assert(holds(after, generation, cursor, events, came, count + 1));
        drain_settles(after, generation, cursor, events, came, count + 1)
    } else {
        assert(!came.contains(count)) by {
            if came.contains(count) {
                let at = came.index_of(count);
                assert(came[at] == count);
                assert(next - cursor - 1 == count);
                assert(state.buffered.contains_key(next));
            }
        }
        count
    }
}

/// What a prefix of a complete arrival order leaves behind.
proof fn frames_settle<Id, P>(
    state: BoundaryState<Id, P>,
    events: Seq<BoundaryIngressEvent<Id, P>>,
    order: Seq<int>,
    taken: int,
) -> (settled: int)
    requires
        state.wf(),
        state.phase is Live,
        0 <= taken <= order.len(),
        order.len() == events.len(),
        order.no_duplicates(),
        forall|i: int| 0 <= i < order.len() ==> 0 <= #[trigger] order[i] < order.len(),
        forall|value: int| 0 <= value < order.len() ==> order.contains(value),
        is_run(events, state.generation, state.cursor->0),
        order.len() <= state.config.max_buffered + 1,
    ensures
        ({
            let came = order.take(taken);
            let (after, actions) = received_all(state, came.map_values(|i: int| events[i]));
            &&& holds(after, state.generation, state.cursor->0, events, came, settled)
            &&& after.config == state.config
            &&& actions == run_actions(events, 0, settled)
            &&& !came.contains(settled)
            &&& after.buffered.len() == 0 ==> after.phase is Live && after.replay_from is None
        }),
    decreases taken,
{
    let cursor = state.cursor->0;
    let generation = state.generation;
    let came = order.take(taken);
    let frames = came.map_values(|i: int| events[i]);
    if taken == 0 {
        assert(came =~= Seq::empty());
        assert(frames =~= Seq::empty());
        0
    } else {
        let earlier = order.take(taken - 1);
        let before_frames = earlier.map_values(|i: int| events[i]);
        assert(came =~= earlier.push(order[taken - 1]));
        assert(frames.drop_last() =~= before_frames);
        let count = frames_settle(state, events, order, taken - 1);
        let (before, actions) = received_all(state, before_frames);
        let place = order[taken - 1];
        let event = events[place];
        assert(frames.last() == event);
        assert(!earlier.contains(place)) by {
            if earlier.contains(place) {
                let at = earlier.index_of(place);
                assert(earlier[at] == place && order[at] == place);
            }
        }
        assert forall|value: int| came.contains(value) <==> (earlier.contains(value) || value
            == place) by {
            if came.contains(value) {
                let at = came.index_of(value);
                assert(came[at] == value);
                if at < taken - 1 {
                    assert(earlier[at] == value);
                }
            }
            if earlier.contains(value) {
                let at = earlier.index_of(value);
                assert(earlier[at] == value && came[at] == value);
            }
            if value == place {
                assert(came[taken - 1] == value);
            }
        }
        assert forall|i: int| 0 <= i < came.len() implies 0 <= #[trigger] came[i]
            < events.len() by {
            assert(came[i] == order[i]);
        }
        // A frame that was applied already has come in before.
        assert(place >= count);
        assert(!before.buffered.contains_key(event.cursor));
        let (after, transition) = before.received(event);
        if place == count {
            let applied = before.applied(event);
            assert(holds(applied, generation, cursor, events, came, count + 1));
            let settled = drain_settles(applied, generation, cursor, events, came, count + 1);
            let drained = applied.drained().0;
            assert(holds(drained.rephased().bumped(), generation, cursor, events, came, settled));
            runs_join(events, count, count + 1, settled);
            assert(run_actions(events, count + 1, count + 1) =~= Seq::empty());
            assert(run_actions(events, count, count + 1) =~= payload_actions(event.payload));
            runs_join(events, 0, count, settled);
            assert(transition.actions == run_actions(events, count, settled));
            settled
        } else {
            // The gap itself is still to come, so the buffer has a slot left.
            assert(order.contains(count));
            let gap = order.index_of(count);
            assert(order[gap] == count);
            if gap < taken - 1 {
                assert(earlier[gap] == count);
            }
            assert(before.buffered.len() < before.config.max_buffered);
            assert(after.buffered == before.buffered.insert(event.cursor, event));
            assert(holds(after, generation, cursor, events, came, count));
            assert(after.buffered.len() > 0);
            assert(actions + transition.actions =~= actions);
            count
        }
    }
}

/// Whatever the order in which a contiguous run of frames arrives at a live boundary, as
/// long as the buffer can hold all but the frame that closes the gap, the actions handed
/// out are those of the frames in cursor order, each once, and the boundary ends live behind
/// the last frame with nothing parked.
pub proof fn frame_order_does_not_matter<Id, P>(
    state: BoundaryState<Id, P>,
    events: Seq<BoundaryIngressEvent<Id, P>>,
    order: Seq<int>,
)
    requires
        state.wf(),
        state.phase is Live,
        order.len() == events.len(),
        order.no_duplicates(),
        forall|i: int| 0 <= i < order.len() ==> 0 <= #[trigger] order[i] < order.len(),
        forall|value: int| 0 <= value < order.len() ==> order.contains(value),
        is_run(events, state.generation, state.cursor->0),
        order.len() <= state.config.max_buffered + 1,
    ensures
        ({
            let (after, actions) = received_all(state, order.map_values(|i: int| events[i]));
            &&& actions == run_actions(events, 0, events.len() as int)
            &&& after.cursor == Some((state.cursor->0 + events.len()) as u64)
            &&& after.generation == state.generation
            &&& after.buffered == Map::<u64, BoundaryIngressEvent<Id, P>>::empty()
            &&& after.phase is Live
            &&& after.replay_from is None
        }),
{
    let all = order.take(order.len() as int);
    assert(all =~= order);
    let settled = frames_settle(state, events, order, order.len() as int);
    if settled < order.len() {
        assert(order.contains(settled));
    }
    let after = received_all(state, order.map_values(|i: int| events[i])).0;
    assert(after.buffered.dom() =~= Set::empty());
    assert(after.buffered =~= Map::empty());
}

} // verus!

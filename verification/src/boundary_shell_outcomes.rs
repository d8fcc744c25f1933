//! Laws of the boundary cell's operations: what a transition publishes, who stays in the
//! roster, and which actions the value plane carries out.

use vstd::prelude::*;

use crate::boundary_model::{BoundaryState, projected};
use crate::boundary_shell::{BoundaryCellState, acted, framed, rostered, settled};
use crate::boundary_types::BoundaryIngressAction;
use crate::filtering::{all_kept, filter_keeps_what_matches, full_filter, kept_was_there};
use crate::graph::Ledger;
use crate::ingress_model::admitted;
use crate::ingress_shell::IngressCellState;
use crate::merge::MergePolicy;
use crate::value::OrderedKey;

verus! {

/// Whatever a test keeps of some members was among them.
proof fn kept_members_were_there(members: Seq<Seq<char>>, keep: spec_fn(Seq<char>) -> bool)
    ensures
        forall|member: Seq<char>| #[trigger]
            members.filter(keep).contains(member) <==> members.contains(member) && keep(member),
{
    filter_keeps_what_matches(members, keep);
    assert forall|member: Seq<char>| #[trigger]
        members.filter(keep).contains(member) <==> members.contains(member) && keep(member) by {
        if members.filter(keep).contains(member) {
            let place = members.filter(keep).index_of(member);
            assert(members.filter(keep)[place] == member);
            kept_was_there(members, keep, place);
        }
        if members.contains(member) && keep(member) {
            let at = members.index_of(member);
            assert(members[at] == member);
        }
    }
}

/// The roster after a change holds exactly the members: those who stayed keep their order,
/// and those who are new come behind them in theirs. Where nobody came or left, it is as it
/// was.
pub proof fn those_who_stay_keep_their_order(roster: Seq<Seq<char>>, members: Seq<Seq<char>>)
    ensures
        ({
            let after = rostered(roster, members);
            let stayed = roster.filter(|member: Seq<char>| members.contains(member));
            let came = members.filter(|member: Seq<char>| !roster.contains(member));
            &&& forall|member: Seq<char>| #[trigger]
                after.contains(member) <==> members.contains(member)
            &&& after.take(stayed.len() as int) == stayed
            &&& after.skip(stayed.len() as int) == came
            &&& (forall|member: Seq<char>|
                roster.contains(member) <==> #[trigger] members.contains(member)) ==> after
                == roster
        }),
{
    let stays = |member: Seq<char>| members.contains(member);
    let comes = |member: Seq<char>| !roster.contains(member);
    let after = rostered(roster, members);
    let stayed = roster.filter(stays);
    let came = members.filter(comes);
    kept_members_were_there(roster, stays);
    kept_members_were_there(members, comes);
    assert(after.take(stayed.len() as int) =~= stayed);
    assert(after.skip(stayed.len() as int) =~= came);
    assert forall|member: Seq<char>| #[trigger]
        after.contains(member) <==> members.contains(member) by {
        if after.contains(member) {
            let at = after.index_of(member);
            assert(after[at] == member);
            if at < stayed.len() {
                assert(stayed[at] == member);
                assert(stayed.contains(member));
            } else {
                assert(came[at - stayed.len()] == member);
                assert(came.contains(member));
            }
        }
        if members.contains(member) {
            if roster.contains(member) {
                assert(stayed.contains(member));
                let at = stayed.index_of(member);
                assert(after[at] == member);
            } else {
                assert(came.contains(member));
                let at = came.index_of(member);
                assert(after[stayed.len() + at] == member);
            }
        }
    }
    if forall|member: Seq<char>| roster.contains(member) <==> #[trigger] members.contains(member) {
        assert forall|i: int| 0 <= i < roster.len() implies stays(#[trigger] roster[i]) by {
            assert(roster.contains(roster[i]));
        }
        all_kept(roster, stays);
        full_filter(roster, stays);
        if came.len() > 0 {
            assert(came.contains(came[0]));
        }
        assert(after =~= roster);
    }
}

/// The value plane carries actions out one after the other: none do nothing, and one more
/// admits its envelope, or closes its key, on what the others left.
pub proof fn actions_are_carried_out_in_order<Id, T: View, M: MergePolicy<T>>(
    ingress: IngressCellState<Id, T::V>,
    ledger: Ledger,
    actions: Seq<BoundaryIngressAction<Id, T::V>>,
    action: BoundaryIngressAction<Id, T::V>,
)
    ensures
        acted::<Id, T, M>(ingress, ledger, Seq::empty()) == (ingress, ledger),
        ({
            let (before, here) = acted::<Id, T, M>(ingress, ledger, actions);
            let after = acted::<Id, T, M>(ingress, ledger, actions.push(action));
            &&& action matches BoundaryIngressAction::Admit(envelope) ==> after == before.over(
                admitted::<Id, T, M>(before.core, envelope).0,
            ).applied(here, admitted::<Id, T, M>(before.core, envelope).1)
            &&& action matches BoundaryIngressAction::Close(key) ==> after == before.over(
                before.core.closed(key).0,
            ).applied(here, before.core.closed(key).1)
        }),
{
    assert(actions.push(action).drop_last() =~= actions);
}

/// A transition that moves nothing leaves the published observation, the roster and the value
/// plane as they were. Any other publishes what the boundary knows now, brings the roster in
/// line with its members and has the plane carry out the actions. Either way the readers
/// keep what they have.
pub proof fn a_transition_publishes_what_is_known<K: OrderedKey, T: View, M: MergePolicy<T>>(
    cell: BoundaryCellState<K::V, T::V>,
    ingress: IngressCellState<K::V, T::V>,
    ledger: Ledger,
    core: BoundaryState<K::V, T::V>,
    actions: Seq<BoundaryIngressAction<K::V, T::V>>,
    changed: bool,
)
    ensures
        ({
            let (after, plane, later) = settled::<K, T, M>(
                cell,
                ingress,
                ledger,
                core,
                actions,
                changed,
            );
            let moves = changed || actions.len() > 0;
            &&& after.core == core
            &&& !moves ==> {
                &&& after.projection == cell.projection
                &&& after.members == cell.members
                &&& plane == ingress
                &&& later == ledger
            }
            &&& moves ==> {
                &&& after.projection == projected::<K, T::V>(core)
                &&& after.members == rostered(cell.members, projected::<K, T::V>(core).members)
                &&& plane == acted::<K::V, T, M>(ingress, ledger.begun(), actions).0
            }
            &&& after.projection_slot == cell.projection_slot
            &&& after.members_slot == cell.members_slot
            &&& after.readiness == cell.readiness
            &&& after.authority == cell.authority
            &&& after.freshness == cell.freshness
            &&& after.membership == cell.membership
            &&& after.delivery_converged == cell.delivery_converged
            &&& after.validation == cell.validation
            &&& after.effect_intent == cell.effect_intent
        }),
{
}

/// A boundary cell has nine slots: two that depend on nothing, and seven of which the fourth
/// follows the members and the others the observation. None is clean yet.
pub proof fn readers_follow_the_observation(ledger: Ledger)
    ensures
        ({
            let after = framed(ledger);
            let first = ledger.slots.len() as int;
            &&& after.slots.len() == first + 9
            &&& after.slots[first].deps.len() == 0
            &&& after.slots[first + 1].deps.len() == 0
            &&& forall|i: int|
                2 <= i < 9 ==> (#[trigger] after.slots[first + i]).deps == seq![
                    if i == 5 {
                        first + 1
                    } else {
                        first
                    },
                ]
            &&& forall|i: int| 0 <= i < 9 ==> !(#[trigger] after.slots[first + i]).clean
            &&& forall|i: int|
                0 <= i < first ==> #[trigger] after.slots[i] == ledger.slots[i]
            &&& after.walks == ledger.walks
            &&& after.depth == ledger.depth
            &&& after.held == ledger.held
        }),
{
}

} // verus!

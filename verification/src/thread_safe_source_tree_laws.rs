//! Laws of the ordered tree: what builds and edits a forest never puts a node below itself.

use vstd::prelude::*;

use crate::graph::Ledger;
use crate::thread_safe_sem_tree::bounded;
use crate::thread_safe_source_tree::{NodeState, rooted};

verus! {

/// Whether everything below a node is within some number of steps, as deriving from it
/// asks.
pub open spec fn anchored<Id, P>(nodes: Seq<NodeState<Id, P>>, at: int) -> bool {
    exists|depth: nat| bounded(nodes, at, depth)
}

/// Whether no node of a forest is below itself.
pub open spec fn grounded<Id, P>(nodes: Seq<NodeState<Id, P>>) -> bool {
    forall|at: int| 0 <= at < nodes.len() ==> #[trigger] anchored(nodes, at)
}

/// Whether some number of steps leads from one node down to another.
pub open spec fn leads_to<Id, P>(
    nodes: Seq<NodeState<Id, P>>,
    from: int,
    to: int,
    steps: nat,
) -> bool
    decreases steps,
{
    from == to || steps > 0 && exists|id: Id| #[trigger]
        nodes[from].kids.contains_key(id) && leads_to(
            nodes,
            nodes[from].kids[id] as int,
            to,
            (steps - 1) as nat,
        )
}

/// What is within some steps is within more.
proof fn more_steps_bound_as_well<Id, P>(
    nodes: Seq<NodeState<Id, P>>,
    at: int,
    depth: nat,
    more: nat,
)
    requires
        bounded(nodes, at, depth),
        depth <= more,
    ensures
        bounded(nodes, at, more),
    decreases depth,
{
    assert forall|id: Id| #[trigger] nodes[at].kids.contains_key(id) implies bounded(
        nodes,
        nodes[at].kids[id] as int,
        (more - 1) as nat,
    ) by {
        more_steps_bound_as_well(
            nodes,
            nodes[at].kids[id] as int,
            (depth - 1) as nat,
            (more - 1) as nat,
        );
    }
}

/// What is below a node stays within its steps where no node below it gets a child.
proof fn fewer_children_bound_as_well<Id, P>(
    nodes: Seq<NodeState<Id, P>>,
    edited: Seq<NodeState<Id, P>>,
    changed: int,
    at: int,
    depth: nat,
)
    requires
        rooted(nodes),
        0 <= at < nodes.len(),
        bounded(nodes, at, depth),
        !leads_to(nodes, at, changed, depth),
        forall|i: int|
            0 <= i < nodes.len() && i != changed ==> (#[trigger] edited[i]).kids.submap_of(
                nodes[i].kids,
            ),
    ensures
        bounded(edited, at, depth),
    decreases depth,
{
    assert(edited[at].kids.submap_of(nodes[at].kids));
    assert forall|id: Id| #[trigger] edited[at].kids.contains_key(id) implies bounded(
        edited,
        edited[at].kids[id] as int,
        (depth - 1) as nat,
    ) by {
        assert(nodes[at].kids.dom().contains(id) && edited[at].kids.dom().contains(id));
        assert(nodes[at].kids.contains_key(id));
        let kid = nodes[at].kids[id] as int;
        fewer_children_bound_as_well(nodes, edited, changed, kid, (depth - 1) as nat);
    }
}

/// Edits that give no node a child keep a forest grounded.
proof fn fewer_children_stay_grounded<Id, P>(
    nodes: Seq<NodeState<Id, P>>,
    edited: Seq<NodeState<Id, P>>,
)
    requires
        rooted(nodes),
        grounded(nodes),
        edited.len() == nodes.len(),
        forall|i: int|
            0 <= i < nodes.len() ==> (#[trigger] edited[i]).kids.submap_of(nodes[i].kids),
    ensures
        grounded(edited),
{
    assert forall|at: int| 0 <= at < edited.len() implies #[trigger] anchored(edited, at) by {
        assert(anchored(nodes, at));
        let depth = choose|depth: nat| bounded(nodes, at, depth);
        nothing_leads_outside(nodes, at, depth);
        fewer_children_bound_as_well(nodes, edited, -1, at, depth);
    }
}

/// Steps down from a node of a forest stay in the forest.
proof fn nothing_leads_outside<Id, P>(nodes: Seq<NodeState<Id, P>>, at: int, steps: nat)
    requires
        rooted(nodes),
        0 <= at < nodes.len(),
    ensures
        !leads_to(nodes, at, -1, steps),
    decreases steps,
{
    if steps > 0 {
        assert forall|id: Id| #[trigger] nodes[at].kids.contains_key(id) implies !leads_to(
            nodes,
            nodes[at].kids[id] as int,
            -1,
            (steps - 1) as nat,
        ) by {
            nothing_leads_outside(nodes, nodes[at].kids[id] as int, (steps - 1) as nat);
        }
    }
}

/// What is below a node stays bounded where a node below which it does not stand becomes a
/// child of another.
proof fn a_further_child_bounds_as_well<Id, P>(
    nodes: Seq<NodeState<Id, P>>,
    ledger: Ledger,
    parent: int,
    id: Id,
    kid: usize,
    below: nat,
    at: int,
    depth: nat,
)
    requires
        rooted(nodes),
        0 <= at < nodes.len(),
        0 <= parent < nodes.len(),
        kid < nodes.len(),
        !nodes[parent].kids.contains_key(id),
        bounded(nodes, kid as int, below),
        !leads_to(nodes, kid as int, parent, below),
        bounded(nodes, at, depth),
    ensures
        bounded(
            nodes.update(parent, nodes[parent].adopting(ledger, id, kid).0),
            at,
            depth + below,
        ),
    decreases depth,
{
    let edited = nodes.update(parent, nodes[parent].adopting(ledger, id, kid).0);
    let within = (depth + below - 1) as nat;
    assert forall|name: Id| #[trigger] edited[at].kids.contains_key(name) implies bounded(
        edited,
        edited[at].kids[name] as int,
        within,
    ) by {
        if at == parent && name == id {
            fewer_children_bound_as_well(nodes, edited, parent, kid as int, below);
            more_steps_bound_as_well(edited, kid as int, below, within);
        } else {
            assert(nodes[at].kids.contains_key(name));
            a_further_child_bounds_as_well(
                nodes,
                ledger,
                parent,
                id,
                kid,
                below,
                nodes[at].kids[name] as int,
                (depth - 1) as nat,
            );
        }
    }
}

/// A forest in which no node is below itself stays one under all that builds it: under a
/// new leaf, under a leaf that becomes a child, and under a subtree that is attached to a
/// node that is not part of it.
pub proof fn building_keeps_every_node_bounded<Id, P>(
    nodes: Seq<NodeState<Id, P>>,
    ledger: Ledger,
    parent: int,
    id: Id,
    held: P,
    first: int,
    kid: usize,
)
    requires
        rooted(nodes),
        grounded(nodes),
        nodes.len() < usize::MAX,
    ensures
        grounded(Seq::<NodeState<Id, P>>::empty()),
        grounded(nodes.push(NodeState::leaf(id, held, first))),
        0 <= parent < nodes.len() && !nodes[parent].kids.contains_key(id) ==> grounded(
            nodes.push(NodeState::leaf(id, held, first)).update(
                parent,
                nodes[parent].adopting(ledger, id, nodes.len() as usize).0,
            ),
        ),
        0 <= parent < nodes.len() && kid < nodes.len() && !nodes[parent].kids.contains_key(id) && (
        forall|steps: nat| !leads_to(nodes, kid as int, parent, steps)) ==> grounded(
            nodes.update(parent, nodes[parent].adopting(ledger, id, kid).0),
        ),
{
    let leaf = NodeState::leaf(id, held, first);
    let grown = nodes.push(leaf);
    assert(rooted(grown)) by {
        assert forall|at: int| 0 <= at < grown.len() implies (#[trigger] grown[at]).wf() by {
            if at < nodes.len() {
                assert(nodes[at].wf());
            }
        }
        assert forall|at: int, name: Id|
            0 <= at < grown.len() && #[trigger] grown[at].kids.contains_key(name) implies
            grown[at].kids[name] < grown.len() && grown[grown[at].kids[name] as int].key == name by {
            assert(at < nodes.len());
            assert(nodes[at].kids.contains_key(name));
        }
    }
    assert forall|at: int| 0 <= at < grown.len() implies #[trigger] anchored(grown, at) by {
        if at < nodes.len() {
            assert(anchored(nodes, at));
            let depth = choose|depth: nat| bounded(nodes, at, depth);
            nothing_leads_outside(nodes, at, depth);
            fewer_children_bound_as_well(nodes, grown, -1, at, depth);
        } else {
            assert(bounded(grown, at, 1));
        }
    }
    if 0 <= parent < nodes.len() && !nodes[parent].kids.contains_key(id) {
        let place = nodes.len() as usize;
        assert(grown[parent] == nodes[parent]);
        assert(bounded(grown, place as int, 1));
        assert(!leads_to(grown, place as int, parent, 1));
        attaching_stays_grounded(grown, ledger, parent, id, place, 1);
        if kid < nodes.len() && forall|steps: nat| !leads_to(nodes, kid as int, parent, steps) {
            assert(anchored(nodes, kid as int));
            let below = choose|depth: nat| bounded(nodes, kid as int, depth);
            attaching_stays_grounded(nodes, ledger, parent, id, kid, below);
        }
    }
}

/// A forest stays grounded where a node becomes a child of one that is not below it.
proof fn attaching_stays_grounded<Id, P>(
    nodes: Seq<NodeState<Id, P>>,
    ledger: Ledger,
    parent: int,
    id: Id,
    kid: usize,
    below: nat,
)
    requires
        rooted(nodes),
        grounded(nodes),
        0 <= parent < nodes.len(),
        kid < nodes.len(),
        !nodes[parent].kids.contains_key(id),
        bounded(nodes, kid as int, below),
        !leads_to(nodes, kid as int, parent, below),
    ensures
        grounded(nodes.update(parent, nodes[parent].adopting(ledger, id, kid).0)),
{
    let edited = nodes.update(parent, nodes[parent].adopting(ledger, id, kid).0);
    assert forall|at: int| 0 <= at < edited.len() implies #[trigger] anchored(edited, at) by {
        assert(anchored(nodes, at));
        let depth = choose|depth: nat| bounded(nodes, at, depth);
        a_further_child_bounds_as_well(nodes, ledger, parent, id, kid, below, at, depth);
    }
}

/// A forest in which no node is below itself stays one where a child is removed or moved,
/// or a node's value is set.
pub proof fn editing_keeps_every_node_bounded<Id, P>(
    nodes: Seq<NodeState<Id, P>>,
    ledger: Ledger,
    parent: int,
    id: Id,
    from: int,
    to: int,
    held: P,
)
    requires
        rooted(nodes),
        grounded(nodes),
        0 <= parent < nodes.len(),
    ensures
        grounded(nodes.update(parent, nodes[parent].dropping(ledger, id).0)),
        grounded(nodes.update(parent, nodes[parent].moving(ledger, from, to).0)),
        grounded(nodes.update(parent, (NodeState { held, ..nodes[parent] }))),
{
    fewer_children_stay_grounded(
        nodes,
        nodes.update(parent, nodes[parent].dropping(ledger, id).0),
    );
    fewer_children_stay_grounded(
        nodes,
        nodes.update(parent, nodes[parent].moving(ledger, from, to).0),
    );
    fewer_children_stay_grounded(
        nodes,
        nodes.update(parent, (NodeState { held, ..nodes[parent] })),
    );
}

} // verus!

//! Typed state tables: a total pure decision function over a finite product state.
//!
//! A table derives a decision from the current product of independently observed facts
//! and holds nothing itself. The product of finite axes can be enumerated, so a table
//! over it has a row set that can be reviewed and covered.

use vstd::arithmetic::div_mod::lemma_fundamental_div_mod_converse;
use vstd::prelude::*;
use vstd::std_specs::cmp::PartialEqSpec;

use crate::graph::SlotId;
use crate::reactive::{Computed, Context, ReactiveGraph, ThreadSafeContext};

verus! {

/// A total pure transition table: one decision per product state.
///
/// What `decide` gives is a function of its input alone.
pub trait StateTable {
    /// The product state: a finite enum, or a tuple of them.
    type Input;

    /// The exhaustive decision alternative.
    type Decision;

    /// Decides. Total and pure.
    fn decide(input: &Self::Input) -> (decision: Self::Decision);
}

/// A type whose inhabitants can be enumerated, so that a table over it has a row set.
pub trait FiniteState: Sized {
    /// Every inhabitant, in a stable order.
    fn all() -> (states: Vec<Self>);
}

impl FiniteState for bool {
    fn all() -> (states: Vec<Self>)
        ensures
            states@ == seq![false, true],
    {
        vec![false, true]
    }
}

impl FiniteState for () {
    fn all() -> (states: Vec<Self>)
        ensures
            states@ == seq![()],
    {
        vec![()]
    }
}

impl<T: FiniteState> FiniteState for Option<T> {
    fn all() -> (states: Vec<Self>)
        ensures
            exists|present: Vec<T>| #[trigger]
                call_ensures(T::all, (), present) && states@ == seq![None::<T>]
                    + present@.map_values(|state: T| Some(state)),
    {
        let present = T::all();
        let ghost inner = present;
        let mut states: Vec<Option<T>> = Vec::new();
        states.push(None);
        for state in iter: present
            invariant
                states@ == seq![None::<T>] + inner@.take(iter.index() as int).map_values(
                    |state: T| Some(state),
                ),
                iter.seq() == inner@,
        {
            proof {
                assert(inner@.take(iter.index() + 1) =~= inner@.take(iter.index() as int).push(
                    inner@[iter.index() as int],
                ));
            }
            states.push(Some(state));
        }
        proof {
            assert(inner@.take(inner@.len() as int) =~= inner@);
            assert(call_ensures(T::all, (), inner));
        }
        states
    }
}

impl<A: FiniteState> FiniteState for (A,) {
    fn all() -> (states: Vec<Self>)
        ensures
            exists|only: Vec<A>| #[trigger]
                call_ensures(A::all, (), only) && states@ == only@.map_values(|state: A| (state,)),
    {
        let only = A::all();
        let ghost inner = only;
        let mut states: Vec<(A,)> = Vec::new();
        for state in iter: only
            invariant
                states@ == inner@.take(iter.index() as int).map_values(|state: A| (state,)),
                iter.seq() == inner@,
        {
            proof {
                assert(inner@.take(iter.index() + 1) =~= inner@.take(iter.index() as int).push(
                    inner@[iter.index() as int],
                ));
            }
            states.push((state,));
        }
        proof {
            assert(inner@.take(inner@.len() as int) =~= inner@);
            assert(call_ensures(A::all, (), inner));
        }
        states
    }
}

/// Whether a row of 2 axes is a state of the first followed by a row of the others.
pub open spec fn row_of_2<A: Clone, B: Clone>(row: (A, B), head: A, rest: B) -> bool {
    cloned(head, row.0) && cloned(rest, row.1)
}

impl<A: FiniteState + Clone, B: FiniteState + Clone> FiniteState for (A, B) {
    fn all() -> (states: Vec<Self>)
        ensures
            exists|heads: Vec<A>, rests: Vec<B>| #[trigger]
                call_ensures(A::all, (), heads) && #[trigger] call_ensures(B::all, (), rests)
                    && states@.len() == heads@.len() * rests@.len() && forall|k: int|
                    0 <= k < states@.len() ==> row_of_2(
                        #[trigger] states@[k],
                        heads@[k / rests@.len() as int],
                        rests@[k % rests@.len() as int],
                    ),
    {
        let heads = A::all();
        let rests: Vec<B> = B::all();
        let mut states: Vec<(A, B)> = Vec::new();
        let ghost wide = rests@.len() as int;
        let mut i: usize = 0;
        proof {
            assert(0 * wide == 0) by (nonlinear_arith);
        }
        while i < heads.len()
            invariant
                i <= heads@.len(),
                wide == rests@.len(),
                states@.len() == i * wide,
                forall|k: int|
                    0 <= k < states@.len() ==> row_of_2(
                        #[trigger] states@[k],
                        heads@[k / wide],
                        rests@[k % wide],
                    ),
            decreases heads@.len() - i,
        {
            let mut j: usize = 0;
            while j < rests.len()
                invariant
                    i < heads@.len(),
                    j <= rests@.len(),
                    wide == rests@.len(),
                    states@.len() == i * wide + j,
                    forall|k: int|
                        0 <= k < states@.len() ==> row_of_2(
                            #[trigger] states@[k],
                            heads@[k / wide],
                            rests@[k % wide],
                        ),
                decreases rests@.len() - j,
            {
                proof {
                    lemma_fundamental_div_mod_converse(
                        i * wide + j,
                        wide,
                        i as int,
                        j as int,
                    );
                }
                states.push((heads[i].clone(), rests[j].clone()));
                j = j + 1;
            }
            proof {
                assert((i + 1) * wide == i * wide + wide) by (nonlinear_arith);
            }
            i = i + 1;
        }
        proof {
            assert(call_ensures(A::all, (), heads));
            assert(call_ensures(B::all, (), rests));
        }
        states
    }
}

/// Whether a row of 3 axes is a state of the first followed by a row of the others.
pub open spec fn row_of_3<A: Clone, B: Clone, C: Clone>(
    row: (A, B, C),
    head: A,
    rest: (B, C),
) -> bool {
    cloned(head, row.0)
        && cloned(rest.0, row.1)
        && cloned(rest.1, row.2)
}

impl<
    A: FiniteState + Clone,
    B: FiniteState + Clone,
    C: FiniteState + Clone,
> FiniteState for (A, B, C) {
    fn all() -> (states: Vec<Self>)
        ensures
            exists|heads: Vec<A>, rests: Vec<(B, C)>| #[trigger]
                call_ensures(A::all, (), heads) && #[trigger] call_ensures(<(B, C)>::all, (), rests)
                    && states@.len() == heads@.len() * rests@.len() && forall|k: int|
                    0 <= k < states@.len() ==> row_of_3(
                        #[trigger] states@[k],
                        heads@[k / rests@.len() as int],
                        rests@[k % rests@.len() as int],
                    ),
    {
        let heads = A::all();
        let rests: Vec<(B, C)> = <(B, C)>::all();
        let mut states: Vec<(A, B, C)> = Vec::new();
        let ghost wide = rests@.len() as int;
        let mut i: usize = 0;
        proof {
            assert(0 * wide == 0) by (nonlinear_arith);
        }
        while i < heads.len()
            invariant
                i <= heads@.len(),
                wide == rests@.len(),
                states@.len() == i * wide,
                forall|k: int|
                    0 <= k < states@.len() ==> row_of_3(
                        #[trigger] states@[k],
                        heads@[k / wide],
                        rests@[k % wide],
                    ),
            decreases heads@.len() - i,
        {
            let mut j: usize = 0;
            while j < rests.len()
                invariant
                    i < heads@.len(),
                    j <= rests@.len(),
                    wide == rests@.len(),
                    states@.len() == i * wide + j,
                    forall|k: int|
                        0 <= k < states@.len() ==> row_of_3(
                            #[trigger] states@[k],
                            heads@[k / wide],
                            rests@[k % wide],
                        ),
                decreases rests@.len() - j,
            {
                proof {
                    lemma_fundamental_div_mod_converse(
                        i * wide + j,
                        wide,
                        i as int,
                        j as int,
                    );
                }
                states.push((
                    heads[i].clone(),
                    rests[j].0.clone(),
                    rests[j].1.clone(),
                ));
                j = j + 1;
            }
            proof {
                assert((i + 1) * wide == i * wide + wide) by (nonlinear_arith);
            }
            i = i + 1;
        }
        proof {
            assert(call_ensures(A::all, (), heads));
            assert(call_ensures(<(B, C)>::all, (), rests));
        }
        states
    }
}

/// Whether a row of 4 axes is a state of the first followed by a row of the others.
pub open spec fn row_of_4<A: Clone, B: Clone, C: Clone, D: Clone>(
    row: (A, B, C, D),
    head: A,
    rest: (B, C, D),
) -> bool {
    cloned(head, row.0)
        && cloned(rest.0, row.1)
        && cloned(rest.1, row.2)
        && cloned(rest.2, row.3)
}

impl<
    A: FiniteState + Clone,
    B: FiniteState + Clone,
    C: FiniteState + Clone,
    D: FiniteState + Clone,
> FiniteState for (A, B, C, D) {
    fn all() -> (states: Vec<Self>)
        ensures
            exists|heads: Vec<A>, rests: Vec<(B, C, D)>| #[trigger]
                call_ensures(A::all, (), heads) && #[trigger] call_ensures(
                    <(B, C, D)>::all,
                    (),
                    rests,
                )
                    && states@.len() == heads@.len() * rests@.len() && forall|k: int|
                    0 <= k < states@.len() ==> row_of_4(
                        #[trigger] states@[k],
                        heads@[k / rests@.len() as int],
                        rests@[k % rests@.len() as int],
                    ),
    {
        let heads = A::all();
        let rests: Vec<(B, C, D)> = <(B, C, D)>::all();
        let mut states: Vec<(A, B, C, D)> = Vec::new();
        let ghost wide = rests@.len() as int;
        let mut i: usize = 0;
        proof {
            assert(0 * wide == 0) by (nonlinear_arith);
        }
        while i < heads.len()
            invariant
                i <= heads@.len(),
                wide == rests@.len(),
                states@.len() == i * wide,
                forall|k: int|
                    0 <= k < states@.len() ==> row_of_4(
                        #[trigger] states@[k],
                        heads@[k / wide],
                        rests@[k % wide],
                    ),
            decreases heads@.len() - i,
        {
            let mut j: usize = 0;
            while j < rests.len()
                invariant
                    i < heads@.len(),
                    j <= rests@.len(),
                    wide == rests@.len(),
                    states@.len() == i * wide + j,
                    forall|k: int|
                        0 <= k < states@.len() ==> row_of_4(
                            #[trigger] states@[k],
                            heads@[k / wide],
                            rests@[k % wide],
                        ),
                decreases rests@.len() - j,
            {
                proof {
                    lemma_fundamental_div_mod_converse(
                        i * wide + j,
                        wide,
                        i as int,
                        j as int,
                    );
                }
                states.push((
                    heads[i].clone(),
                    rests[j].0.clone(),
                    rests[j].1.clone(),
                    rests[j].2.clone(),
                ));
                j = j + 1;
            }
            proof {
                assert((i + 1) * wide == i * wide + wide) by (nonlinear_arith);
            }
            i = i + 1;
        }
        proof {
            assert(call_ensures(A::all, (), heads));
            assert(call_ensures(<(B, C, D)>::all, (), rests));
        }
        states
    }
}

/// Whether a row of 5 axes is a state of the first followed by a row of the others.
pub open spec fn row_of_5<A: Clone, B: Clone, C: Clone, D: Clone, E: Clone>(
    row: (A, B, C, D, E),
    head: A,
    rest: (B, C, D, E),
) -> bool {
    cloned(head, row.0)
        && cloned(rest.0, row.1)
        && cloned(rest.1, row.2)
        && cloned(rest.2, row.3)
        && cloned(rest.3, row.4)
}

impl<
    A: FiniteState + Clone,
    B: FiniteState + Clone,
    C: FiniteState + Clone,
    D: FiniteState + Clone,
    E: FiniteState + Clone,
> FiniteState for (A, B, C, D, E) {
    fn all() -> (states: Vec<Self>)
        ensures
            exists|heads: Vec<A>, rests: Vec<(B, C, D, E)>| #[trigger]
                call_ensures(A::all, (), heads) && #[trigger] call_ensures(
                    <(B, C, D, E)>::all,
                    (),
                    rests,
                )
                    && states@.len() == heads@.len() * rests@.len() && forall|k: int|
                    0 <= k < states@.len() ==> row_of_5(
                        #[trigger] states@[k],
                        heads@[k / rests@.len() as int],
                        rests@[k % rests@.len() as int],
                    ),
    {
        let heads = A::all();
        let rests: Vec<(B, C, D, E)> = <(B, C, D, E)>::all();
        let mut states: Vec<(A, B, C, D, E)> = Vec::new();
        let ghost wide = rests@.len() as int;
        let mut i: usize = 0;
        proof {
            assert(0 * wide == 0) by (nonlinear_arith);
        }
        while i < heads.len()
            invariant
                i <= heads@.len(),
                wide == rests@.len(),
                states@.len() == i * wide,
                forall|k: int|
                    0 <= k < states@.len() ==> row_of_5(
                        #[trigger] states@[k],
                        heads@[k / wide],
                        rests@[k % wide],
                    ),
            decreases heads@.len() - i,
        {
            let mut j: usize = 0;
            while j < rests.len()
                invariant
                    i < heads@.len(),
                    j <= rests@.len(),
                    wide == rests@.len(),
                    states@.len() == i * wide + j,
                    forall|k: int|
                        0 <= k < states@.len() ==> row_of_5(
                            #[trigger] states@[k],
                            heads@[k / wide],
                            rests@[k % wide],
                        ),
                decreases rests@.len() - j,
            {
                proof {
                    lemma_fundamental_div_mod_converse(
                        i * wide + j,
                        wide,
                        i as int,
                        j as int,
                    );
                }
                states.push((
                    heads[i].clone(),
                    rests[j].0.clone(),
                    rests[j].1.clone(),
                    rests[j].2.clone(),
                    rests[j].3.clone(),
                ));
                j = j + 1;
            }
            proof {
                assert((i + 1) * wide == i * wide + wide) by (nonlinear_arith);
            }
            i = i + 1;
        }
        proof {
            assert(call_ensures(A::all, (), heads));
            assert(call_ensures(<(B, C, D, E)>::all, (), rests));
        }
        states
    }
}

/// Whether a row of 6 axes is a state of the first followed by a row of the others.
pub open spec fn row_of_6<A: Clone, B: Clone, C: Clone, D: Clone, E: Clone, F: Clone>(
    row: (A, B, C, D, E, F),
    head: A,
    rest: (B, C, D, E, F),
) -> bool {
    cloned(head, row.0)
        && cloned(rest.0, row.1)
        && cloned(rest.1, row.2)
        && cloned(rest.2, row.3)
        && cloned(rest.3, row.4)
        && cloned(rest.4, row.5)
}

impl<
    A: FiniteState + Clone,
    B: FiniteState + Clone,
    C: FiniteState + Clone,
    D: FiniteState + Clone,
    E: FiniteState + Clone,
    F: FiniteState + Clone,
> FiniteState for (A, B, C, D, E, F) {
    fn all() -> (states: Vec<Self>)
        ensures
            exists|heads: Vec<A>, rests: Vec<(B, C, D, E, F)>| #[trigger]
                call_ensures(A::all, (), heads) && #[trigger] call_ensures(
                    <(B, C, D, E, F)>::all,
                    (),
                    rests,
                )
                    && states@.len() == heads@.len() * rests@.len() && forall|k: int|
                    0 <= k < states@.len() ==> row_of_6(
                        #[trigger] states@[k],
                        heads@[k / rests@.len() as int],
                        rests@[k % rests@.len() as int],
                    ),
    {
        let heads = A::all();
        let rests: Vec<(B, C, D, E, F)> = <(B, C, D, E, F)>::all();
        let mut states: Vec<(A, B, C, D, E, F)> = Vec::new();
        let ghost wide = rests@.len() as int;
        let mut i: usize = 0;
        proof {
            assert(0 * wide == 0) by (nonlinear_arith);
        }
        while i < heads.len()
            invariant
                i <= heads@.len(),
                wide == rests@.len(),
                states@.len() == i * wide,
                forall|k: int|
                    0 <= k < states@.len() ==> row_of_6(
                        #[trigger] states@[k],
                        heads@[k / wide],
                        rests@[k % wide],
                    ),
            decreases heads@.len() - i,
        {
            let mut j: usize = 0;
            while j < rests.len()
                invariant
                    i < heads@.len(),
                    j <= rests@.len(),
                    wide == rests@.len(),
                    states@.len() == i * wide + j,
                    forall|k: int|
                        0 <= k < states@.len() ==> row_of_6(
                            #[trigger] states@[k],
                            heads@[k / wide],
                            rests@[k % wide],
                        ),
                decreases rests@.len() - j,
            {
                proof {
                    lemma_fundamental_div_mod_converse(
                        i * wide + j,
                        wide,
                        i as int,
                        j as int,
                    );
                }
                states.push((
                    heads[i].clone(),
                    rests[j].0.clone(),
                    rests[j].1.clone(),
                    rests[j].2.clone(),
                    rests[j].3.clone(),
                    rests[j].4.clone(),
                ));
                j = j + 1;
            }
            proof {
                assert((i + 1) * wide == i * wide + wide) by (nonlinear_arith);
            }
            i = i + 1;
        }
        proof {
            assert(call_ensures(A::all, (), heads));
            assert(call_ensures(<(B, C, D, E, F)>::all, (), rests));
        }
        states
    }
}

/// The full row set of a table: every input state paired with its decision.
pub struct TableCoverage<I, D> {
    rows: Vec<(I, D)>,
}

impl<I, D> View for TableCoverage<I, D> {
    type V = Seq<(I, D)>;

    closed spec fn view(&self) -> Seq<(I, D)> {
        self.rows@
    }
}

/// Why a row set fails what was claimed of it.
pub enum CoverageFailure<'a, 'b, I, D> {
    /// A floor of no rows cannot fail.
    ZeroFloor,
    /// Fewer rows than expected.
    TooFewRows {
        /// How many rows there are.
        examined: usize,
        /// How many were expected.
        expected: usize,
    },
    /// No decision was expected.
    NothingExpected,
    /// Rows that contradict the claim.
    Rows(Vec<&'a (I, D)>),
    /// Decisions that no row reaches.
    Unreached(Vec<&'b D>),
}

/// The rows that are marked as wanted, in order.
pub open spec fn marked<I, D>(rows: Seq<(I, D)>, marks: Seq<bool>, want: bool) -> Seq<(I, D)>
    decreases rows.len(),
{
    if rows.len() == 0 {
        Seq::empty()
    } else {
        let fewer = marked(rows.drop_last(), marks.drop_last(), want);
        if marks.last() == want {
            fewer.push(rows.last())
        } else {
            fewer
        }
    }
}

/// What a predicate may answer for some rows.
pub open spec fn answered<I, D, F: Fn(&I, &D) -> bool>(
    pred: F,
    rows: Seq<(I, D)>,
    answers: Seq<bool>,
) -> bool {
    answers.len() == rows.len() && forall|i: int|
        0 <= i < rows.len() ==> call_ensures(
            pred,
            (&rows[i].0, &rows[i].1),
            #[trigger] answers[i],
        )
}

/// The rows for which a predicate answers as wanted, in order.
pub open spec fn picked<I, D, F: Fn(&I, &D) -> bool>(
    pred: F,
    rows: Seq<(I, D)>,
    want: bool,
    hits: Seq<(I, D)>,
) -> bool {
    exists|answers: Seq<bool>| #[trigger]
        answered(pred, rows, answers) && hits == marked(rows, answers, want)
}

/// Whether a row decides this.
pub open spec fn decided_by<I, D: PartialEq>(rows: Seq<(I, D)>, want: D) -> bool {
    exists|i: int| 0 <= i < rows.len() && (#[trigger] rows[i]).1.eq_spec(&want)
}

/// Whether a decision is among some.
pub open spec fn among<D: PartialEq>(expected: Seq<D>, decision: D) -> bool {
    exists|i: int| 0 <= i < expected.len() && (#[trigger] expected[i]).eq_spec(&decision)
}

/// The expected decisions that no row decides, in order.
pub open spec fn dead<I, D: PartialEq>(rows: Seq<(I, D)>, expected: Seq<D>) -> Seq<D>
    decreases expected.len(),
{
    if expected.len() == 0 {
        Seq::empty()
    } else {
        let fewer = dead(rows, expected.drop_last());
        if decided_by(rows, expected.last()) {
            fewer
        } else {
            fewer.push(expected.last())
        }
    }
}

/// The rows that decide something unexpected, in order.
pub open spec fn stray<I, D: PartialEq>(rows: Seq<(I, D)>, expected: Seq<D>) -> Seq<(I, D)>
    decreases rows.len(),
{
    if rows.len() == 0 {
        Seq::empty()
    } else {
        let fewer = stray(rows.drop_last(), expected);
        if among(expected, rows.last().1) {
            fewer
        } else {
            fewer.push(rows.last())
        }
    }
}

impl<I, D> TableCoverage<I, D> {
    /// Every row.
    pub fn rows(&self) -> (rows: &[(I, D)])
        ensures
            rows@ == self@,
    {
        self.rows.as_slice()
    }

    /// Number of rows.
    pub fn len(&self) -> (count: usize)
        ensures
            count == self@.len(),
    {
        self.rows.len()
    }

    /// Whether the row set is empty.
    pub fn is_empty(&self) -> (answer: bool)
        ensures
            answer == (self@.len() == 0),
    {
        self.rows.len() == 0
    }

    /// The decision of every row, in row order.
    pub fn decisions(&self) -> (decisions: Vec<&D>)
        ensures
            decisions@.len() == self@.len(),
            forall|i: int| 0 <= i < self@.len() ==> *(#[trigger] decisions@[i]) == self@[i].1,
    {
        let mut decisions: Vec<&D> = Vec::new();
        let mut index: usize = 0;
        while index < self.rows.len()
            invariant
                index <= self.rows@.len(),
                decisions@.len() == index,
                forall|i: int| 0 <= i < index ==> *(#[trigger] decisions@[i]) == self.rows@[i].1,
            decreases self.rows@.len() - index,
        {
            decisions.push(&self.rows[index].1);
            index = index + 1;
        }
        decisions
    }

    /// Rows for which a predicate answers as wanted.
    fn rows_when<F: Fn(&I, &D) -> bool>(&self, pred: &F, want: bool) -> (hits: Vec<&(I, D)>)
        requires
            forall|input: &I, decision: &D| #[trigger] call_requires(*pred, (input, decision)),
        ensures
            picked(*pred, self@, want, hits@.unref()),
    {
        let mut hits: Vec<&(I, D)> = Vec::new();
        let ghost mut answers: Seq<bool> = Seq::empty();
        let mut index: usize = 0;
        proof {
            assert(self.rows@.take(0) =~= Seq::empty());
            assert(hits@.unref() =~= Seq::empty());
        }
        while index < self.rows.len()
            invariant
                forall|input: &I, decision: &D| #[trigger] call_requires(*pred, (input, decision)),
                index <= self.rows@.len(),
                answers.len() == index,
                forall|i: int|
                    0 <= i < index ==> call_ensures(
                        *pred,
                        (&self.rows@[i].0, &self.rows@[i].1),
                        #[trigger] answers[i],
                    ),
                hits@.unref() == marked(self.rows@.take(index as int), answers, want),
            decreases self.rows@.len() - index,
        {
            let row = &self.rows[index];
            let answer = pred(&row.0, &row.1);
            proof {
                let ghost before = answers;
                answers = answers.push(answer);
                assert(answers.drop_last() =~= before);
                assert(self.rows@.take(index + 1).drop_last() =~= self.rows@.take(index as int));
            }
            if answer == want {
                let ghost before = hits@.unref();
                hits.push(row);
                proof {
                    assert(hits@.unref() =~= before.push(*row));
                }
            }
            index = index + 1;
        }
        proof {
            assert(self.rows@.take(index as int) =~= self.rows@);
            assert(answered(*pred, self@, answers));
        }
        hits
    }

    /// Rows satisfying `pred`.
    pub fn rows_where<F: Fn(&I, &D) -> bool>(&self, pred: F) -> (hits: Vec<&(I, D)>)
        requires
            forall|input: &I, decision: &D| #[trigger] call_requires(pred, (input, decision)),
        ensures
            picked(pred, self@, true, hits@.unref()),
    {
        self.rows_when(&pred, true)
    }

    /// Checks that there are at least `expected` rows. A floor of no rows is refused, as
    /// it cannot fail.
    pub fn assert_at_least(&self, expected: usize) -> (result: Result<
        (),
        CoverageFailure<'_, '_, I, D>,
    >)
        ensures
            match result {
                Ok(_) => 0 < expected <= self@.len(),
                Err(CoverageFailure::ZeroFloor) => expected == 0,
                Err(CoverageFailure::TooFewRows { examined, expected: floor }) => self@.len()
                    < expected && examined == self@.len() && floor == expected,
                Err(_) => false,
            },
    {
        if expected == 0 {
            return Err(CoverageFailure::ZeroFloor);
        }
        if self.rows.len() < expected {
            return Err(CoverageFailure::TooFewRows { examined: self.rows.len(), expected });
        }
        Ok(())
    }

    /// Checks that no row satisfies `pred`. An empty row set fails.
    pub fn assert_no_row<F: Fn(&I, &D) -> bool>(&self, pred: F) -> (result: Result<
        (),
        CoverageFailure<'_, '_, I, D>,
    >)
        requires
            forall|input: &I, decision: &D| #[trigger] call_requires(pred, (input, decision)),
        ensures
            match result {
                Ok(_) => self@.len() > 0 && picked(pred, self@, true, Seq::empty()),
                Err(CoverageFailure::TooFewRows { examined, expected }) => self@.len() == 0
                    && examined == 0 && expected == 1,
                Err(CoverageFailure::Rows(hits)) => self@.len() > 0 && hits@.len() > 0 && picked(
                    pred,
                    self@,
                    true,
                    hits@.unref(),
                ),
                Err(_) => false,
            },
    {
        self.assert_at_least(1)?;
        let hits = self.rows_when(&pred, true);
        if hits.len() > 0 {
            return Err(CoverageFailure::Rows(hits));
        }
        proof {
            assert(hits@.unref() =~= Seq::empty());
        }
        Ok(())
    }

    /// Checks that every row satisfies `pred`. An empty row set fails.
    pub fn assert_every_row<F: Fn(&I, &D) -> bool>(&self, pred: F) -> (result: Result<
        (),
        CoverageFailure<'_, '_, I, D>,
    >)
        requires
            forall|input: &I, decision: &D| #[trigger] call_requires(pred, (input, decision)),
        ensures
            match result {
                Ok(_) => self@.len() > 0 && picked(pred, self@, false, Seq::empty()),
                Err(CoverageFailure::TooFewRows { examined, expected }) => self@.len() == 0
                    && examined == 0 && expected == 1,
                Err(CoverageFailure::Rows(misses)) => self@.len() > 0 && misses@.len() > 0
                    && picked(pred, self@, false, misses@.unref()),
                Err(_) => false,
            },
    {
        self.assert_at_least(1)?;
        let misses = self.rows_when(&pred, false);
        if misses.len() > 0 {
            return Err(CoverageFailure::Rows(misses));
        }
        proof {
            assert(misses@.unref() =~= Seq::empty());
        }
        Ok(())
    }
}

impl<I, D: PartialEq> TableCoverage<I, D> {
    /// Whether a row decides this.
    fn decides(&self, want: &D) -> (answer: bool)
        ensures
            D::obeys_eq_spec() ==> answer == decided_by(self@, *want),
    {
        let mut index: usize = 0;
        while index < self.rows.len()
            invariant
                index <= self.rows@.len(),
                D::obeys_eq_spec() ==> forall|i: int|
                    0 <= i < index ==> !(#[trigger] self.rows@[i]).1.eq_spec(want),
            decreases self.rows@.len() - index,
        {
            if self.rows[index].1 == *want {
                proof {
                    if D::obeys_eq_spec() {
                        assert(self@[index as int].1.eq_spec(want));
                    }
                }
                return true;
            }
            index = index + 1;
        }
        false
    }

    /// Decisions in `expected` that no row produces.
    pub fn unreached_decisions<'b>(&self, expected: &'b [D]) -> (missing: Vec<&'b D>)
        ensures
            D::obeys_eq_spec() ==> missing@.unref() == dead(self@, expected@),
    {
        let mut missing: Vec<&'b D> = Vec::new();
        let mut index: usize = 0;
        proof {
            assert(expected@.take(0) =~= Seq::empty());
            assert(missing@.unref() =~= Seq::empty());
        }
        while index < expected.len()
            invariant
                index <= expected@.len(),
                D::obeys_eq_spec() ==> missing@.unref() == dead(
                    self@,
                    expected@.take(index as int),
                ),
            decreases expected@.len() - index,
        {
            proof {
                assert(expected@.take(index + 1).drop_last() =~= expected@.take(index as int));
            }
            let want = &expected[index];
            if !self.decides(want) {
                let ghost before = missing@.unref();
                missing.push(want);
                proof {
                    assert(missing@.unref() =~= before.push(*want));
                }
            }
            index = index + 1;
        }
        proof {
            assert(expected@.take(index as int) =~= expected@);
        }
        missing
    }

    /// Checks that every decision in `expected` is produced by at least one row.
    pub fn assert_reaches_all<'b>(&self, expected: &'b [D]) -> (result: Result<
        (),
        CoverageFailure<'_, 'b, I, D>,
    >)
        ensures
            match result {
                Ok(_) => expected@.len() > 0 && self@.len() > 0 && (D::obeys_eq_spec() ==> dead(
                    self@,
                    expected@,
                ).len() == 0),
                Err(CoverageFailure::NothingExpected) => expected@.len() == 0,
                Err(CoverageFailure::TooFewRows { examined, expected: floor }) => expected@.len()
                    > 0 && self@.len() == 0 && examined == 0 && floor == 1,
                Err(CoverageFailure::Unreached(missing)) => expected@.len() > 0 && self@.len() > 0
                    && missing@.len() > 0 && (D::obeys_eq_spec() ==> missing@.unref() == dead(
                    self@,
                    expected@,
                )),
                Err(_) => false,
            },
    {
        if expected.len() == 0 {
            return Err(CoverageFailure::NothingExpected);
        }
        if self.rows.len() == 0 {
            return Err(CoverageFailure::TooFewRows { examined: 0, expected: 1 });
        }
        let missing = self.unreached_decisions(expected);
        if missing.len() > 0 {
            return Err(CoverageFailure::Unreached(missing));
        }
        Ok(())
    }

    /// Rows that decide outside `expected`.
    fn outside(&self, expected: &[D]) -> (extra: Vec<&(I, D)>)
        ensures
            D::obeys_eq_spec() ==> extra@.unref() == stray(self@, expected@),
    {
        let mut extra: Vec<&(I, D)> = Vec::new();
        let mut index: usize = 0;
        proof {
            assert(self.rows@.take(0) =~= Seq::empty());
            assert(extra@.unref() =~= Seq::empty());
        }
        while index < self.rows.len()
            invariant
                index <= self.rows@.len(),
                D::obeys_eq_spec() ==> extra@.unref() == stray(
                    self.rows@.take(index as int),
                    expected@,
                ),
            decreases self.rows@.len() - index,
        {
            proof {
                assert(self.rows@.take(index + 1).drop_last() =~= self.rows@.take(index as int));
            }
            let row = &self.rows[index];
            if !is_among(expected, &row.1) {
                let ghost before = extra@.unref();
                extra.push(row);
                proof {
                    assert(extra@.unref() =~= before.push(*row));
                }
            }
            index = index + 1;
        }
        proof {
            assert(self.rows@.take(index as int) =~= self.rows@);
        }
        extra
    }

    /// Checks that the rows produce exactly the decisions in `expected`: none missing,
    /// none extra.
    pub fn assert_decisions_exactly<'b>(&self, expected: &'b [D]) -> (result: Result<
        (),
        CoverageFailure<'_, 'b, I, D>,
    >)
        ensures
            match result {
                Ok(_) => expected@.len() > 0 && self@.len() > 0 && (D::obeys_eq_spec() ==> dead(
                    self@,
                    expected@,
                ).len() == 0 && stray(self@, expected@).len() == 0),
                Err(CoverageFailure::NothingExpected) => expected@.len() == 0,
                Err(CoverageFailure::TooFewRows { examined, expected: floor }) => expected@.len()
                    > 0 && self@.len() == 0 && examined == 0 && floor == 1,
                Err(CoverageFailure::Unreached(missing)) => expected@.len() > 0 && self@.len() > 0
                    && missing@.len() > 0 && (D::obeys_eq_spec() ==> missing@.unref() == dead(
                    self@,
                    expected@,
                )),
                Err(CoverageFailure::Rows(extra)) => expected@.len() > 0 && self@.len() > 0
                    && extra@.len() > 0 && (D::obeys_eq_spec() ==> dead(self@, expected@).len() == 0
                    && extra@.unref() == stray(self@, expected@)),
                Err(_) => false,
            },
    {
        self.assert_reaches_all(expected)?;
        let extra = self.outside(expected);
        if extra.len() > 0 {
            return Err(CoverageFailure::Rows(extra));
        }
        Ok(())
    }
}

/// Whether a decision is among some.
fn is_among<D: PartialEq>(expected: &[D], decision: &D) -> (answer: bool)
    ensures
        D::obeys_eq_spec() ==> answer == among(expected@, *decision),
{
    let mut index: usize = 0;
    while index < expected.len()
        invariant
            index <= expected@.len(),
            D::obeys_eq_spec() ==> forall|i: int|
                0 <= i < index ==> !(#[trigger] expected@[i]).eq_spec(decision),
        decreases expected@.len() - index,
    {
        if expected[index] == *decision {
            proof {
                if D::obeys_eq_spec() {
                    assert(expected@[index as int].eq_spec(decision));
                }
            }
            return true;
        }
        index = index + 1;
    }
    false
}

/// Enumerates every input state and records its decision.
pub fn table_coverage<T: StateTable>() -> (coverage: TableCoverage<T::Input, T::Decision>) where
    T::Input: FiniteState,

    ensures
        exists|inputs: Vec<T::Input>| #[trigger]
            call_ensures(<T::Input as FiniteState>::all, (), inputs) && coverage@.len()
                == inputs@.len() && forall|i: int|
                0 <= i < inputs@.len() ==> (#[trigger] coverage@[i]).0 == inputs@[i]
                    && call_ensures(T::decide, (&inputs@[i],), coverage@[i].1),
{
    let inputs = <T::Input as FiniteState>::all();
    let ghost all = inputs;
    let mut rows: Vec<(T::Input, T::Decision)> = Vec::new();
    for input in iter: inputs
        invariant
            iter.seq() == all@,
            rows@.len() == iter.index(),
            forall|i: int|
                0 <= i < rows@.len() ==> (#[trigger] rows@[i]).0 == all@[i] && call_ensures(
                    T::decide,
                    (&all@[i],),
                    rows@[i].1,
                ),
    {
        let decision = T::decide(&input);
        rows.push((input, decision));
    }
    proof {
        assert(call_ensures(<T::Input as FiniteState>::all, (), all));
    }
    TableCoverage { rows }
}

/// A decision derived from an input reader: what was decided last, for which input.
pub struct DecisionCell<T: StateTable> {
    slot: SlotId,
    input: Option<T::Input>,
    decision: Option<T::Decision>,
}

impl<T: StateTable> DecisionCell<T> {
    /// The slot of the decision.
    pub closed spec fn slot(&self) -> SlotId {
        self.slot
    }

    /// The input that was decided last.
    pub closed spec fn input(&self) -> Option<T::Input> {
        self.input
    }

    /// What was decided last.
    pub closed spec fn decision(&self) -> Option<T::Decision> {
        self.decision
    }

    /// A decision is kept with its input.
    pub closed spec fn wf(&self) -> bool {
        &&& self.input is Some <==> self.decision is Some
        &&& self.input is Some ==> call_ensures(T::decide, (&self.input->0,), self.decision->0)
    }

    /// What is kept is a decision of the table for the kept input.
    pub proof fn wf_facts(&self)
        requires
            self.wf(),
        ensures
            self.input() is Some <==> self.decision() is Some,
            self.input() is Some ==> call_ensures(
                T::decide,
                (&self.input()->0,),
                self.decision()->0,
            ),
    {
    }

    /// The handle of the decision.
    pub fn handle(&self) -> (handle: Computed<T::Decision>)
        ensures
            handle == Computed::<T::Decision>::of(self.slot()),
    {
        Computed::new(self.slot)
    }

    /// Whether the input is to be projected again before the next read.
    pub fn is_stale<G: ReactiveGraph>(&self, ctx: &G) -> (stale: bool)
        requires
            ctx.wf(),
            ctx.ledger().has(self.slot()),
        ensures
            stale == !(ctx.ledger().clean(self.slot()) && self.decision() is Some),
    {
        !(ctx.is_clean(self.slot) && self.decision.is_some())
    }
}

impl<T: StateTable> DecisionCell<T> where T::Input: PartialEq {
    /// Reads the decision for an input. The same input again decides nothing anew.
    pub fn get<G: ReactiveGraph>(
        &mut self,
        ctx: &mut G,
        input: T::Input,
    ) -> (decision: &T::Decision)
        requires
            old(ctx).wf(),
            old(self).wf(),
            old(ctx).ledger().has(old(self).slot()),
        ensures
            final(ctx).wf(),
            final(self).wf(),
            final(self).slot() == old(self).slot(),
            final(ctx).ledger() == old(ctx).ledger().settled(old(self).slot()),
            final(self).decision() == Some(*decision),
            ({
                let kept = final(self).input() == old(self).input() && final(self).decision()
                    == old(self).decision();
                let decided = final(self).input() == Some(input);
                &&& kept || decided
                &&& <T::Input as PartialEqSpec>::obeys_eq_spec() ==> if old(self).input() is Some
                    && old(self).input()->0.eq_spec(&input) {
                    kept
                } else {
                    decided
                }
            }),
    {
        ctx.settle(self.slot);
        let same = match &self.input {
            Some(earlier) => *earlier == input,
            None => false,
        };
        if !same {
            let decision = T::decide(&input);
            self.decision = Some(decision);
            self.input = Some(input);
        }
        self.decision.as_ref().unwrap()
    }
}

/// Wires a table over an existing input reader.
fn wire<T: StateTable, G: ReactiveGraph>(ctx: &mut G, input: SlotId) -> (decision: DecisionCell<T>)
    requires
        old(ctx).wf(),
        old(ctx).ledger().has(input),
    ensures
        final(ctx).wf(),
        decision.wf(),
        decision.slot().index == old(ctx).ledger().slots.len(),
        decision.input() is None,
        decision.decision() is None,
        final(ctx).ledger() == old(ctx).ledger().allocated(seq![input.index as int]),
{
    let mut deps: Vec<SlotId> = Vec::new();
    deps.push(input);
    proof {
        assert(deps@.map_values(|slot: SlotId| slot.index as int) =~= seq![input.index as int]);
    }
    DecisionCell { slot: ctx.allocate(deps), input: None, decision: None }
}

/// Wires a table over an existing input reader.
pub fn state_table<T: StateTable>(ctx: &mut Context, input: Computed<T::Input>) -> (decision:
    DecisionCell<T>)
    requires
        old(ctx).wf(),
        old(ctx).ledger().has(input.slot()),
    ensures
        final(ctx).wf(),
        decision.wf(),
        decision.slot().index == old(ctx).ledger().slots.len(),
        decision.input() is None,
        decision.decision() is None,
        final(ctx).ledger() == old(ctx).ledger().allocated(seq![input.slot().index as int]),
{
    wire::<T, Context>(ctx, input.id())
}

/// Wires a projection of some sources, and a table over it.
pub fn projected_state_table<T: StateTable>(ctx: &mut Context, sources: Vec<SlotId>) -> (decision:
    DecisionCell<T>)
    requires
        old(ctx).wf(),
        forall|i: int| 0 <= i < sources@.len() ==> old(ctx).ledger().has(#[trigger] sources@[i]),
    ensures
        final(ctx).wf(),
        decision.wf(),
        decision.slot().index == old(ctx).ledger().slots.len() + 1,
        decision.input() is None,
        decision.decision() is None,
        final(ctx).ledger() == old(ctx).ledger().allocated(
            sources@.map_values(|slot: SlotId| slot.index as int),
        ).allocated(seq![old(ctx).ledger().slots.len() as int]),
{
    let input = ctx.allocate(sources);
    wire::<T, Context>(ctx, input)
}

/// Wires a table over an existing input reader on a shared context.
pub fn thread_safe_state_table<T: StateTable>(
    ctx: &mut ThreadSafeContext,
    input: Computed<T::Input>,
) -> (decision: DecisionCell<T>)
    requires
        old(ctx).wf(),
        old(ctx).ledger().has(input.slot()),
    ensures
        final(ctx).wf(),
        decision.wf(),
        decision.slot().index == old(ctx).ledger().slots.len(),
        decision.input() is None,
        decision.decision() is None,
        final(ctx).ledger() == old(ctx).ledger().allocated(seq![input.slot().index as int]),
{
    wire::<T, ThreadSafeContext>(ctx, input.id())
}

/// Wires a projection of some sources, and a table over it on a shared context.
pub fn thread_safe_projected_state_table<T: StateTable>(
    ctx: &mut ThreadSafeContext,
    sources: Vec<SlotId>,
) -> (decision: DecisionCell<T>)
    requires
        old(ctx).wf(),
        forall|i: int| 0 <= i < sources@.len() ==> old(ctx).ledger().has(#[trigger] sources@[i]),
    ensures
        final(ctx).wf(),
        decision.wf(),
        decision.slot().index == old(ctx).ledger().slots.len() + 1,
        decision.input() is None,
        decision.decision() is None,
        final(ctx).ledger() == old(ctx).ledger().allocated(
            sources@.map_values(|slot: SlotId| slot.index as int),
        ).allocated(seq![old(ctx).ledger().slots.len() as int]),
{
    let input = ctx.allocate(sources);
    wire::<T, ThreadSafeContext>(ctx, input)
}

/// Where no expected decision is dead, every one of them is decided by a row, and the
/// other way round.
pub proof fn nothing_dead_means_every_decision_has_a_row<I, D: PartialEq>(
    rows: Seq<(I, D)>,
    expected: Seq<D>,
)
    ensures
        dead(rows, expected).len() == 0 <==> forall|i: int|
            0 <= i < expected.len() ==> decided_by(rows, #[trigger] expected[i]),
    decreases expected.len(),
{
    if expected.len() > 0 {
        let fewer = expected.drop_last();
        nothing_dead_means_every_decision_has_a_row(rows, fewer);
        if dead(rows, expected).len() == 0 {
            assert forall|i: int| 0 <= i < expected.len() implies decided_by(
                rows,
                #[trigger] expected[i],
            ) by {
                if i < fewer.len() {
                    assert(fewer[i] == expected[i]);
                }
            }
        }
        if forall|i: int| 0 <= i < expected.len() ==> decided_by(rows, #[trigger] expected[i]) {
            assert(decided_by(rows, expected[expected.len() - 1]));
            assert forall|i: int| 0 <= i < fewer.len() implies decided_by(
                rows,
                #[trigger] fewer[i],
            ) by {
                assert(fewer[i] == expected[i]);
            }
        }
    }
}

/// Where no row is a stray, every row decides something expected, and the other way
/// round.
pub proof fn nothing_stray_means_every_row_is_expected<I, D: PartialEq>(
    rows: Seq<(I, D)>,
    expected: Seq<D>,
)
    ensures
        stray(rows, expected).len() == 0 <==> forall|i: int|
            0 <= i < rows.len() ==> among(expected, (#[trigger] rows[i]).1),
    decreases rows.len(),
{
    if rows.len() > 0 {
        let fewer = rows.drop_last();
        nothing_stray_means_every_row_is_expected(fewer, expected);
        if stray(rows, expected).len() == 0 {
            assert forall|i: int| 0 <= i < rows.len() implies among(
                expected,
                (#[trigger] rows[i]).1,
            ) by {
                if i < fewer.len() {
                    assert(fewer[i] == rows[i]);
                }
            }
        }
        if forall|i: int| 0 <= i < rows.len() ==> among(expected, (#[trigger] rows[i]).1) {
            assert(among(expected, rows[rows.len() - 1].1));
            assert forall|i: int| 0 <= i < fewer.len() implies among(
                expected,
                (#[trigger] fewer[i]).1,
            ) by {
                assert(fewer[i] == rows[i]);
            }
        }
    }
}

/// Where no row is marked as wanted, every mark is the other one.
pub proof fn nothing_marked_means_every_row_differs<I, D>(
    rows: Seq<(I, D)>,
    marks: Seq<bool>,
    want: bool,
)
    requires
        marks.len() == rows.len(),
    ensures
        marked(rows, marks, want).len() == 0 <==> forall|i: int|
            0 <= i < rows.len() ==> #[trigger] marks[i] != want,
    decreases rows.len(),
{
    if rows.len() > 0 {
        let fewer = marks.drop_last();
        nothing_marked_means_every_row_differs(rows.drop_last(), fewer, want);
        if marked(rows, marks, want).len() == 0 {
            assert forall|i: int| 0 <= i < rows.len() implies #[trigger] marks[i] != want by {
                if i < fewer.len() {
                    assert(fewer[i] == marks[i]);
                }
            }
        }
        if forall|i: int| 0 <= i < rows.len() ==> #[trigger] marks[i] != want {
            assert(marks[rows.len() - 1] != want);
            assert forall|i: int| 0 <= i < fewer.len() implies #[trigger] fewer[i] != want by {
                assert(fewer[i] == marks[i]);
            }
        }
    }
}

} // verus!

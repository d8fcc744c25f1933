//! Laws of table coverage: which rows and which decisions a claim is held against.

use vstd::prelude::*;
use vstd::std_specs::cmp::PartialEqSpec;

use crate::state_table::{
    answered, dead, marked, picked, row_of_2, row_of_3, row_of_4, row_of_5, row_of_6, stray,
};

verus! {

/// The rows that a test marks are the rows that pass it, in order, and those that it does not
/// mark are the others.
pub proof fn marked_rows_are_those_that_pass<I, D>(
    rows: Seq<(I, D)>,
    marks: Seq<bool>,
    want: bool,
    test: spec_fn((I, D)) -> bool,
)
    requires
        marks.len() == rows.len(),
        forall|i: int| 0 <= i < rows.len() ==> #[trigger] marks[i] == test(rows[i]),
    ensures
        marked(rows, marks, want) == rows.filter(|row: (I, D)| test(row) == want),
    decreases rows.len(),
{
    reveal(Seq::filter);
    let keep = |row: (I, D)| test(row) == want;
    if rows.len() > 0 {
        let fewer = rows.drop_last();
        let shorter = marks.drop_last();
        assert forall|i: int| 0 <= i < fewer.len() implies #[trigger] shorter[i] == test(
            fewer[i],
        ) by {
            assert(shorter[i] == marks[i]);
        }
        marked_rows_are_those_that_pass(fewer, shorter, want, test);
        assert(marks[rows.len() - 1] == test(rows[rows.len() - 1]));
        assert(marked(rows, marks, want) =~= rows.filter(keep));
    } else {
        assert(marked(rows, marks, want) =~= rows.filter(keep));
    }
}

/// Where a predicate answers each row as a test says, the rows that are picked by it are those
/// that pass the test, or those that do not, in order.
pub proof fn picked_rows_are_those_that_pass<I, D, F: Fn(&I, &D) -> bool>(
    pred: F,
    rows: Seq<(I, D)>,
    want: bool,
    hits: Seq<(I, D)>,
    test: spec_fn((I, D)) -> bool,
)
    requires
        picked(pred, rows, want, hits),
        forall|i: int, answer: bool|
            0 <= i < rows.len() && #[trigger] call_ensures(
                pred,
                (&rows[i].0, &rows[i].1),
                answer,
            ) ==> answer == test(rows[i]),
    ensures
        hits == rows.filter(|row: (I, D)| test(row) == want),
{
    let answers = choose|answers: Seq<bool>| #[trigger]
        answered(pred, rows, answers) && hits == marked(rows, answers, want);
    assert forall|i: int| 0 <= i < rows.len() implies #[trigger] answers[i] == test(rows[i]) by {
        assert(call_ensures(pred, (&rows[i].0, &rows[i].1), answers[i]));
    }
    marked_rows_are_those_that_pass(rows, answers, want, test);
}

/// The dead decisions are the expected ones that differ from what every row decides, in
/// order.
pub proof fn dead_decisions_differ_from_every_row<I, D: PartialEq>(
    rows: Seq<(I, D)>,
    expected: Seq<D>,
)
    ensures
        dead(rows, expected) == expected.filter(
            |want: D|
                forall|i: int| 0 <= i < rows.len() ==> !(#[trigger] rows[i]).1.eq_spec(&want),
        ),
    decreases expected.len(),
{
    reveal(Seq::filter);
    let differs = |want: D|
        forall|i: int| 0 <= i < rows.len() ==> !(#[trigger] rows[i]).1.eq_spec(&want);
    if expected.len() > 0 {
        dead_decisions_differ_from_every_row(rows, expected.drop_last());
    }
    assert(dead(rows, expected) =~= expected.filter(differs));
}

/// The stray rows are those whose decision differs from every expected one, in order.
pub proof fn stray_rows_differ_from_everything_expected<I, D: PartialEq>(
    rows: Seq<(I, D)>,
    expected: Seq<D>,
)
    ensures
        stray(rows, expected) == rows.filter(
            |row: (I, D)|
                forall|i: int|
                    0 <= i < expected.len() ==> !(#[trigger] expected[i]).eq_spec(&row.1),
        ),
    decreases rows.len(),
{
    reveal(Seq::filter);
    let differs = |row: (I, D)|
        forall|i: int| 0 <= i < expected.len() ==> !(#[trigger] expected[i]).eq_spec(&row.1);
    if rows.len() > 0 {
        stray_rows_differ_from_everything_expected(rows.drop_last(), expected);
    }
    assert(stray(rows, expected) =~= rows.filter(differs));
}

/// A row of a product keeps its axes: each of its parts is a copy of the state of that axis
/// that it was made from.
pub proof fn rows_keep_their_axes<A: Clone, B: Clone, C: Clone, D: Clone, E: Clone, F: Clone>(
    row: (A, B, C, D, E, F),
    head: A,
    rest: (B, C, D, E, F),
)
    requires
        row_of_6(row, head, rest),
    ensures
        cloned(head, row.0),
        cloned(rest.0, row.1),
        cloned(rest.1, row.2),
        cloned(rest.2, row.3),
        cloned(rest.3, row.4),
        cloned(rest.4, row.5),
        row_of_5(
            (row.0, row.1, row.2, row.3, row.4),
            head,
            (rest.0, rest.1, rest.2, rest.3),
        ),
        row_of_4((row.0, row.1, row.2, row.3), head, (rest.0, rest.1, rest.2)),
        row_of_3((row.0, row.1, row.2), head, (rest.0, rest.1)),
        row_of_2((row.0, row.1), head, rest.0),
{
}

/// A row of fewer axes is a copy of its parts in their places, too.
pub proof fn rows_of_fewer_axes_keep_them<A: Clone, B: Clone, C: Clone, D: Clone, E: Clone>(
    row: (A, B, C, D, E),
    head: A,
    rest: (B, C, D, E),
)
    ensures
        row_of_2((row.0, row.1), head, rest.0) <==> cloned(head, row.0) && cloned(rest.0, row.1),
        row_of_3((row.0, row.1, row.2), head, (rest.0, rest.1)) <==> row_of_2(
            (row.0, row.1),
            head,
            rest.0,
        ) && cloned(rest.1, row.2),
        row_of_4((row.0, row.1, row.2, row.3), head, (rest.0, rest.1, rest.2)) <==> row_of_3(
            (row.0, row.1, row.2),
            head,
            (rest.0, rest.1),
        ) && cloned(rest.2, row.3),
        row_of_5(row, head, rest) <==> row_of_4(
            (row.0, row.1, row.2, row.3),
            head,
            (rest.0, rest.1, rest.2),
        ) && cloned(rest.3, row.4),
{
}

} // verus!

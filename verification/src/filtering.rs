//! What filtering a sequence keeps.

use vstd::prelude::*;

verus! {

/// A filter keeps what it is asked to keep, and that alone.
pub proof fn filter_keeps_what_matches<A>(items: Seq<A>, keep: spec_fn(A) -> bool)
    ensures
        forall|i: int|
            0 <= i < items.filter(keep).len() ==> keep(#[trigger] items.filter(keep)[i]),
        forall|i: int|
            0 <= i < items.len() && keep(items[i]) ==> items.filter(keep).contains(
                #[trigger] items[i],
            ),
        items.filter(keep).len() <= items.len(),
{
    items.lemma_filter_len(keep);
    assert forall|i: int| 0 <= i < items.filter(keep).len() implies keep(
        #[trigger] items.filter(keep)[i],
    ) by {
        items.lemma_filter_pred(keep, i);
    }
    assert forall|i: int| 0 <= i < items.len() && keep(items[i]) implies items.filter(
        keep,
    ).contains(#[trigger] items[i]) by {
        items.lemma_filter_contains(keep, i);
    }
}

/// What a filter keeps was there before.
pub proof fn kept_was_there<A>(items: Seq<A>, keep: spec_fn(A) -> bool, place: int)
    requires
        0 <= place < items.filter(keep).len(),
    ensures
        items.contains(items.filter(keep)[place]),
    decreases items.len(),
{
    reveal(Seq::filter);
    if items.len() > 0 {
        let shorter = items.drop_last().filter(keep);
        if place < shorter.len() {
            kept_was_there(items.drop_last(), keep, place);
            let kept = items.filter(keep)[place];
            let at = items.drop_last().index_of(kept);
            assert(items.drop_last()[at] == kept);
            assert(items[at] == kept);
        } else {
            assert(items[items.len() - 1] == items.last());
        }
    }
}

/// A filter that keeps every item changes nothing.
pub proof fn full_filter<A>(items: Seq<A>, keep: spec_fn(A) -> bool)
    requires
        items.filter(keep).len() == items.len(),
    ensures
        items.filter(keep) == items,
    decreases items.len(),
{
    reveal(Seq::filter);
    if items.len() > 0 {
        let shorter = items.drop_last();
        shorter.lemma_filter_len(keep);
        full_filter(shorter, keep);
        assert(items.filter(keep) =~= items);
    }
}

/// Leaving off a first element that is filtered out changes nothing.
pub proof fn a_miss_leaves_nothing<A>(items: Seq<A>, keeps: spec_fn(A) -> bool)
    requires
        items.len() > 0,
        !keeps(items[0]),
    ensures
        items.skip(1).filter(keeps) == items.filter(keeps),
    decreases items.len(),
{
    reveal(Seq::filter);
    if items.len() == 1 {
        assert(items.drop_last() =~= Seq::empty());
        assert(items.skip(1) =~= Seq::empty());
    } else {
        a_miss_leaves_nothing(items.drop_last(), keeps);
        assert(items.skip(1).drop_last() =~= items.drop_last().skip(1));
    }
}

/// A filter of different items gives different items that were there.
pub proof fn filtered_stays_distinct<A>(items: Seq<A>, keep: spec_fn(A) -> bool)
    requires
        items.no_duplicates(),
    ensures
        items.filter(keep).no_duplicates(),
        forall|i: int|
            0 <= i < items.filter(keep).len() ==> items.contains(#[trigger] items.filter(keep)[i])
                && keep(items.filter(keep)[i]),
    decreases items.len(),
{
    reveal(Seq::filter);
    if items.len() > 0 {
        let shorter = items.drop_last();
        assert forall|i: int, j: int| 0 <= i < shorter.len() && 0 <= j < shorter.len() && i
            != j implies shorter[i] != shorter[j] by {
            assert(shorter[i] == items[i] && shorter[j] == items[j]);
        }
        filtered_stays_distinct(shorter, keep);
        let kept = items.filter(keep);
        let earlier = shorter.filter(keep);
        assert forall|i: int| 0 <= i < kept.len() implies items.contains(#[trigger] kept[i]) && keep(
            kept[i],
        ) by {
            if i < earlier.len() {
                assert(kept[i] == earlier[i]);
                let at = shorter.index_of(earlier[i]);
                assert(shorter[at] == earlier[i] && items[at] == kept[i]);
            } else {
                assert(items[items.len() - 1] == kept[i]);
            }
        }
        assert forall|i: int, j: int| 0 <= i < kept.len() && 0 <= j < kept.len() && i
            != j implies kept[i] != kept[j] by {
            if i < earlier.len() && j < earlier.len() {
                assert(kept[i] == earlier[i] && kept[j] == earlier[j]);
            } else {
                let low = if i < j {
                    i
                } else {
                    j
                };
                assert(kept[low] == earlier[low]);
                let at = shorter.index_of(earlier[low]);
                assert(shorter[at] == earlier[low] && items[at] == earlier[low]);
                assert(items[items.len() - 1] == items.last());
            }
        }
    }
}

/// Tests that agree on every item keep the same ones.
pub proof fn agreeing_filters<A>(items: Seq<A>, one: spec_fn(A) -> bool, other: spec_fn(A) -> bool)
    requires
        forall|i: int| 0 <= i < items.len() ==> one(#[trigger] items[i]) == other(items[i]),
    ensures
        items.filter(one) == items.filter(other),
    decreases items.len(),
{
    reveal(Seq::filter);
    if items.len() > 0 {
        let fewer = items.drop_last();
        assert forall|i: int| 0 <= i < fewer.len() implies one(#[trigger] fewer[i]) == other(
            fewer[i],
        ) by {
            assert(fewer[i] == items[i]);
        }
        agreeing_filters(fewer, one, other);
        assert(items[items.len() - 1] == items.last());
    }
}

/// A test that everything passes keeps everything.
pub proof fn all_kept<A>(items: Seq<A>, keep: spec_fn(A) -> bool)
    requires
        forall|i: int| 0 <= i < items.len() ==> keep(#[trigger] items[i]),
    ensures
        items.filter(keep).len() == items.len(),
    decreases items.len(),
{
    reveal(Seq::filter);
    if items.len() > 0 {
        let fewer = items.drop_last();
        assert forall|i: int| 0 <= i < fewer.len() implies keep(#[trigger] fewer[i]) by {
            assert(fewer[i] == items[i]);
        }
        all_kept(fewer, keep);
        assert(items[items.len() - 1] == items.last());
    }
}

} // verus!

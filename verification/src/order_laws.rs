//! Laws of the order of keys: numbers go by size, texts by their first difference.

use vstd::prelude::*;
use vstd::utf8::*;

use crate::sorted::{ascending, in_order, in_order_exists};
use crate::value::{OrderedKey, lex_less, text_code};

verus! {

/// Whether two sequences first differ at a place where the first is smaller or ends.
pub open spec fn falls_behind_at(a: Seq<int>, b: Seq<int>, at: int) -> bool {
    &&& 0 <= at <= a.len()
    &&& at < b.len()
    &&& forall|i: int| 0 <= i < at ==> #[trigger] a[i] == b[i]
    &&& at < a.len() ==> a[at] < b[at]
}

/// One sequence comes before another exactly where they agree up to a place at which it is
/// smaller or ends.
pub proof fn the_first_difference_decides(a: Seq<int>, b: Seq<int>)
    ensures
        lex_less(a, b) <==> exists|at: int| falls_behind_at(a, b, at),
    decreases a.len(),
{
    if b.len() > 0 && a.len() > 0 && a[0] == b[0] {
        let left = a.skip(1);
        let right = b.skip(1);
        the_first_difference_decides(left, right);
        if lex_less(left, right) {
            let at = choose|at: int| falls_behind_at(left, right, at);
            assert forall|i: int| 0 <= i < at + 1 implies #[trigger] a[i] == b[i] by {
                if i > 0 {
                    assert(left[i - 1] == right[i - 1]);
                }
            }
            assert(falls_behind_at(a, b, at + 1));
        }
        if exists|at: int| falls_behind_at(a, b, at) {
            let at = choose|at: int| falls_behind_at(a, b, at);
            assert forall|i: int| 0 <= i < at - 1 implies #[trigger] left[i] == right[i] by {
                assert(a[i + 1] == b[i + 1]);
            }
            assert(falls_behind_at(left, right, at - 1));
        }
    } else if b.len() > 0 {
        if lex_less(a, b) {
            assert(falls_behind_at(a, b, 0));
        }
        if exists|at: int| falls_behind_at(a, b, at) {
            let at = choose|at: int| falls_behind_at(a, b, at);
            if at > 0 {
                assert(a[0] == b[0]);
            }
        }
    }
}

/// Numbers are ordered by size.
pub proof fn numbers_go_by_size(a: u64, b: u64, c: u32, d: u32)
    ensures
        lex_less(<u64 as OrderedKey>::code(a), <u64 as OrderedKey>::code(b)) <==> a < b,
        lex_less(<u32 as OrderedKey>::code(c), <u32 as OrderedKey>::code(d)) <==> c < d,
{
    reveal_with_fuel(lex_less, 2);
}

/// Texts are ordered by their bytes: one comes before another exactly where their bytes agree
/// up to a place at which its byte is smaller or it ends.
pub proof fn texts_go_by_their_bytes(a: Seq<char>, b: Seq<char>)
    ensures
        <String as OrderedKey>::code(a) == text_code(a),
        <&'static str as OrderedKey>::code(a) == text_code(a),
        lex_less(text_code(a), text_code(b)) <==> exists|at: int|
            {
                &&& 0 <= at <= encode_utf8(a).len()
                &&& at < encode_utf8(b).len()
                &&& #[trigger] encode_utf8(a).take(at) == encode_utf8(b).take(at)
                &&& at < encode_utf8(a).len() ==> encode_utf8(a)[at] < encode_utf8(b)[at]
            },
{
    let one = encode_utf8(a);
    let other = encode_utf8(b);
    the_first_difference_decides(text_code(a), text_code(b));
    if exists|at: int| falls_behind_at(text_code(a), text_code(b), at) {
        let at = choose|at: int| falls_behind_at(text_code(a), text_code(b), at);
        assert forall|i: int| 0 <= i < at implies one[i] == other[i] by {
            assert(text_code(a)[i] == text_code(b)[i]);
        }
        assert(one.take(at) =~= other.take(at));
    }
    if exists|at: int|
        {
            &&& 0 <= at <= one.len()
            &&& at < other.len()
            &&& #[trigger] one.take(at) == other.take(at)
            &&& at < one.len() ==> one[at] < other[at]
        } {
        let at = choose|at: int|
            {
                &&& 0 <= at <= one.len()
                &&& at < other.len()
                &&& #[trigger] one.take(at) == other.take(at)
                &&& at < one.len() ==> one[at] < other[at]
            };
        assert forall|i: int| 0 <= i < at implies #[trigger] text_code(a)[i] == text_code(b)[i] by {
            assert(one.take(at)[i] == other.take(at)[i]);
        }
        assert(falls_behind_at(text_code(a), text_code(b), at));
    }
}

/// The members of a finite set in order are each of them once, every one before all that come
/// after it.
pub proof fn members_in_order_are_ascending<K: OrderedKey>(ids: Set<K::V>)
    requires
        ids.finite(),
    ensures
        ascending::<K>(in_order::<K>(ids)),
        forall|id: K::V| #[trigger] in_order::<K>(ids).contains(id) <==> ids.contains(id),
        forall|i: int, j: int|
            0 <= i < j < in_order::<K>(ids).len() ==> lex_less(
                K::code(#[trigger] in_order::<K>(ids)[i]),
                K::code(#[trigger] in_order::<K>(ids)[j]),
            ),
{
    in_order_exists::<K>(ids);
    assert forall|id: K::V| #[trigger] in_order::<K>(ids).contains(id) <==> ids.contains(id) by {
        assert(in_order::<K>(ids).to_set().contains(id) <==> ids.contains(id));
    }
}

} // verus!

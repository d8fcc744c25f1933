//! What the library asks of the keys and payloads it stores.
//!
//! Contracts speak of a key or a payload by its view, so the two traits say the
//! little that the collections and the cells rely on: that a duplicate has the
//! same view, that two keys compare equal exactly when their views are equal, and
//! (for sorted collections) that keys are ordered by a sequence of integers.

use vstd::prelude::*;
use vstd::utf8::*;

verus! {

/// A value that the library can hand out more than once.
pub trait Datum: View + Sized {
    /// A value with the same view.
    fn duplicate(&self) -> (copy: Self)
        ensures
            copy@ == self@,
    ;
}

/// An identity: a value that can be told apart from others of its type.
pub trait Key: Datum {
    /// Whether both are the same identity.
    fn same(&self, other: &Self) -> (answer: bool)
        ensures
            answer == (self@ == other@),
    ;
}

/// Strict lexicographic order on integer sequences; a proper prefix comes first.
pub open spec fn lex_less(a: Seq<int>, b: Seq<int>) -> bool
    decreases a.len(),
{
    if b.len() == 0 {
        false
    } else if a.len() == 0 {
        true
    } else if a[0] != b[0] {
        a[0] < b[0]
    } else {
        lex_less(a.skip(1), b.skip(1))
    }
}

/// Nothing comes before itself.
pub proof fn lex_less_irreflexive(a: Seq<int>)
    ensures
        !lex_less(a, a),
    decreases a.len(),
{
    if a.len() > 0 {
        lex_less_irreflexive(a.skip(1));
    }
}

/// The order is transitive.
pub proof fn lex_less_transitive(a: Seq<int>, b: Seq<int>, c: Seq<int>)
    requires
        lex_less(a, b),
        lex_less(b, c),
    ensures
        lex_less(a, c),
    decreases a.len(),
{
    if a.len() > 0 && a[0] == b[0] && b[0] == c[0] {
        lex_less_transitive(a.skip(1), b.skip(1), c.skip(1));
    }
}

/// Of two different sequences one comes before the other.
pub proof fn lex_less_total(a: Seq<int>, b: Seq<int>)
    ensures
        lex_less(a, b) || a == b || lex_less(b, a),
    decreases a.len(),
{
    if a.len() > 0 && b.len() > 0 && a[0] == b[0] {
        lex_less_total(a.skip(1), b.skip(1));
        if a.skip(1) == b.skip(1) {
            assert(a =~= seq![a[0]] + a.skip(1));
            assert(b =~= seq![b[0]] + b.skip(1));
        }
    } else if a.len() == 0 && b.len() == 0 {
        assert(a =~= b);
    }
}

/// An identity with a total order, given by an integer code.
pub trait OrderedKey: Key {
    /// The code by which identities are ordered.
    spec fn code(id: Self::V) -> Seq<int>;

    /// Different identities have different codes.
    proof fn code_is_injective(a: Self::V, b: Self::V)
        ensures
            Self::code(a) == Self::code(b) ==> a == b,
    ;

    /// Whether this identity comes before the other.
    fn precedes(&self, other: &Self) -> (answer: bool)
        ensures
            answer == lex_less(Self::code(self@), Self::code(other@)),
    ;
}

/// The views of some items, in order.
pub open spec fn views<A: View>(items: Seq<A>) -> Seq<A::V> {
    items.map_values(|item: A| item@)
}

/// Copies of the elements of a vector, in order.
pub fn copies<A: Datum>(items: &Vec<A>) -> (result: Vec<A>)
    ensures
        result@.map_values(|item: A| item@) == items@.map_values(|item: A| item@),
{
    let mut result: Vec<A> = Vec::new();
    let ghost all = items@.map_values(|item: A| item@);
    let mut index: usize = 0;
    proof {
        assert(result@.map_values(|item: A| item@) =~= all.take(0));
    }
    while index < items.len()
        invariant
            index <= items@.len(),
            all == items@.map_values(|item: A| item@),
            result@.map_values(|item: A| item@) == all.take(index as int),
        decreases items@.len() - index,
    {
        let ghost before = result@;
        result.push(items[index].duplicate());
        proof {
            let item = all[index as int];
            assert(item == items@[index as int]@);
            assert(result@.map_values(|item: A| item@) =~= before.map_values(|item: A| item@).push(
                item,
            ));
            assert(all.take(index + 1) =~= all.take(index as int).push(item));
        }
        index = index + 1;
    }
    proof {
        assert(all.take(index as int) =~= all);
    }
    result
}

/// Whether some keys hold one.
pub fn holds<K: Key>(keys: &Vec<K>, key: &K) -> (answer: bool)
    ensures
        answer == keys@.map_values(|key: K| key@).contains(key@),
{
    let ghost ids = keys@.map_values(|key: K| key@);
    let mut index: usize = 0;
    while index < keys.len()
        invariant
            ids == keys@.map_values(|key: K| key@),
            index <= keys@.len(),
            forall|i: int| 0 <= i < index ==> ids[i] != key@,
        decreases keys@.len() - index,
    {
        if keys[index].same(key) {
            proof {
                assert(ids[index as int] == key@);
            }
            return true;
        }
        index = index + 1;
    }
    false
}

impl Datum for u64 {
    fn duplicate(&self) -> (copy: Self) {
        *self
    }
}

impl Key for u64 {
    fn same(&self, other: &Self) -> (answer: bool) {
        *self == *other
    }
}

impl OrderedKey for u64 {
    open spec fn code(id: u64) -> Seq<int> {
        seq![id as int]
    }

    proof fn code_is_injective(a: u64, b: u64) {
        if Self::code(a) == Self::code(b) {
            assert(Self::code(a)[0] == Self::code(b)[0]);
        }
    }

    fn precedes(&self, other: &Self) -> (answer: bool) {
        proof {
            reveal_with_fuel(lex_less, 2);
        }
        *self < *other
    }
}

impl Datum for u32 {
    fn duplicate(&self) -> (copy: Self) {
        *self
    }
}

impl Key for u32 {
    fn same(&self, other: &Self) -> (answer: bool) {
        *self == *other
    }
}

impl OrderedKey for u32 {
    open spec fn code(id: u32) -> Seq<int> {
        seq![id as int]
    }

    proof fn code_is_injective(a: u32, b: u32) {
        if Self::code(a) == Self::code(b) {
            assert(Self::code(a)[0] == Self::code(b)[0]);
        }
    }

    fn precedes(&self, other: &Self) -> (answer: bool) {
        proof {
            reveal_with_fuel(lex_less, 2);
        }
        *self < *other
    }
}

impl Datum for usize {
    fn duplicate(&self) -> (copy: Self) {
        *self
    }
}

impl Key for usize {
    fn same(&self, other: &Self) -> (answer: bool) {
        *self == *other
    }
}

impl Datum for i32 {
    fn duplicate(&self) -> (copy: Self) {
        *self
    }
}

impl Key for i32 {
    fn same(&self, other: &Self) -> (answer: bool) {
        *self == *other
    }
}

impl Datum for i64 {
    fn duplicate(&self) -> (copy: Self) {
        *self
    }
}

impl Key for i64 {
    fn same(&self, other: &Self) -> (answer: bool) {
        *self == *other
    }
}

impl Datum for bool {
    fn duplicate(&self) -> (copy: Self) {
        *self
    }
}

impl Key for bool {
    fn same(&self, other: &Self) -> (answer: bool) {
        *self == *other
    }
}

impl Datum for char {
    fn duplicate(&self) -> (copy: Self) {
        *self
    }
}

impl Datum for () {
    fn duplicate(&self) -> (copy: Self) {
    }
}

impl Key for () {
    fn same(&self, other: &Self) -> (answer: bool) {
        true
    }
}

impl<T: Copy> Datum for Option<T> {
    fn duplicate(&self) -> (copy: Self) {
        *self
    }
}

impl<T: Copy> Datum for Vec<T> {
    fn duplicate(&self) -> (copy: Self) {
        let mut copy: Vec<T> = Vec::new();
        let mut index: usize = 0;
        while index < self.len()
            invariant
                index <= self@.len(),
                copy@ == self@.take(index as int),
            decreases self@.len() - index,
        {
            copy.push(self[index]);
            index = index + 1;
        }
        assert(copy@ =~= self@);
        copy
    }
}

/// The order code of a text: its UTF-8 bytes.
pub open spec fn text_code(text: Seq<char>) -> Seq<int> {
    encode_utf8(text).map_values(|byte: u8| byte as int)
}

/// Texts with the same bytes are the same text.
pub proof fn text_code_is_injective(a: Seq<char>, b: Seq<char>)
    ensures
        text_code(a) == text_code(b) ==> a == b,
{
    if text_code(a) == text_code(b) {
        let left = encode_utf8(a);
        let right = encode_utf8(b);
        assert(left.len() == text_code(a).len() && right.len() == text_code(b).len());
        assert forall|i: int| 0 <= i < left.len() implies left[i] == right[i] by {
            assert(text_code(a)[i] == left[i] as int);
            assert(text_code(b)[i] == right[i] as int);
        }
        assert(left =~= right);
        encode_utf8_decode_utf8(a);
        encode_utf8_decode_utf8(b);
    }
}

/// Whether `a` comes before `b` bytewise.
fn bytes_precede(a: &[u8], b: &[u8]) -> (answer: bool)
    ensures
        answer == lex_less(
            a@.map_values(|byte: u8| byte as int),
            b@.map_values(|byte: u8| byte as int),
        ),
{
    let ghost left = a@.map_values(|byte: u8| byte as int);
    let ghost right = b@.map_values(|byte: u8| byte as int);
    let mut index: usize = 0;
    proof {
        assert(left.skip(0) =~= left);
        assert(right.skip(0) =~= right);
    }
    while index < a.len() && index < b.len()
        invariant
            index <= a@.len(),
            index <= b@.len(),
            left == a@.map_values(|byte: u8| byte as int),
            right == b@.map_values(|byte: u8| byte as int),
            lex_less(left, right) == lex_less(left.skip(index as int), right.skip(index as int)),
        decreases a@.len() - index,
    {
        proof {
            assert(left.skip(index as int).skip(1) =~= left.skip(index + 1));
            assert(right.skip(index as int).skip(1) =~= right.skip(index + 1));
        }
        if a[index] != b[index] {
            return a[index] < b[index];
        }
        index = index + 1;
    }
    index < b.len()
}

/// Whether both hold the same bytes.
fn bytes_same(a: &[u8], b: &[u8]) -> (answer: bool)
    ensures
        answer == (a@ == b@),
{
    if a.len() != b.len() {
        return false;
    }
    let mut index: usize = 0;
    while index < a.len()
        invariant
            a@.len() == b@.len(),
            index <= a@.len(),
            a@.take(index as int) == b@.take(index as int),
        decreases a@.len() - index,
    {
        if a[index] != b[index] {
            return false;
        }
        proof {
            assert(a@.take(index + 1) =~= a@.take(index as int).push(a@[index as int]));
            assert(b@.take(index + 1) =~= b@.take(index as int).push(b@[index as int]));
        }
        index = index + 1;
    }
    proof {
        assert(a@.take(index as int) =~= a@);
        assert(b@.take(index as int) =~= b@);
    }
    true
}

impl Datum for &'static str {
    fn duplicate(&self) -> (copy: Self) {
        *self
    }
}

impl Key for &'static str {
    fn same(&self, other: &Self) -> (answer: bool) {
        proof {
            encode_utf8_decode_utf8(self@);
            encode_utf8_decode_utf8(other@);
        }
        bytes_same(self.as_bytes(), other.as_bytes())
    }
}

impl OrderedKey for &'static str {
    open spec fn code(id: Seq<char>) -> Seq<int> {
        text_code(id)
    }

    proof fn code_is_injective(a: Seq<char>, b: Seq<char>) {
        text_code_is_injective(a, b);
    }

    fn precedes(&self, other: &Self) -> (answer: bool) {
        bytes_precede(self.as_bytes(), other.as_bytes())
    }
}

impl Datum for String {
    fn duplicate(&self) -> (copy: Self) {
        self.clone()
    }
}

impl Key for String {
    fn same(&self, other: &Self) -> (answer: bool) {
        *self == *other
    }
}

impl OrderedKey for String {
    open spec fn code(id: Seq<char>) -> Seq<int> {
        text_code(id)
    }

    proof fn code_is_injective(a: Seq<char>, b: Seq<char>) {
        text_code_is_injective(a, b);
    }

    fn precedes(&self, other: &Self) -> (answer: bool) {
        bytes_precede(self.as_str().as_bytes(), other.as_str().as_bytes())
    }
}

} // verus!

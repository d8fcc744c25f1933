//! Merge algebras: how two undrained payloads become one.

use vstd::prelude::*;

use crate::value::Datum;

verus! {

/// A way of folding an incoming payload into the one that is held.
pub trait MergePolicy<T: View> {
    /// Whether folding bounds what is held, however many payloads come in.
    spec fn conflates() -> bool;

    /// The fold, over views.
    spec fn merged(current: T::V, incoming: T::V) -> T::V;

    /// Whether folding bounds what is held.
    fn is_conflating() -> (answer: bool)
        ensures
            answer == Self::conflates(),
    ;

    /// Folds `incoming` into `current`.
    fn merge(current: &T, incoming: T) -> (result: T)
        ensures
            result@ == Self::merged(current@, incoming@),
    ;
}

/// The newest payload wins.
#[derive(Debug, Clone, Copy, PartialEq, Eq)]
pub struct KeepLatest;

impl<T: Datum> MergePolicy<T> for KeepLatest {
    open spec fn conflates() -> bool {
        true
    }

    open spec fn merged(current: T::V, incoming: T::V) -> T::V {
        incoming
    }

    fn is_conflating() -> (answer: bool) {
        true
    }

    fn merge(current: &T, incoming: T) -> (result: T) {
        incoming
    }
}

/// Payloads add up, modulo the width of the integer.
#[derive(Debug, Clone, Copy, PartialEq, Eq)]
pub struct Sum;

impl MergePolicy<u64> for Sum {
    open spec fn conflates() -> bool {
        true
    }

    open spec fn merged(current: u64, incoming: u64) -> u64 {
        current.wrapping_add(incoming)
    }

    fn is_conflating() -> (answer: bool) {
        true
    }

    fn merge(current: &u64, incoming: u64) -> (result: u64) {
        current.wrapping_add(incoming)
    }
}

/// Every payload is kept, in arrival order.
#[derive(Debug, Clone, Copy, PartialEq, Eq)]
pub struct RawFifo;

impl<E: Copy> MergePolicy<Vec<E>> for RawFifo {
    open spec fn conflates() -> bool {
        false
    }

    open spec fn merged(current: Seq<E>, incoming: Seq<E>) -> Seq<E> {
        current + incoming
    }

    fn is_conflating() -> (answer: bool) {
        false
    }

    fn merge(current: &Vec<E>, incoming: Vec<E>) -> (result: Vec<E>) {
        let mut result = current.duplicate();
        let mut rest = incoming;
        result.append(&mut rest);
        result
    }
}

} // verus!

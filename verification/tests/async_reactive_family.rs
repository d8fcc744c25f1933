//! The asynchronous keyed map.

use std::cell::Cell;

use lazily::async_reactive_family::{AsyncComputedMap, AsyncSourceMap};
use lazily::reactive::{AsyncContext, Memo, SourceCell};
use lazily::reactive_family::EntryKind;

/// A factory that reads nothing.
type Plain = fn(&(), &u64) -> usize;

/// A factory that reads an input.
type Follow = fn(&SourceCell<i64>, &u64) -> i64;

fn assert_send_sync<T: Send + Sync>() {}

#[test]
fn async_reactive_family_map_is_send_sync() {
    assert_send_sync::<AsyncSourceMap<u64, bool>>();
    assert_send_sync::<AsyncComputedMap<u64, usize, (), Plain>>();
}

#[test]
fn async_reactive_family_membership_plane_invalidates_a_dependent_computed() {
    let mut ctx = AsyncContext::new();
    let mut fam: AsyncSourceMap<u64, bool> = AsyncSourceMap::new(&mut ctx);
    let mut observed: Memo<usize> = Memo::new(&mut ctx, vec![fam.membership_slot()]);
    let count = fam.len(&ctx);
    assert_eq!(observed.store(&mut ctx, count), 0);

    fam.set(&mut ctx, 1, true);
    assert_eq!(observed.cached(&ctx), None);
    let count = fam.len(&ctx);
    assert_eq!(
        observed.store(&mut ctx, count),
        1,
        "adding a key must invalidate a len reader on the async plane"
    );

    fam.set(&mut ctx, 2, true);
    assert_eq!(observed.cached(&ctx), None);
    let count = fam.len(&ctx);
    assert_eq!(observed.store(&mut ctx, count), 2);
}

#[test]
fn async_reactive_family_keys_is_reactive_and_ordered() {
    let mut ctx = AsyncContext::new();
    let mut fam: AsyncSourceMap<u64, bool> = AsyncSourceMap::new(&mut ctx);
    let mut seen: Memo<Vec<u64>> = Memo::new(&mut ctx, vec![fam.order_slot()]);
    let keys = fam.keys(&ctx);
    assert!(seen.store(&mut ctx, keys).is_empty());

    for k in [3u64, 1, 2] {
        fam.set(&mut ctx, k, true);
    }
    assert_eq!(seen.cached(&ctx), None);
    let keys = fam.keys(&ctx);
    assert_eq!(seen.store(&mut ctx, keys), vec![3, 1, 2]);
}

#[test]
fn bare_context_read_is_untracked_but_correct() {
    let mut ctx = AsyncContext::new();
    let mut fam: AsyncSourceMap<u64, bool> = AsyncSourceMap::new(&mut ctx);
    assert_eq!(fam.len(&ctx), 0);
    fam.set(&mut ctx, 1, true);
    assert_eq!(fam.len(&ctx), 1);
    assert!(fam.contains_key(&ctx, &1));
    assert_eq!(fam.keys(&ctx), vec![1]);
}

#[test]
fn eager_source_map_resolves_immediately() {
    let mut ctx = AsyncContext::new();
    let mut fam: AsyncSourceMap<u64, bool> = AsyncSourceMap::new(&mut ctx);
    for k in [1u64, 2, 3] {
        fam.set(&mut ctx, k, true);
    }
    assert_eq!(fam.entry_kind(), EntryKind::Source);
    assert_eq!(fam.present_count(), 3);
    assert_eq!(fam.observe(&ctx, &2), Some(true));
    assert_eq!(fam.present_keys(), vec![1, 2, 3]);
}

#[test]
fn async_reactive_family_lazy_computed_map_defers_until_read() {
    let mut ctx = AsyncContext::new();
    let mut fam: AsyncComputedMap<u64, usize, (), Plain> = AsyncComputedMap::new(&mut ctx);
    assert_eq!(fam.present_count(), 0);
    // Materialize + drive to resolution.
    let _handle = fam.get_or_insert_handle(&mut ctx, 4, |_, k| (*k as usize) * 10);
    assert!(fam.is_present(&4));
    assert_eq!(fam.present_count(), 1);
    assert_eq!(fam.observe(&ctx, &4), None);
    assert_eq!(fam.resolve(&mut ctx, &(), &4), Some(40));
    assert_eq!(fam.observe(&ctx, &4), Some(40));
    assert_eq!(fam.resolve(&mut ctx, &(), &5), None);
}

#[test]
fn eventual_transparency_eager_equals_lazy() {
    let mut ctx_e = AsyncContext::new();
    let mut eager: AsyncComputedMap<u64, usize, (), Plain> = AsyncComputedMap::new(&mut ctx_e);
    eager.materialize_all(&mut ctx_e, vec![1, 2, 3], |_, k| (*k as usize) * 2);
    let mut ctx_l = AsyncContext::new();
    let mut lazy: AsyncComputedMap<u64, usize, (), Plain> = AsyncComputedMap::new(&mut ctx_l);
    for k in [1u64, 2, 3] {
        let ve = eager.resolve(&mut ctx_e, &(), &k);
        lazy.get_or_insert_handle(&mut ctx_l, k, |_, k| (*k as usize) * 2);
        assert_eq!(ve, lazy.resolve(&mut ctx_l, &(), &k));
    }
}

#[test]
fn async_reactive_family_present_set_grows_monotonically() {
    let mut ctx = AsyncContext::new();
    let mut fam: AsyncComputedMap<u64, usize, (), Plain> = AsyncComputedMap::new(&mut ctx);
    let _ = fam.get_or_insert_handle(&mut ctx, 5, |_, k| *k as usize);
    let _ = fam.get_or_insert_handle(&mut ctx, 5, |_, k| *k as usize);
    let _ = fam.get_or_insert_handle(&mut ctx, 9, |_, k| *k as usize);
    assert_eq!(fam.present_count(), 2);
    assert_eq!(fam.present_keys(), vec![5, 9]);
}

#[test]
fn source_map_reacts_to_set() {
    let mut ctx = AsyncContext::new();
    let mut fam: AsyncSourceMap<u64, bool> = AsyncSourceMap::new(&mut ctx);
    for k in [10u64, 20] {
        fam.set(&mut ctx, k, true);
    }
    assert_eq!(fam.observe(&ctx, &20), Some(true));
    fam.set(&mut ctx, 20, false);
    assert_eq!(fam.observe(&ctx, &20), Some(false));
}

#[test]
fn entry_observe_tracks_only_through_compute_context() {
    let mut ctx = AsyncContext::new();
    let mut fam: AsyncSourceMap<u64, i64> = AsyncSourceMap::new(&mut ctx);
    fam.set(&mut ctx, 1, 10);
    let entry = fam.handle(&1).expect("source entry");
    assert_eq!(fam.observe(&ctx, &1), Some(10));

    let mut observed: Memo<i64> = Memo::new(&mut ctx, vec![entry.id()]);
    let value = fam.observe(&ctx, &1).expect("tracked source entry");
    assert_eq!(observed.store(&mut ctx, value * 2), 20);

    fam.set(&mut ctx, 1, 11);
    assert_eq!(observed.cached(&ctx), None);
    let value = fam.observe(&ctx, &1).expect("tracked source entry");
    assert_eq!(observed.store(&mut ctx, value * 2), 22);
}

#[test]
fn resolved_computed_entry_observe_tracks_downstream() {
    let mut ctx = AsyncContext::new();
    let mut upstream: SourceCell<i64> = SourceCell::new(&mut ctx, 5);
    let mut fam: AsyncComputedMap<u64, i64, SourceCell<i64>, Follow> =
        AsyncComputedMap::new(&mut ctx);
    let entry =
        fam.get_or_insert_tracked(&mut ctx, 1, vec![upstream.id()], |input, _| input.get() * 2);
    assert_eq!(fam.observe(&ctx, &1), None);
    assert_eq!(fam.resolve(&mut ctx, &upstream, &1), Some(10));

    let mut downstream: Memo<i64> = Memo::new(&mut ctx, vec![entry.id()]);
    let value = fam.observe(&ctx, &1).expect("resolved computed entry");
    assert_eq!(downstream.store(&mut ctx, value + 1), 11);

    upstream.set(&mut ctx, 6);
    assert_eq!(
        downstream.cached(&ctx),
        None,
        "entry invalidation must propagate to its observe reader"
    );
    assert_eq!(fam.observe(&ctx, &1), None);
    assert_eq!(fam.resolve(&mut ctx, &upstream, &1), Some(12));
    let value = fam.observe(&ctx, &1).expect("resolved computed entry");
    assert_eq!(downstream.store(&mut ctx, value + 1), 13);
}

#[test]
fn a_factory_runs_when_its_entry_is_driven() {
    let runs = Cell::new(0);
    let mut ctx = AsyncContext::new();
    let mut upstream: SourceCell<u64> = SourceCell::new(&mut ctx, 5);
    let mut fam = AsyncComputedMap::new(&mut ctx);
    fam.get_or_insert_tracked(
        &mut ctx,
        1u64,
        vec![upstream.id()],
        |input: &SourceCell<u64>, k: &u64| {
            runs.set(runs.get() + 1);
            *input.get() + *k
        },
    );
    assert_eq!(fam.observe(&ctx, &1), None);
    assert_eq!(runs.get(), 0);
    assert_eq!(fam.resolve(&mut ctx, &upstream, &1), Some(6));
    assert_eq!(fam.resolve(&mut ctx, &upstream, &1), Some(6));
    assert_eq!(runs.get(), 1);
    upstream.set(&mut ctx, 8);
    assert_eq!(fam.observe(&ctx, &1), None);
    assert_eq!(runs.get(), 1);
    assert_eq!(fam.resolve(&mut ctx, &upstream, &1), Some(9));
    assert_eq!(runs.get(), 2);
}

#[test]
fn pre_minted_entries_wait_until_they_are_driven() {
    let runs = Cell::new(0);
    let mut ctx = AsyncContext::new();
    let mut fam = AsyncComputedMap::new(&mut ctx);
    fam.materialize_all(&mut ctx, vec![1u64, 2, 1], |_: &(), k: &u64| {
        runs.set(runs.get() + 1);
        *k + 1
    });
    assert_eq!(fam.present_keys(), vec![1, 2]);
    assert_eq!(fam.observe(&ctx, &2), None);
    assert_eq!(runs.get(), 0);
    assert_eq!(fam.resolve(&mut ctx, &(), &2), Some(3));
    assert_eq!(runs.get(), 1);
}

#[test]
fn the_first_factory_resolves_the_entry() {
    let mut ctx = AsyncContext::new();
    let mut fam: AsyncComputedMap<u64, usize, (), Plain> = AsyncComputedMap::new(&mut ctx);
    fam.get_or_insert_handle(&mut ctx, 1, |_, _| 7);
    fam.get_or_insert_handle(&mut ctx, 1, |_, _| 8);
    assert_eq!(fam.resolve(&mut ctx, &(), &1), Some(7));
    assert_eq!(fam.observe(&ctx, &1), Some(7));
}

//! The keyed map that threads share.

use std::cell::Cell;

use lazily::reactive::{Memo, ThreadSafeContext};
use lazily::reactive_family::EntryKind;
use lazily::thread_safe_reactive_family::{ThreadSafeComputedMap, ThreadSafeSourceMap};

/// A factory that captures nothing.
type Plain = fn(&u64) -> usize;

fn assert_send_sync<T: Send + Sync>() {}

fn read<F: Fn() -> usize>(ctx: &mut ThreadSafeContext, memo: &mut Memo<usize>, derive: F) -> usize {
    match memo.cached(ctx) {
        Some(shown) => shown,
        None => memo.store(ctx, derive()),
    }
}

#[test]
fn thread_safe_reactive_family_membership_plane_invalidates_a_dependent_computed() {
    let mut ctx = ThreadSafeContext::new();
    let mut fam: ThreadSafeSourceMap<u64, bool> = ThreadSafeSourceMap::new(&mut ctx);
    let mut observed: Memo<usize> = Memo::new(&mut ctx, vec![fam.membership_slot()]);
    let count = fam.len(&ctx);
    assert_eq!(read(&mut ctx, &mut observed, || count), 0);

    fam.set(&mut ctx, 1, true);
    let count = fam.len(&ctx);
    assert_eq!(
        read(&mut ctx, &mut observed, || count),
        1,
        "adding a key must invalidate a len reader"
    );

    fam.set(&mut ctx, 2, true);
    let count = fam.len(&ctx);
    assert_eq!(read(&mut ctx, &mut observed, || count), 2);

    // Re-setting an existing key changes a value, not the key set: the
    // membership reader must NOT see a change.
    fam.set(&mut ctx, 2, false);
    assert_eq!(observed.cached(&ctx), Some(2));
    let count = fam.len(&ctx);
    assert_eq!(read(&mut ctx, &mut observed, || count), 2);
}

#[test]
fn thread_safe_reactive_family_keys_is_reactive_and_ordered() {
    let mut ctx = ThreadSafeContext::new();
    let mut fam: ThreadSafeSourceMap<u64, bool> = ThreadSafeSourceMap::new(&mut ctx);
    let mut seen: Memo<Vec<u64>> = Memo::new(&mut ctx, vec![fam.order_slot()]);
    let keys = fam.keys(&ctx);
    assert!(seen.store(&mut ctx, keys).is_empty());

    for k in [3u64, 1, 2] {
        fam.set(&mut ctx, k, true);
        assert_eq!(seen.cached(&ctx), None);
    }
    let keys = fam.keys(&ctx);
    assert_eq!(
        seen.store(&mut ctx, keys),
        vec![3, 1, 2],
        "keys must track insertion order reactively"
    );
}

#[test]
fn contains_key_is_reactive() {
    let mut ctx = ThreadSafeContext::new();
    let mut fam: ThreadSafeSourceMap<u64, bool> = ThreadSafeSourceMap::new(&mut ctx);
    let mut has7: Memo<bool> = Memo::new(&mut ctx, vec![fam.membership_slot()]);
    let answer = fam.contains_key(&ctx, &7);
    assert!(!has7.store(&mut ctx, answer));

    fam.set(&mut ctx, 7, true);
    assert_eq!(has7.cached(&ctx), None);
    let answer = fam.contains_key(&ctx, &7);
    assert!(
        has7.store(&mut ctx, answer),
        "adding the key must invalidate a contains_key reader"
    );
}

#[test]
fn thread_safe_reactive_family_map_is_send_sync() {
    // The whole point: a thread-safe map can live in a `Send + Sync` owner.
    assert_send_sync::<ThreadSafeSourceMap<u64, bool>>();
    assert_send_sync::<ThreadSafeComputedMap<u64, usize, Plain>>();
}

#[test]
fn eager_source_map_materializes_all_at_build() {
    let mut ctx = ThreadSafeContext::new();
    let mut fam: ThreadSafeSourceMap<u64, bool> = ThreadSafeSourceMap::new(&mut ctx);
    for k in [1u64, 2, 3] {
        fam.set(&mut ctx, k, true);
    }
    assert_eq!(fam.entry_kind(), EntryKind::Source);
    assert_eq!(fam.present_count(), 3);
    assert!(fam.is_present(&1) && fam.is_present(&2) && fam.is_present(&3));
    assert_eq!(fam.present_keys(), vec![1, 2, 3]);
}

#[test]
fn thread_safe_reactive_family_lazy_computed_map_defers_until_read() {
    let mut ctx = ThreadSafeContext::new();
    // Empty map + lazy → nothing materialized until observed.
    let mut fam: ThreadSafeComputedMap<u64, usize, Plain> = ThreadSafeComputedMap::new(&mut ctx);
    assert_eq!(fam.present_count(), 0);
    assert!(!fam.is_present(&2));
    assert_eq!(
        fam.get_or_insert_with(&mut ctx, 2, |k| (*k as usize) * 10),
        20
    );
    assert!(fam.is_present(&2));
    assert_eq!(fam.present_count(), 1);
}

#[test]
fn eager_computed_map_materializes_all_up_front() {
    let mut ctx = ThreadSafeContext::new();
    let mut fam: ThreadSafeComputedMap<u64, usize, Plain> = ThreadSafeComputedMap::new(&mut ctx);
    fam.materialize_all(&mut ctx, vec![7, 8], |k| *k as usize);
    assert_eq!(fam.present_count(), 2);
}

#[test]
fn observational_transparency_eager_equals_lazy() {
    let mut ctx_e = ThreadSafeContext::new();
    let mut eager: ThreadSafeComputedMap<u64, usize, Plain> = ThreadSafeComputedMap::new(&mut ctx_e);
    eager.materialize_all(&mut ctx_e, vec![1, 2, 3], |k| (*k as usize) * 2);
    let mut ctx_l = ThreadSafeContext::new();
    let mut lazy: ThreadSafeComputedMap<u64, usize, Plain> = ThreadSafeComputedMap::new(&mut ctx_l);
    for k in [1u64, 2, 3] {
        let ve = eager.observe(&mut ctx_e, &k).unwrap();
        let vl = lazy.get_or_insert_with(&mut ctx_l, k, |k| (*k as usize) * 2);
        assert_eq!(ve, vl);
    }
}

#[test]
fn thread_safe_reactive_family_present_set_grows_monotonically() {
    let mut ctx = ThreadSafeContext::new();
    let mut fam: ThreadSafeComputedMap<u64, usize, Plain> = ThreadSafeComputedMap::new(&mut ctx);
    let _ = fam.get_or_insert_with(&mut ctx, 5, |k| *k as usize);
    let _ = fam.get_or_insert_with(&mut ctx, 5, |k| *k as usize); // repeat: no growth
    let _ = fam.get_or_insert_with(&mut ctx, 9, |k| *k as usize);
    assert_eq!(fam.present_count(), 2);
    assert_eq!(fam.present_keys(), vec![5, 9]);
}

fn live(liveness: &ThreadSafeSourceMap<u64, bool>, ctx: &ThreadSafeContext) -> usize {
    liveness
        .present_keys()
        .into_iter()
        .filter(|k| liveness.observe(ctx, k).unwrap_or(false))
        .count()
}

#[test]
fn derived_count_reacts_to_cell_writes() {
    // The agent-doc liveness shape: cell inputs + a derived count that recomputes
    // reactively when a cell flips — no pull-time scan.
    let mut ctx = ThreadSafeContext::new();
    let mut liveness: ThreadSafeSourceMap<u64, bool> = ThreadSafeSourceMap::new(&mut ctx);
    for k in [10u64, 20, 30] {
        liveness.set(&mut ctx, k, true);
    }
    let inputs = [10u64, 20, 30]
        .iter()
        .map(|k| liveness.handle(k).unwrap().id())
        .collect();
    let mut live_count: Memo<usize> = Memo::new(&mut ctx, inputs);
    let count = live(&liveness, &ctx);
    assert_eq!(live_count.store(&mut ctx, count), 3);
    // Flip one editor offline → derived count recomputes reactively.
    liveness.set(&mut ctx, 20, false);
    assert_eq!(live_count.cached(&ctx), None);
    let count = live(&liveness, &ctx);
    assert_eq!(live_count.store(&mut ctx, count), 2);
    liveness.set(&mut ctx, 20, true);
    assert_eq!(live_count.cached(&ctx), None);
    let count = live(&liveness, &ctx);
    assert_eq!(live_count.store(&mut ctx, count), 3);
}

#[test]
fn moving_an_entry_leaves_membership_and_handles_alone() {
    let mut ctx = ThreadSafeContext::new();
    let mut fam: ThreadSafeSourceMap<u64, bool> = ThreadSafeSourceMap::new(&mut ctx);
    for k in [1u64, 2, 3] {
        fam.set(&mut ctx, k, true);
    }
    let mut members: Memo<usize> = Memo::new(&mut ctx, vec![fam.membership_slot()]);
    let mut order: Memo<Vec<u64>> = Memo::new(&mut ctx, vec![fam.order_slot()]);
    members.store(&mut ctx, 3);
    order.store(&mut ctx, vec![1, 2, 3]);
    let node = fam.handle(&3).unwrap().id();

    assert!(fam.move_to(&mut ctx, &3, 0));
    assert_eq!(fam.keys(&ctx), vec![3, 1, 2]);
    assert_eq!(members.cached(&ctx), Some(3));
    assert_eq!(order.cached(&ctx), None);
    assert_eq!(fam.handle(&3).unwrap().id(), node);

    order.store(&mut ctx, vec![3, 1, 2]);
    assert!(fam.move_before(&mut ctx, &3, &1));
    assert_eq!(order.cached(&ctx), Some(vec![3, 1, 2]));
    assert!(fam.move_after(&mut ctx, &3, &2));
    assert_eq!(fam.keys(&ctx), vec![1, 2, 3]);
    assert!(!fam.move_to(&mut ctx, &9, 0));
}

#[test]
fn removing_an_entry_moves_both_signals() {
    let mut ctx = ThreadSafeContext::new();
    let mut fam: ThreadSafeSourceMap<u64, bool> = ThreadSafeSourceMap::new(&mut ctx);
    for k in [1u64, 2] {
        fam.set(&mut ctx, k, true);
    }
    let mut members: Memo<usize> = Memo::new(&mut ctx, vec![fam.membership_slot()]);
    members.store(&mut ctx, 2);
    assert!(!fam.remove(&mut ctx, &7));
    assert_eq!(members.cached(&ctx), Some(2));
    assert!(fam.remove(&mut ctx, &1));
    assert_eq!(members.cached(&ctx), None);
    assert_eq!(fam.present_keys(), vec![2]);
    assert_eq!(fam.observe(&ctx, &1), None);
    assert_eq!(fam.position(&2), Some(0));
}

#[test]
fn a_factory_runs_at_the_first_read_and_once() {
    let runs = Cell::new(0);
    let mut ctx = ThreadSafeContext::new();
    let mut fam = ThreadSafeComputedMap::new(&mut ctx);
    let count = |k: &u64| {
        runs.set(runs.get() + 1);
        *k * 10
    };
    let handle = fam.get_or_insert_handle(&mut ctx, 4, count);
    assert!(fam.is_present(&4));
    assert_eq!(runs.get(), 0);
    assert_eq!(fam.get_or_insert_handle(&mut ctx, 4, count).id(), handle.id());
    assert_eq!(runs.get(), 0);
    assert_eq!(fam.observe(&mut ctx, &4), Some(40));
    assert_eq!(runs.get(), 1);
    assert_eq!(fam.observe(&mut ctx, &4), Some(40));
    assert_eq!(fam.get_or_insert_with(&mut ctx, 4, count), 40);
    assert_eq!(runs.get(), 1);
    assert_eq!(fam.observe(&mut ctx, &5), None);
    assert_eq!(fam.get_or_insert_with(&mut ctx, 5, count), 50);
    assert_eq!(runs.get(), 2);
}

#[test]
fn pre_minting_runs_no_factory() {
    let runs = Cell::new(0);
    let mut ctx = ThreadSafeContext::new();
    let mut fam = ThreadSafeComputedMap::new(&mut ctx);
    let count = |k: &u64| {
        runs.set(runs.get() + 1);
        *k + 1
    };
    fam.materialize_all(&mut ctx, vec![7, 8, 7], count);
    assert_eq!(fam.present_keys(), vec![7, 8]);
    assert_eq!(runs.get(), 0);
    assert_eq!(fam.observe(&mut ctx, &8), Some(9));
    assert_eq!(runs.get(), 1);
}

#[test]
fn an_input_has_its_value_at_once() {
    let runs = Cell::new(0);
    let mut ctx = ThreadSafeContext::new();
    let mut fam: ThreadSafeSourceMap<u64, u64> = ThreadSafeSourceMap::new(&mut ctx);
    fam.get_or_insert_handle(&mut ctx, 4, |k| {
        runs.set(runs.get() + 1);
        *k * 10
    });
    assert_eq!(runs.get(), 1);
    assert_eq!(fam.observe(&ctx, &4), Some(40));
    assert_eq!(fam.get_or_insert_with(&mut ctx, 4, |_| 7), 40);
    assert_eq!(fam.get_or_insert_with(&mut ctx, 5, |_| 7), 7);
    assert_eq!(runs.get(), 1);
}

#[test]
fn the_first_factory_makes_the_value() {
    let mut ctx = ThreadSafeContext::new();
    let mut fam: ThreadSafeComputedMap<u64, usize, Plain> = ThreadSafeComputedMap::new(&mut ctx);
    fam.get_or_insert_handle(&mut ctx, 1, |_| 7);
    assert_eq!(fam.get_or_insert_with(&mut ctx, 1, |_| 8), 7);
    fam.materialize_all(&mut ctx, vec![1, 2], |_| 9);
    assert_eq!(fam.observe(&mut ctx, &1), Some(7));
    assert_eq!(fam.observe(&mut ctx, &2), Some(9));
}

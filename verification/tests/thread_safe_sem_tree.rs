//! The semantic tree.

use std::sync::Arc;
use std::sync::atomic::{AtomicUsize, Ordering};

use lazily::reactive::ThreadSafeContext;
use lazily::thread_safe_sem_tree::ThreadSafeSemTree;
use lazily::thread_safe_source_tree::{SourceForest, ThreadSafeSourceTree};

fn assert_send_sync<T: Send + Sync>() {}

#[test]
fn sem_tree_is_send_sync() {
    assert_send_sync::<ThreadSafeSemTree<String, usize, fn(&i32, &[usize]) -> usize>>();
}

#[test]
fn edit_recomputes_only_the_ancestor_chain() {
    let mut ctx = ThreadSafeContext::new();
    let mut forest = SourceForest::new();
    let root = ThreadSafeSourceTree::leaf(&mut ctx, &mut forest, "root", 0);
    let a = root.insert_child(&mut ctx, &mut forest, "a", 1);
    a.insert_child(&mut ctx, &mut forest, "a1", 10);
    let b = root.insert_child(&mut ctx, &mut forest, "b", 2);
    b.insert_child(&mut ctx, &mut forest, "b1", 100);

    let a_runs = Arc::new(AtomicUsize::new(0));
    let b_runs = Arc::new(AtomicUsize::new(0));
    let mut sums = ThreadSafeSemTree::build(&mut ctx, &forest, &root, {
        let a_runs = Arc::clone(&a_runs);
        let b_runs = Arc::clone(&b_runs);
        move |value: &i32, children: &[i32]| {
            if *value == 1 {
                a_runs.fetch_add(1, Ordering::SeqCst);
            } else if *value == 2 {
                b_runs.fetch_add(1, Ordering::SeqCst);
            }
            value + children.iter().sum::<i32>()
        }
    });

    assert_eq!(sums.value(&mut ctx, &forest), 113);
    assert_eq!(a_runs.load(Ordering::SeqCst), 1);
    assert_eq!(b_runs.load(Ordering::SeqCst), 1);

    b.child(&forest, &"b1")
        .unwrap()
        .set(&mut ctx, &mut forest, 200);
    assert_eq!(sums.value(&mut ctx, &forest), 213);
    assert_eq!(a_runs.load(Ordering::SeqCst), 1);
    assert_eq!(b_runs.load(Ordering::SeqCst), 2);
}

#[test]
fn the_children_that_were_there_at_build_time_count() {
    let mut ctx = ThreadSafeContext::new();
    let mut forest = SourceForest::new();
    let root = ThreadSafeSourceTree::leaf(&mut ctx, &mut forest, "root", 1);
    let a = root.insert_child(&mut ctx, &mut forest, "a", 10);
    root.insert_child(&mut ctx, &mut forest, "b", 100);
    let fold = |value: &i32, children: &[i32]| value + children.iter().sum::<i32>();
    let mut sums = ThreadSafeSemTree::build(&mut ctx, &forest, &root, fold);
    assert_eq!(sums.value(&mut ctx, &forest), 111);

    // A node that joins later has no derived reader until the tree is built again.
    root.insert_child(&mut ctx, &mut forest, "c", 1000);
    assert_eq!(sums.value(&mut ctx, &forest), 111);
    assert!(sums.node(&"c").is_none());
    assert_eq!(sums.node_value(&mut ctx, &forest, &"c"), None);

    // A removed child does not count, and counts as it was once it is back by name.
    root.remove_child(&mut ctx, &mut forest, &"a");
    assert_eq!(sums.value(&mut ctx, &forest), 101);
    root.insert_child(&mut ctx, &mut forest, "a", 7);
    assert_eq!(sums.value(&mut ctx, &forest), 111);
    a.set(&mut ctx, &mut forest, 20);
    assert_eq!(sums.value(&mut ctx, &forest), 121);

    let mut again = ThreadSafeSemTree::build(&mut ctx, &forest, &root, fold);
    assert_eq!(again.value(&mut ctx, &forest), 1 + 7 + 100 + 1000);
}

#[test]
fn derived_nodes_are_found_by_identity() {
    let mut ctx = ThreadSafeContext::new();
    let mut forest = SourceForest::new();
    let root = ThreadSafeSourceTree::leaf(&mut ctx, &mut forest, "root", 1);
    root.insert_child(&mut ctx, &mut forest, "a", 10);
    let fold = |value: &i32, children: &[i32]| value + children.iter().sum::<i32>();
    let mut sums = ThreadSafeSemTree::build(&mut ctx, &forest, &root, fold);
    assert_eq!(sums.node(&"root").unwrap().id(), sums.root().id());
    assert_eq!(sums.node_value(&mut ctx, &forest, &"a"), Some(10));
    assert_eq!(sums.node_value(&mut ctx, &forest, &"root"), Some(11));
}

#[test]
fn the_order_of_the_children_is_followed() {
    let mut ctx = ThreadSafeContext::new();
    let mut forest = SourceForest::new();
    let root = ThreadSafeSourceTree::leaf(&mut ctx, &mut forest, "root", 0);
    root.insert_child(&mut ctx, &mut forest, "a", 1);
    root.insert_child(&mut ctx, &mut forest, "b", 2);
    let digits = |value: &i32, children: &[i32]| {
        children.iter().fold(*value, |so_far, child| so_far * 10 + child)
    };
    let mut tree = ThreadSafeSemTree::build(&mut ctx, &forest, &root, digits);
    assert_eq!(tree.value(&mut ctx, &forest), 12);
    root.move_child(&mut ctx, &mut forest, &"b", 0);
    assert_eq!(tree.value(&mut ctx, &forest), 21);
}

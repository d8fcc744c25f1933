//! The source tree.

use lazily::reactive::{Memo, ThreadSafeContext};
use lazily::thread_safe_source_tree::{SourceForest, ThreadSafeSourceTree};

fn assert_send_sync<T: Send + Sync>() {}

#[test]
fn tree_is_send_sync() {
    assert_send_sync::<ThreadSafeSourceTree<String, String>>();
    assert_send_sync::<SourceForest<String, String>>();
}

#[test]
fn ordered_children_preserve_identity_and_value_isolation() {
    let mut ctx = ThreadSafeContext::new();
    let mut forest = SourceForest::new();
    let root = ThreadSafeSourceTree::leaf(&mut ctx, &mut forest, "root", 0);
    let a = root.insert_child(&mut ctx, &mut forest, "a", 1);
    root.insert_child(&mut ctx, &mut forest, "b", 2);
    root.insert_child(&mut ctx, &mut forest, "c", 3);

    let mut runs = 0usize;
    let mut observed_a: Memo<i32> = Memo::new(&mut ctx, vec![a.value().id()]);
    if observed_a.cached(&ctx).is_none() {
        runs += 1;
        let value = a.get(&ctx, &forest);
        observed_a.store(&mut ctx, value);
    }
    assert_eq!(observed_a.cached(&ctx), Some(1));

    root.child(&forest, &"b")
        .unwrap()
        .set(&mut ctx, &mut forest, 20);
    root.move_child(&mut ctx, &mut forest, &"c", 0);
    assert_eq!(root.child_ids(&ctx, &forest), vec!["c", "a", "b"]);
    if observed_a.cached(&ctx).is_none() {
        runs += 1;
    }
    assert_eq!(observed_a.cached(&ctx), Some(1));
    assert_eq!(runs, 1);
    assert_eq!(
        root.child(&forest, &"a").unwrap().value().id(),
        a.value().id()
    );
}

#[test]
fn a_present_child_is_kept() {
    let mut ctx = ThreadSafeContext::new();
    let mut forest = SourceForest::new();
    let root = ThreadSafeSourceTree::leaf(&mut ctx, &mut forest, "root", 0);
    let a = root.insert_child(&mut ctx, &mut forest, "a", 1);
    let again = root.insert_child(&mut ctx, &mut forest, "a", 9);
    assert_eq!(again.value().id(), a.value().id());
    assert_eq!(again.get(&ctx, &forest), 1);

    let other = ThreadSafeSourceTree::leaf(&mut ctx, &mut forest, "a", 7);
    let attached = root.attach_child(&mut ctx, &mut forest, other);
    assert_eq!(attached.value().id(), a.value().id());
    assert_eq!(root.len(&ctx, &forest), 1);
}

#[test]
fn an_attached_subtree_keeps_its_nodes() {
    let mut ctx = ThreadSafeContext::new();
    let mut forest = SourceForest::new();
    let root = ThreadSafeSourceTree::leaf(&mut ctx, &mut forest, "root", 0);
    let branch = ThreadSafeSourceTree::leaf(&mut ctx, &mut forest, "branch", 1);
    let leaf = branch.insert_child(&mut ctx, &mut forest, "leaf", 2);
    let node = branch.value().id();
    let attached = root.attach_child(&mut ctx, &mut forest, branch);
    assert_eq!(attached.value().id(), node);
    let found = root.resolve_path(&forest, &["branch", "leaf"]).unwrap();
    assert_eq!(found.value().id(), leaf.value().id());
    assert!(root.resolve_path(&forest, &["leaf"]).is_none());
    assert_eq!(
        root.resolve_path(&forest, &[]).unwrap().value().id(),
        root.value().id()
    );
}

#[test]
fn removed_children_live_on_for_their_holders() {
    let mut ctx = ThreadSafeContext::new();
    let mut forest = SourceForest::new();
    let root = ThreadSafeSourceTree::leaf(&mut ctx, &mut forest, "root", 0);
    let a = root.insert_child(&mut ctx, &mut forest, "a", 1);
    assert!(root.contains_child(&ctx, &forest, &"a"));
    assert!(root.remove_child(&mut ctx, &mut forest, &"a"));
    assert!(!root.remove_child(&mut ctx, &mut forest, &"a"));
    assert!(!root.contains_child(&ctx, &forest, &"a"));
    assert!(root.is_empty(&ctx, &forest));
    a.set(&mut ctx, &mut forest, 5);
    assert_eq!(a.get(&ctx, &forest), 5);
    let fresh = root.insert_child(&mut ctx, &mut forest, "a", 8);
    assert_eq!(fresh.get(&ctx, &forest), 8);
    assert_eq!(a.get(&ctx, &forest), 5);
}

#[test]
fn children_come_in_order() {
    let mut ctx = ThreadSafeContext::new();
    let mut forest = SourceForest::new();
    let root = ThreadSafeSourceTree::leaf(&mut ctx, &mut forest, "root", 0);
    for (id, value) in [("a", 1), ("b", 2), ("c", 3)] {
        root.insert_child(&mut ctx, &mut forest, id, value);
    }
    assert!(root.move_child_before(&mut ctx, &mut forest, &"c", &"b"));
    assert!(root.move_child_after(&mut ctx, &mut forest, &"a", &"b"));
    assert!(!root.move_child_after(&mut ctx, &mut forest, &"a", &"z"));
    let values: Vec<i32> = root
        .children(&ctx, &forest)
        .iter()
        .map(|child| child.get(&ctx, &forest))
        .collect();
    assert_eq!(values, vec![3, 2, 1]);
}

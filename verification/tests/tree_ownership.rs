use shared_ownership::Store;
use shared_ownership::TreeNode;
use std::cell::RefCell;

#[test]
fn append_child_links_parent_and_child() {
    let mut store: Store<TreeNode<i32>> = Store::new();
    let root = TreeNode::new(&mut store, 5);
    let root_id = root.id();
    let child = TreeNode::new(&mut store, 3);
    let child_id = child.id();
    let outside = store.clone_handle(&child);
    TreeNode::append_child(&mut store, &root, child);

    assert_eq!(store.read(&root).children.read().len(), 1);
    assert_eq!(store.weak_count_at(root_id), 1);
    assert_eq!(store.strong_count_at(child_id), 2);

    let p = TreeNode::parent_of(&mut store, &outside).expect("parent is set and alive");
    assert_eq!(store.read(&p).value, 5);
    assert_eq!(store.strong_count_at(root_id), 2);
    TreeNode::release_subtree(&mut store, p);
    assert_eq!(store.strong_count_at(root_id), 1);

    // C stays alive while R still references it.
    TreeNode::release_subtree(&mut store, outside);
    assert!(!store.destructor_fired(child_id));
    assert_eq!(store.strong_count_at(child_id), 1);

    // Releasing the last handle to R cascades into C: both hooks fire.
    TreeNode::release_subtree(&mut store, root);
    assert!(store.destructor_fired(root_id));
    assert!(store.destructor_fired(child_id));
    assert_eq!(store.strong_count_at(root_id), 0);
    assert_eq!(store.strong_count_at(child_id), 0);
    assert_eq!(store.weak_count_at(root_id), 0);
}

#[test]
fn child_retained_elsewhere_survives_parent() {
    let mut store: Store<TreeNode<i32>> = Store::new();
    let root = TreeNode::new(&mut store, 5);
    let root_id = root.id();
    let child = TreeNode::new(&mut store, 3);
    let child_id = child.id();
    let kept = store.clone_handle(&child);
    TreeNode::append_child(&mut store, &root, child);

    TreeNode::release_subtree(&mut store, root);
    assert!(store.destructor_fired(root_id));
    assert!(!store.destructor_fired(child_id));
    assert_eq!(store.strong_count_at(child_id), 1);

    // The stale weak parent link upgrades to nothing now.
    assert!(TreeNode::parent_of(&mut store, &kept).is_none());

    TreeNode::release_subtree(&mut store, kept);
    assert!(store.destructor_fired(child_id));
}

#[test]
fn parent_of_is_absent_when_never_set() {
    let mut store: Store<TreeNode<i32>> = Store::new();
    let lone = TreeNode::new(&mut store, 3);
    assert!(TreeNode::parent_of(&mut store, &lone).is_none());
}

#[test]
fn traversal_visits_chain_in_preorder_twice() {
    let mut store: Store<TreeNode<i32>> = Store::new();
    let grandchild = TreeNode::new(&mut store, 30);
    let child = TreeNode::new(&mut store, 20);
    TreeNode::append_child(&mut store, &child, grandchild);
    let root = TreeNode::new(&mut store, 10);
    TreeNode::append_child(&mut store, &root, child);

    let seen: RefCell<Vec<i32>> = RefCell::new(Vec::new());
    TreeNode::for_each(&store, &root, &|v: &i32| {
        seen.borrow_mut().push(*v);
    });
    assert_eq!(*seen.borrow(), vec![10, 20, 30]);

    // Restartable: a second pass over the untouched store sees the same.
    let seen_again: RefCell<Vec<i32>> = RefCell::new(Vec::new());
    TreeNode::for_each(&store, &root, &|v: &i32| {
        seen_again.borrow_mut().push(*v);
    });
    assert_eq!(*seen_again.borrow(), vec![10, 20, 30]);
}

#[test]
fn preorder_values_agree_with_for_each() {
    let mut store: Store<TreeNode<i32>> = Store::new();
    let grandchild = TreeNode::new(&mut store, 30);
    let child = TreeNode::new(&mut store, 20);
    TreeNode::append_child(&mut store, &child, grandchild);
    let root = TreeNode::new(&mut store, 10);
    TreeNode::append_child(&mut store, &root, child);
    let sibling = TreeNode::new(&mut store, 40);
    TreeNode::append_child(&mut store, &root, sibling);

    assert_eq!(TreeNode::preorder_values(&store, &root), vec![10, 20, 30, 40]);

    let seen: RefCell<Vec<i32>> = RefCell::new(Vec::new());
    TreeNode::for_each(&store, &root, &|v: &i32| {
        seen.borrow_mut().push(*v);
    });
    assert_eq!(TreeNode::preorder_values(&store, &root), *seen.borrow());

    // Repeated invocation returns the identical sequence.
    assert_eq!(
        TreeNode::preorder_values(&store, &root),
        TreeNode::preorder_values(&store, &root)
    );
}

#[test]
fn traversal_visits_siblings_in_sequence_order() {
    let mut store: Store<TreeNode<i32>> = Store::new();
    let root = TreeNode::new(&mut store, 1);
    let left = TreeNode::new(&mut store, 2);
    let right = TreeNode::new(&mut store, 3);
    TreeNode::append_child(&mut store, &root, left);
    TreeNode::append_child(&mut store, &root, right);

    let seen: RefCell<Vec<i32>> = RefCell::new(Vec::new());
    TreeNode::for_each(&store, &root, &|v: &i32| {
        seen.borrow_mut().push(*v);
    });
    assert_eq!(*seen.borrow(), vec![1, 2, 3]);
}

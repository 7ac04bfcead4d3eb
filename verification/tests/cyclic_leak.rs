use shared_ownership::BorrowCell;
use shared_ownership::CyclicList;
use shared_ownership::Store;
use shared_ownership::link_mutually;

#[test]
fn tail_of_cons_and_nil() {
    let nil: CyclicList<i32> = CyclicList::Nil;
    assert!(nil.tail().is_none());
    let node = CyclicList::Cons(5, BorrowCell::new(None));
    let cell = node.tail().expect("a cons node has a tail cell");
    assert!(cell.read().is_none());
}

#[test]
fn linked_pair_leaks_for_good() {
    let mut store: Store<CyclicList<i32>> = Store::new();
    let a = store.create(CyclicList::Cons(5, BorrowCell::new(None)));
    let b = store.create(CyclicList::Cons(10, BorrowCell::new(None)));
    let a_id = a.id();
    let b_id = b.id();

    link_mutually(&mut store, &a, &b);
    assert_eq!(store.strong_count(&a), 2);
    assert_eq!(store.strong_count(&b), 2);

    // Drop the only outside handles: each node is now kept alive solely
    // by the handle stored inside the other.
    assert!(store.release(a).is_none());
    assert!(store.release(b).is_none());
    assert_eq!(store.strong_count_at(a_id), 1);
    assert_eq!(store.strong_count_at(b_id), 1);
    assert!(!store.destructor_fired(a_id));
    assert!(!store.destructor_fired(b_id));

    // Nothing else happens to the pair; the counts are still pinned at 1
    // after further unrelated activity in the same store.
    let other = store.create(CyclicList::Nil);
    assert!(store.release(other).is_some());
    assert_eq!(store.strong_count_at(a_id), 1);
    assert_eq!(store.strong_count_at(b_id), 1);
    assert!(!store.destructor_fired(a_id));
    assert!(!store.destructor_fired(b_id));
}

#[test]
fn cycle_counts_mirror_each_step() {
    let mut store: Store<CyclicList<i32>> = Store::new();
    let a = store.create(CyclicList::Cons(5, BorrowCell::new(None)));
    assert_eq!(store.strong_count(&a), 1);

    // b is born already pointing at a.
    let a_for_b = store.clone_handle(&a);
    let b = store.create(CyclicList::Cons(10, BorrowCell::new(Some(a_for_b))));
    assert_eq!(store.strong_count(&a), 2);
    assert_eq!(store.strong_count(&b), 1);

    // Point a's tail back at b through the interior cell.
    let b_for_a = store.clone_handle(&b);
    {
        let node = store.payload_mut(&a);
        match node {
            CyclicList::Cons(_, cell) => {
                let g = cell.try_borrow_mut().ok().expect("tail cell is free");
                let prev = cell.write(&g, Some(b_for_a));
                assert!(prev.is_none());
                cell.release_write(g);
            },
            CyclicList::Nil => panic!("a is a cons node"),
        }
    }
    assert_eq!(store.strong_count(&b), 2);
    assert_eq!(store.strong_count(&a), 2);
}

use shared_ownership::Store;

#[test]
fn create_starts_with_one_strong_no_weak() {
    let mut store: Store<i32> = Store::new();
    let h = store.create(7);
    assert_eq!(store.strong_count(&h), 1);
    assert_eq!(store.weak_count(&h), 0);
    let mut words: Store<String> = Store::new();
    let w = words.create(String::from("abc"));
    assert_eq!(words.strong_count(&w), 1);
    assert_eq!(words.weak_count(&w), 0);
}

#[test]
fn clone_increments_strong_and_leaves_weak() {
    let mut store: Store<&str> = Store::new();
    let a = store.create("hello");
    let b = store.clone_handle(&a);
    assert_eq!(store.strong_count(&a), 2);
    assert_eq!(store.weak_count(&a), 0);
    let c = store.clone_handle(&b);
    assert_eq!(store.strong_count(&a), 3);
    assert_eq!(store.weak_count(&a), 0);
    let _ = (b, c);
}

#[test]
fn downgrade_increments_weak_and_leaves_strong() {
    let mut store: Store<i32> = Store::new();
    let a = store.create(42);
    let w = store.downgrade(&a);
    assert_eq!(store.strong_count(&a), 1);
    assert_eq!(store.weak_count(&a), 1);
    let w2 = store.downgrade(&a);
    assert_eq!(store.strong_count(&a), 1);
    assert_eq!(store.weak_count(&a), 2);
    let _ = (w, w2);
}

#[test]
fn release_last_strong_fires_destructor_exactly_once() {
    let mut store: Store<i32> = Store::new();
    let a = store.create(5);
    let id = a.id();
    let b = store.clone_handle(&a);
    assert_eq!(store.release(b), None);
    assert!(!store.destructor_fired(id));
    assert_eq!(store.strong_count_at(id), 1);
    assert_eq!(store.release(a), Some(5));
    assert!(store.destructor_fired(id));
    assert_eq!(store.strong_count_at(id), 0);
}

#[test]
fn upgrade_succeeds_while_alive() {
    let mut store: Store<i32> = Store::new();
    let a = store.create(9);
    let w = store.downgrade(&a);
    let again = store.upgrade(&w).expect("referent is alive");
    assert_eq!(store.strong_count(&a), 2);
    assert_eq!(*store.read(&again), 9);
    let _ = again;
}

#[test]
fn upgrade_after_death_is_absent() {
    let mut store: Store<i32> = Store::new();
    let a = store.create(11);
    let id = a.id();
    let w = store.downgrade(&a);
    let w2 = store.downgrade(&a);
    assert_eq!(store.release(a), Some(11));
    assert!(store.upgrade(&w).is_none());
    assert!(store.upgrade(&w2).is_none());
    assert_eq!(store.strong_count_at(id), 0);
    store.release_weak(w);
    assert_eq!(store.weak_count_at(id), 1);
    store.release_weak(w2);
    assert_eq!(store.weak_count_at(id), 0);
}

#[test]
fn weak_handle_never_prevents_destruction() {
    let mut store: Store<String> = Store::new();
    let a = store.create(String::from("payload"));
    let id = a.id();
    let w = store.downgrade(&a);
    assert_eq!(store.release(a), Some(String::from("payload")));
    assert!(store.destructor_fired(id));
    assert_eq!(store.weak_count_at(id), 1);
    store.release_weak(w);
}

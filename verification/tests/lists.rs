use shared_ownership::Store;
use shared_ownership::boxed_list;
use shared_ownership::cell_list;
use shared_ownership::shared_list;
use std::cell::RefCell;
use std::rc::Rc;

#[test]
fn boxed_list_for_each_in_order_twice() {
    let list = Box::new(boxed_list::List::Cons(
        1,
        Box::new(boxed_list::List::Cons(
            2,
            Box::new(boxed_list::List::Cons(3, Box::new(boxed_list::List::Nil))),
        )),
    ));

    let seen: RefCell<Vec<i32>> = RefCell::new(Vec::new());
    list.for_each(&|i: &i32| {
        seen.borrow_mut().push(*i);
    });
    assert_eq!(*seen.borrow(), vec![1, 2, 3]);

    // Nothing was moved: the same walk works again.
    let seen_again: RefCell<Vec<i32>> = RefCell::new(Vec::new());
    list.for_each(&|i: &i32| {
        seen_again.borrow_mut().push(*i);
    });
    assert_eq!(*seen_again.borrow(), vec![1, 2, 3]);
}

#[test]
fn boxed_list_of_strings() {
    let list = boxed_list::List::Cons(
        String::from("one"),
        Box::new(boxed_list::List::Cons(
            String::from("two"),
            Box::new(boxed_list::List::Cons(
                String::from("three"),
                Box::new(boxed_list::List::Nil),
            )),
        )),
    );
    let seen: RefCell<Vec<String>> = RefCell::new(Vec::new());
    list.for_each(&|s: &String| {
        seen.borrow_mut().push(s.clone());
    });
    assert_eq!(*seen.borrow(), vec!["one", "two", "three"]);
}

#[test]
fn shared_list_shares_one_tail() {
    let a = Rc::new(shared_list::List::Cons(
        5,
        Rc::new(shared_list::List::Cons(10, Rc::new(shared_list::List::Nil))),
    ));
    assert_eq!(Rc::strong_count(&a), 1);
    let b = shared_list::List::Cons(3, Rc::clone(&a));
    assert_eq!(Rc::strong_count(&a), 2);
    let c = shared_list::List::Cons(4, Rc::clone(&a));
    assert_eq!(Rc::strong_count(&a), 3);

    let collect = |list: &shared_list::List<i32>| {
        let seen: RefCell<Vec<i32>> = RefCell::new(Vec::new());
        list.for_each(&|i: &i32| {
            seen.borrow_mut().push(*i);
        });
        seen.into_inner()
    };
    assert_eq!(collect(&a), vec![5, 10]);
    assert_eq!(collect(&b), vec![3, 5, 10]);
    assert_eq!(collect(&c), vec![4, 5, 10]);

    drop(c);
    assert_eq!(Rc::strong_count(&a), 2);
}

#[test]
fn values_agree_with_the_traversal() {
    let boxed = boxed_list::List::Cons(
        1,
        Box::new(boxed_list::List::Cons(2, Box::new(boxed_list::List::Nil))),
    );
    assert_eq!(boxed.values(), vec![1, 2]);

    let tail = Rc::new(shared_list::List::Cons(10, Rc::new(shared_list::List::Nil)));
    let shared = shared_list::List::Cons(3, tail);
    assert_eq!(shared.values(), vec![3, 10]);

    let mut store: Store<i32> = Store::new();
    let head = store.create(7);
    let list = cell_list::List::Cons(head, Rc::new(cell_list::List::Nil));
    assert_eq!(list.values(&store), vec![7]);
    match list {
        cell_list::List::Cons(h, _) => {
            *store.payload_mut(&h) = 8;
            let relisted = cell_list::List::Cons(h, Rc::new(cell_list::List::Nil));
            assert_eq!(relisted.values(&store), vec![8]);
        },
        cell_list::List::Nil => panic!("list is a cons node"),
    }
}

#[test]
fn cell_list_mutation_shows_through_every_owner() {
    let mut store: Store<i32> = Store::new();

    let value = store.create(5);
    let value_in_list = store.clone_handle(&value);
    let a = Rc::new(cell_list::List::Cons(value_in_list, Rc::new(cell_list::List::Nil)));
    let b = cell_list::List::Cons(store.create(3), Rc::clone(&a));
    let c = cell_list::List::Cons(store.create(4), Rc::clone(&a));

    // One write to the shared head...
    {
        let v = store.payload_mut(&value);
        *v += 10;
    }

    // ...shows through every list that owns it.
    let collect = |list: &cell_list::List, store: &Store<i32>| {
        let seen: RefCell<Vec<i32>> = RefCell::new(Vec::new());
        list.for_each(store, &|i: &i32| {
            seen.borrow_mut().push(*i);
        });
        seen.into_inner()
    };
    assert_eq!(collect(&a, &store), vec![15]);
    assert_eq!(collect(&b, &store), vec![3, 15]);
    assert_eq!(collect(&c, &store), vec![4, 15]);
}

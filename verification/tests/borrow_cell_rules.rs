use shared_ownership::BorrowCell;
use shared_ownership::BorrowViolation;

#[test]
fn many_concurrent_readers_succeed() {
    let mut cell = BorrowCell::new(1);
    let g1 = match cell.try_borrow() {
        Ok(g) => g,
        Err(_) => panic!("first read borrow must succeed"),
    };
    let g2 = match cell.try_borrow() {
        Ok(g) => g,
        Err(_) => panic!("second read borrow must succeed"),
    };
    let g3 = match cell.try_borrow() {
        Ok(g) => g,
        Err(_) => panic!("third read borrow must succeed"),
    };
    assert_eq!(*cell.read(), 1);
    cell.release_read(g1);
    cell.release_read(g2);
    cell.release_read(g3);
    let g = match cell.try_borrow_mut() {
        Ok(g) => g,
        Err(_) => panic!("all readers released, write borrow must succeed"),
    };
    cell.release_write(g);
}

#[test]
fn write_requested_while_reading_fails() {
    let mut cell = BorrowCell::new(7);
    let g = match cell.try_borrow() {
        Ok(g) => g,
        Err(_) => panic!("read borrow must succeed"),
    };
    match cell.try_borrow_mut() {
        Ok(_) => panic!("write borrow must fail while a reader is outstanding"),
        Err(cause) => assert_eq!(cause, BorrowViolation::WriteDuringRead),
    }
    cell.release_read(g);
    assert!(cell.try_borrow_mut().is_ok());
}

#[test]
fn second_writer_and_reader_fail_while_writing() {
    let mut cell = BorrowCell::new(7);
    let g = match cell.try_borrow_mut() {
        Ok(g) => g,
        Err(_) => panic!("write borrow must succeed"),
    };
    match cell.try_borrow_mut() {
        Ok(_) => panic!("second write borrow must fail"),
        Err(cause) => assert_eq!(cause, BorrowViolation::WriteDuringWrite),
    }
    match cell.try_borrow() {
        Ok(_) => panic!("read borrow must fail while a writer is outstanding"),
        Err(cause) => assert_eq!(cause, BorrowViolation::ReadDuringWrite),
    }
    cell.release_write(g);
    let g2 = match cell.try_borrow() {
        Ok(g) => g,
        Err(_) => panic!("writer released, read borrow must succeed"),
    };
    cell.release_read(g2);
}

#[test]
fn write_replaces_value_and_restores_free() {
    let mut cell = BorrowCell::new(7);
    let g = match cell.try_borrow_mut() {
        Ok(g) => g,
        Err(_) => panic!("write borrow must succeed"),
    };
    let prev = cell.write(&g, 9);
    assert_eq!(prev, 7);
    {
        let v = cell.value_mut(&g);
        *v += 1;
    }
    cell.release_write(g);
    assert_eq!(*cell.read(), 10);
}

#[test]
fn into_inner_hands_the_value_out() {
    let cell = BorrowCell::new(String::from("inner"));
    assert_eq!(cell.into_inner(), String::from("inner"));
}

//! A deliberately cycle-unsafe structure.
//!
//! Where the tree keeps its back-references weak, this list keeps a strong
//! handle inside an interior cell, so two nodes can be wired to own each
//! other. Once they are, each node's strong count can never fall below 1
//! again: no destructor hook ever fires, and the pair is leaked. The model
//! offers no cycle detection — breaking cycles is the caller's
//! responsibility, for instance by preferring weak back-references as the
//! tree does.

use crate::borrow_cell::BorrowCell;
use crate::borrow_cell::BorrowState;
use crate::handle::Handle;
use crate::handle::Store;
use vstd::prelude::*;

verus! {

/// A list node whose tail is a strong handle behind an interior cell — the
/// wiring that makes mutual ownership, and so a leak, possible.
pub enum CyclicList<T> {
    Cons(T, BorrowCell<Option<Handle>>),
    Nil,
}

/// The list node stored in block `i`, which must own a payload.
pub open spec fn cyclic_node_at<T>(s: Store<CyclicList<T>>, i: int) -> CyclicList<T> {
    s.payload_at(i).unwrap()
}

impl<T> CyclicList<T> {
    /// The interior cell holding this node's tail link, absent on `Nil`.
    pub fn tail(&self) -> (r: Option<&BorrowCell<Option<Handle>>>)
        ensures
            *self matches CyclicList::Cons(_, c) ==> (r matches Some(cell) && *cell == c),
            *self matches CyclicList::Nil ==> r is None,
    {
        match self {
            CyclicList::Cons(_, tail) => Some(tail),
            CyclicList::Nil => None,
        }
    }
}

/// Stores a strong handle to `b` inside `a`'s tail cell and a strong handle
/// to `a` inside `b`'s tail cell, raising each node's strong count by
/// exactly 1. When every outside handle to `a` and `b` is then released,
/// both strong counts stay at 1 forever: each node is kept alive solely by
/// the other, no destructor hook ever fires, and the memory is leaked.
pub fn link_mutually<T>(store: &mut Store<CyclicList<T>>, a: &Handle, b: &Handle)
    requires
        old(store).wf(),
        old(store).live(a.id() as int),
        old(store).live(b.id() as int),
        a.id() != b.id(),
        old(store).strong_at(a.id() as int) < u64::MAX,
        old(store).strong_at(b.id() as int) < u64::MAX,
        ({
            let na = cyclic_node_at(*old(store), a.id() as int);
            na matches CyclicList::Cons(_, cell) && cell.state() == BorrowState::Free
                && cell.val() is None
        }),
        ({
            let nb = cyclic_node_at(*old(store), b.id() as int);
            nb matches CyclicList::Cons(_, cell) && cell.state() == BorrowState::Free
                && cell.val() is None
        }),
    ensures
        final(store).wf(),
        final(store).blocks().len() == old(store).blocks().len(),
        forall|i: int|
            0 <= i < old(store).blocks().len() && i != a.id() as int && i != b.id() as int ==> final(store).blocks()[i] == old(store).blocks()[i],
        final(store).strong_at(a.id() as int) == old(store).strong_at(a.id() as int) + 1,
        final(store).strong_at(b.id() as int) == old(store).strong_at(b.id() as int) + 1,
        final(store).weak_at(a.id() as int) == old(store).weak_at(a.id() as int),
        final(store).weak_at(b.id() as int) == old(store).weak_at(b.id() as int),
        !final(store).destroyed_at(a.id() as int),
        !final(store).destroyed_at(b.id() as int),
        ({
            let na0 = cyclic_node_at(*old(store), a.id() as int);
            let na1 = cyclic_node_at(*final(store), a.id() as int);
            na0 matches CyclicList::Cons(v0, _) ==> (na1 matches CyclicList::Cons(v1, cell)
                && v1 == v0 && cell.state() == BorrowState::Free && (cell.val() matches Some(h)
                && h.id() == b.id()))
        }),
        ({
            let nb0 = cyclic_node_at(*old(store), b.id() as int);
            let nb1 = cyclic_node_at(*final(store), b.id() as int);
            nb0 matches CyclicList::Cons(v0, _) ==> (nb1 matches CyclicList::Cons(v1, cell)
                && v1 == v0 && cell.state() == BorrowState::Free && (cell.val() matches Some(h)
                && h.id() == a.id()))
        }),
{
    let hb = store.clone_handle(b);
    let anode = store.payload_mut(a);
    match anode {
        CyclicList::Cons(_, cell) => {
            let g = match cell.try_borrow_mut() {
                Ok(g) => g,
                Err(_) => unreached(),
            };
            let _prev = cell.write(&g, Some(hb));
            cell.release_write(g);
        },
        CyclicList::Nil => unreached(),
    }
    let ha = store.clone_handle(a);
    let bnode = store.payload_mut(b);
    match bnode {
        CyclicList::Cons(_, cell) => {
            let g = match cell.try_borrow_mut() {
                Ok(g) => g,
                Err(_) => unreached(),
            };
            let _prev = cell.write(&g, Some(ha));
            cell.release_write(g);
        },
        CyclicList::Nil => unreached(),
    }
}

} // verus!

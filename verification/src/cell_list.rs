//! A cons list with shared, mutable heads.
//!
//! Each head value lives in a reference-counted [`Store`] block, and the
//! list holds a strong [`Handle`] to it. Several lists may hold handles to
//! the same block, so a single write to the store shows through every list
//! — multiple owners of mutable data. The tails are shared as in
//! [`crate::shared_list`].

use crate::handle::Handle;
use crate::handle::Store;
use std::rc::Rc;
use vstd::prelude::*;

verus! {

/// A cons list whose heads are handles to shared values in a [`Store`].
/// The value type lives with the store, so the list itself carries none.
pub enum List {
    Cons(Handle, Rc<List>),
    Nil,
}

impl List {
    /// Every head handle of the list refers to a live block of `s`.
    pub open spec fn wf_in<T>(self, s: Store<T>) -> bool
        decreases self,
    {
        match self {
            List::Cons(h, next) => s.live(h.id() as int) && next.wf_in(s),
            List::Nil => true,
        }
    }

    /// The current values of the heads in `s`, front first.
    pub open spec fn elems<T>(self, s: Store<T>) -> Seq<T>
        decreases self,
    {
        match self {
            List::Cons(h, next) => seq![s.payload_at(h.id() as int).unwrap()] + next.elems(s),
            List::Nil => Seq::empty(),
        }
    }

    /// Calls `f` on each head's current value in the store, front first:
    /// on return, `f`'s postcondition holds of every element. Takes list
    /// and store by shared borrow, so nothing is moved and the walk can be
    /// repeated.
    pub fn for_each<T, F: Fn(&T)>(&self, store: &Store<T>, f: &F)
        requires
            store.wf(),
            self.wf_in(*store),
            forall|t: &T| call_requires(*f, (t,)),
        ensures
            forall|i: int|
                0 <= i < self.elems(*store).len() ==> call_ensures(
                    *f,
                    (&self.elems(*store)[i],),
                    (),
                ),
        decreases *self,
    {
        if let List::Cons(h, next) = self {
            f(store.read(h));
            next.for_each(store, f);
            proof {
                assert forall|i: int| 0 <= i < self.elems(*store).len() implies call_ensures(
                    *f,
                    (&self.elems(*store)[i],),
                    (),
                ) by {
                    if i == 0 {
                        assert(self.elems(*store)[0] == store.payload_at(h.id() as int).unwrap());
                    } else {
                        assert(self.elems(*store)[i] == next.elems(*store)[i - 1]);
                    }
                }
            }
        }
    }

    /// Appends the heads' current values, front first, to `out`.
    fn push_values<T: Copy>(&self, store: &Store<T>, out: &mut Vec<T>)
        requires
            store.wf(),
            self.wf_in(*store),
        ensures
            final(out)@ == old(out)@ + self.elems(*store),
        decreases *self,
    {
        match self {
            List::Cons(h, next) => {
                out.push(*store.read(h));
                next.push_values(store, out);
                proof {
                    assert(out@ =~= old(out)@ + self.elems(*store));
                }
            },
            List::Nil => {
                proof {
                    assert(out@ =~= old(out)@ + self.elems(*store));
                }
            },
        }
    }

    /// The heads' current values, front first, as a vector: what every
    /// owner of these heads sees right now.
    pub fn values<T: Copy>(&self, store: &Store<T>) -> (r: Vec<T>)
        requires
            store.wf(),
            self.wf_in(*store),
        ensures
            r@ == self.elems(*store),
    {
        let mut r: Vec<T> = Vec::new();
        self.push_values(store, &mut r);
        proof {
            assert(r@ =~= self.elems(*store));
        }
        r
    }
}

} // verus!

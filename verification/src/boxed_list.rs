//! A singly owned cons list.
//!
//! The recursive variant holds its tail behind a `Box`, which breaks the
//! otherwise infinite size of the type: a node owns exactly one tail, and
//! dropping the head drops the whole list.

use vstd::prelude::*;

verus! {

/// A cons list with single ownership of the tail.
pub enum List<T> {
    Cons(T, Box<List<T>>),
    Nil,
}

impl<T> List<T> {
    /// The values of the list, front first.
    pub open spec fn elems(self) -> Seq<T>
        decreases self,
    {
        match self {
            List::Cons(t, next) => seq![t] + next.elems(),
            List::Nil => Seq::empty(),
        }
    }

    /// Calls `f` on each value, front first: on return, `f`'s
    /// postcondition holds of every element of the list. Takes the list by
    /// shared borrow, so nothing is moved and the walk can be repeated.
    pub fn for_each<F: Fn(&T)>(&self, f: &F)
        requires
            forall|t: &T| call_requires(*f, (t,)),
        ensures
            forall|i: int| 0 <= i < self.elems().len() ==> call_ensures(*f, (&self.elems()[i],), ()),
        decreases *self,
    {
        if let List::Cons(t, next) = self {
            f(t);
            next.for_each(f);
            proof {
                assert forall|i: int| 0 <= i < self.elems().len() implies call_ensures(
                    *f,
                    (&self.elems()[i],),
                    (),
                ) by {
                    if i == 0 {
                        assert(self.elems()[0] == *t);
                    } else {
                        assert(self.elems()[i] == next.elems()[i - 1]);
                    }
                }
            }
        }
    }

    /// Appends the values of the list, front first, to `out`.
    fn push_values(&self, out: &mut Vec<T>) where T: Copy
        ensures
            final(out)@ == old(out)@ + self.elems(),
        decreases *self,
    {
        match self {
            List::Cons(t, next) => {
                out.push(*t);
                next.push_values(out);
                proof {
                    assert(out@ =~= old(out)@ + self.elems());
                }
            },
            List::Nil => {
                proof {
                    assert(out@ =~= old(out)@ + self.elems());
                }
            },
        }
    }

    /// The values of the list, front first, as a vector.
    pub fn values(&self) -> (r: Vec<T>) where T: Copy
        ensures
            r@ == self.elems(),
    {
        let mut r: Vec<T> = Vec::new();
        self.push_values(&mut r);
        proof {
            assert(r@ =~= self.elems());
        }
        r
    }
}

} // verus!

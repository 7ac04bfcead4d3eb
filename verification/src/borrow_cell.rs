//! A run-time-checked interior-mutability cell.
//!
//! A `BorrowCell` wraps a value together with a borrow-state field and
//! enforces, at run time, the rule the compiler enforces statically for
//! references: any number of concurrent shared borrows, or exactly one
//! exclusive borrow, never both. A violation is reported as an error value
//! that names its cause.

use vstd::prelude::*;

verus! {

/// The borrow state of a cell: free, shared by `n >= 1` readers, or
/// exclusively held by one writer.
#[derive(Clone, Copy, Debug, PartialEq, Eq, Structural)]
pub enum BorrowState {
    Free,
    Reading(u64),
    Writing,
}

/// The cause of a rejected borrow: which kind of borrow was requested while
/// which kind of borrow was outstanding.
#[derive(Clone, Copy, Debug, PartialEq, Eq, Structural)]
pub enum BorrowViolation {
    ReadDuringWrite,
    WriteDuringRead,
    WriteDuringWrite,
}

/// Witness of an outstanding shared borrow; hand it back with
/// [`BorrowCell::release_read`].
pub struct ReadGuard {
    marker: (),
}

/// Witness of an outstanding exclusive borrow; hand it back with
/// [`BorrowCell::release_write`].
pub struct WriteGuard {
    marker: (),
}

/// A value guarded by a run-time borrow state.
pub struct BorrowCell<T> {
    value: T,
    state: BorrowState,
}

impl<T> BorrowCell<T> {
    /// The wrapped value, as the specifications see it.
    pub closed spec fn val(self) -> T {
        self.value
    }

    /// The borrow state, as the specifications see it.
    pub closed spec fn state(self) -> BorrowState {
        self.state
    }

    /// A well-formed cell never records zero readers in the `Reading` state.
    pub open spec fn wf(self) -> bool {
        self.state() matches BorrowState::Reading(n) ==> n >= 1
    }

    /// Wraps `value`; no borrow is outstanding.
    pub fn new(value: T) -> (cell: BorrowCell<T>)
        ensures
            cell.val() == value,
            cell.state() == BorrowState::Free,
            cell.wf(),
    {
        BorrowCell { value, state: BorrowState::Free }
    }

    /// Requests a shared borrow. Succeeds from `Free` and from `Reading(n)`,
    /// raising the reader count; fails from `Writing`, naming the cause.
    pub fn try_borrow(&mut self) -> (r: Result<ReadGuard, BorrowViolation>)
        requires
            old(self).wf(),
            old(self).state() matches BorrowState::Reading(n) ==> n < u64::MAX,
        ensures
            final(self).val() == old(self).val(),
            final(self).wf(),
            match old(self).state() {
                BorrowState::Free => r is Ok && final(self).state() == BorrowState::Reading(1u64),
                BorrowState::Reading(n) => r is Ok && final(self).state() == BorrowState::Reading(
                    (n + 1) as u64,
                ),
                BorrowState::Writing => r == Err::<ReadGuard, BorrowViolation>(
                    BorrowViolation::ReadDuringWrite,
                ) && final(self).state() == old(self).state(),
            },
    {
        match self.state {
            BorrowState::Free => {
                self.state = BorrowState::Reading(1);
                Ok(ReadGuard { marker: () })
            },
            BorrowState::Reading(n) => {
                self.state = BorrowState::Reading(n + 1);
                Ok(ReadGuard { marker: () })
            },
            BorrowState::Writing => Err(BorrowViolation::ReadDuringWrite),
        }
    }

    /// Requests an exclusive borrow. Succeeds only from `Free`; fails from
    /// `Reading(_)` and from `Writing`, naming the cause.
    pub fn try_borrow_mut(&mut self) -> (r: Result<WriteGuard, BorrowViolation>)
        requires
            old(self).wf(),
        ensures
            final(self).val() == old(self).val(),
            final(self).wf(),
            match old(self).state() {
                BorrowState::Free => r is Ok && final(self).state() == BorrowState::Writing,
                BorrowState::Reading(_) => r == Err::<WriteGuard, BorrowViolation>(
                    BorrowViolation::WriteDuringRead,
                ) && final(self).state() == old(self).state(),
                BorrowState::Writing => r == Err::<WriteGuard, BorrowViolation>(
                    BorrowViolation::WriteDuringWrite,
                ) && final(self).state() == old(self).state(),
            },
    {
        match self.state {
            BorrowState::Free => {
                self.state = BorrowState::Writing;
                Ok(WriteGuard { marker: () })
            },
            BorrowState::Reading(_) => Err(BorrowViolation::WriteDuringRead),
            BorrowState::Writing => Err(BorrowViolation::WriteDuringWrite),
        }
    }

    /// Returns a shared borrow, dropping `Reading(n)` to `Reading(n - 1)`,
    /// or to `Free` when this was the last reader.
    pub fn release_read(&mut self, guard: ReadGuard)
        requires
            old(self).wf(),
            old(self).state() matches BorrowState::Reading(_),
        ensures
            final(self).val() == old(self).val(),
            final(self).wf(),
            match old(self).state() {
                BorrowState::Reading(n) => final(self).state() == if n > 1 {
                    BorrowState::Reading((n - 1) as u64)
                } else {
                    BorrowState::Free
                },
                _ => false,
            },
    {
        let ReadGuard { marker: () } = guard;
        match self.state {
            BorrowState::Reading(n) => {
                if n > 1 {
                    self.state = BorrowState::Reading(n - 1);
                } else {
                    self.state = BorrowState::Free;
                }
            },
            _ => {},
        }
    }

    /// Returns the exclusive borrow, restoring `Free`.
    pub fn release_write(&mut self, guard: WriteGuard)
        requires
            old(self).state() == BorrowState::Writing,
        ensures
            final(self).val() == old(self).val(),
            final(self).state() == BorrowState::Free,
            final(self).wf(),
    {
        let WriteGuard { marker: () } = guard;
        self.state = BorrowState::Free;
    }

    /// Reads the wrapped value. Sound whenever no exclusive borrow is
    /// outstanding: a shared read can coexist with other readers. Reading
    /// while a write guard is outstanding would be the fatal
    /// read-during-write violation, so that state is excluded here.
    pub fn read(&self) -> (r: &T)
        requires
            !(self.state() matches BorrowState::Writing),
        ensures
            *r == self.val(),
    {
        &self.value
    }

    /// Replaces the wrapped value through an exclusive borrow and returns
    /// the previous value.
    pub fn write(&mut self, _guard: &WriteGuard, value: T) -> (prev: T)
        requires
            old(self).state() == BorrowState::Writing,
        ensures
            prev == old(self).val(),
            final(self).val() == value,
            final(self).state() == old(self).state(),
            final(self).wf(),
    {
        let mut value = value;
        core::mem::swap(&mut self.value, &mut value);
        value
    }

    /// Consumes the cell and hands its value out. Owning the cell outright
    /// supersedes any recorded borrow state.
    pub fn into_inner(self) -> (v: T)
        ensures
            v == self.val(),
    {
        let BorrowCell { value, state: _ } = self;
        value
    }

    /// Mutable access to the wrapped value through an exclusive borrow.
    pub fn value_mut(&mut self, _guard: &WriteGuard) -> (r: &mut T)
        requires
            old(self).state() == BorrowState::Writing,
        ensures
            *r == old(self).val(),
            final(self).val() == *final(r),
            final(self).state() == old(self).state(),
            final(self).wf(),
    {
        &mut self.value
    }
}

} // verus!

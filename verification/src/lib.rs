//! A shared-ownership memory model: reference-counted handles with separate
//! strong and weak counters, a run-time-checked borrow cell, and a cycle-safe
//! tree built from both. A deliberately cycle-unsafe structure shows the
//! model's known leak failure mode.

use vstd::prelude::*;

mod borrow_cell;
mod cyclic;
mod handle;
mod lambda;
mod limit;
mod tree;

pub mod boxed_list;
pub mod cell_list;
pub mod shared_list;

pub use lambda::lambda;
pub use limit::LimitTracker;
pub use limit::Messenger;
pub use limit::QuotaLevel;
pub use limit::message_for;
pub use limit::quota_level;
pub use limit::spec_message_for;
pub use limit::spec_quota_level;

pub use cyclic::CyclicList;
pub use cyclic::cyclic_node_at;
pub use cyclic::link_mutually;

pub use tree::TreeNode;
pub use tree::cascade;
pub use tree::cascade_fuel;
pub use tree::cells_readable;
pub use tree::ids_below_from;
pub use tree::kids_len;
pub use tree::kids_of;
pub use tree::lemma_cascade_fires_both_hooks;
pub use tree::lemma_cascade_reaches_child;
pub use tree::node_at;
pub use tree::preorder;
pub use tree::preorder_kids;
pub use tree::preorder_node;
pub use tree::release_cascade;
pub use tree::sum_kids;
pub use tree::weak_dropped;
pub use handle::sum_strong;

pub use handle::Block;
pub use handle::Handle;
pub use handle::Store;
pub use handle::WeakHandle;
pub use handle::lemma_destroyed_block_stays_dead;
pub use handle::lemma_live_not_destroyed;
pub use borrow_cell::BorrowCell;
pub use borrow_cell::BorrowState;
pub use borrow_cell::BorrowViolation;
pub use borrow_cell::ReadGuard;
pub use borrow_cell::WriteGuard;

verus! {

/// Selects one of the library's demonstration areas for a driver to run.
pub enum IntermediateRust {
    Nothing,
    Lambda,
    ThreadAndMove,
    SmartPointers,
}

/// Selects one of the smart-pointer demonstrations for a driver to run.
pub enum SmartPointer {
    Nothing,
    Drop,
    Deref,
    BoxT,
    RcT,
    RefCellT,
}

} // verus!


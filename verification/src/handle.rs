//! Reference-counted shared ownership with explicit counters.
//!
//! A [`Store`] is an arena of control blocks. Each control block carries a
//! strong count, a weak count, and — while the strong count is positive —
//! the payload it owns. A [`Handle`] is an owning (strong) reference to one
//! block; a [`WeakHandle`] is a non-owning reference that never keeps the
//! payload alive. The payload is destroyed exactly once, at the transition
//! of the strong count from 1 to 0; the counts themselves remain observable
//! afterwards, so a stale weak reference can see that the payload is gone
//! without touching freed memory.

use vstd::prelude::*;

verus! {

/// Per-allocation bookkeeping: the two counters, the payload (owned while
/// the strong count is positive), and whether the destructor hook has fired.
pub struct Block<T> {
    pub strong: u64,
    pub weak: u64,
    pub payload: Option<T>,
    pub destroyed: bool,
}

/// An owning reference to one control block of a [`Store`]. Obtained from
/// `create`, `clone_handle` or `upgrade`; given back through `release`.
/// Deliberately not `Clone`: duplicating a handle goes through
/// `clone_handle`, which accounts for it.
pub struct Handle {
    id: usize,
}

/// A non-owning reference to one control block. Obtained from `downgrade`;
/// given back through `release_weak`; `upgrade` attempts to reconstitute an
/// owning handle and fails once the payload is gone.
pub struct WeakHandle {
    id: usize,
}

impl Handle {
    /// The index of the control block this handle refers to.
    pub closed spec fn spec_id(&self) -> usize {
        self.id
    }

    #[verifier::when_used_as_spec(spec_id)]
    pub fn id(&self) -> (i: usize)
        ensures
            i == self.spec_id(),
    {
        self.id
    }
}

impl WeakHandle {
    /// The index of the control block this weak handle refers to.
    pub closed spec fn spec_id(&self) -> usize {
        self.id
    }

    #[verifier::when_used_as_spec(spec_id)]
    pub fn id(&self) -> (i: usize)
        ensures
            i == self.spec_id(),
    {
        self.id
    }
}

/// The arena of control blocks. Blocks are never removed, so an index,
/// once handed out, stays meaningful; a fully dead block only keeps its
/// two zero counters.
pub struct Store<T> {
    blocks: Vec<Block<T>>,
}

impl<T> Store<T> {
    /// The control blocks, as the specifications see them.
    pub closed spec fn blocks(self) -> Seq<Block<T>> {
        self.blocks@
    }

    /// The strong count of block `i`.
    pub open spec fn strong_at(self, i: int) -> u64 {
        self.blocks()[i].strong
    }

    /// The weak count of block `i`.
    pub open spec fn weak_at(self, i: int) -> u64 {
        self.blocks()[i].weak
    }

    /// The payload of block `i`.
    pub open spec fn payload_at(self, i: int) -> Option<T> {
        self.blocks()[i].payload
    }

    /// Whether the destructor hook of block `i` has fired.
    pub open spec fn destroyed_at(self, i: int) -> bool {
        self.blocks()[i].destroyed
    }

    /// Block `i` exists and still owns its payload.
    pub open spec fn live(self, i: int) -> bool {
        0 <= i < self.blocks().len() && self.strong_at(i) > 0
    }

    /// The store's invariant: a block owns a payload exactly while its
    /// strong count is positive, and its destructor hook has fired exactly
    /// when the strong count has reached zero. Together these say the
    /// payload is destroyed exactly once, at the 1-to-0 transition.
    pub open spec fn wf(self) -> bool {
        forall|i: int|
            0 <= i < self.blocks().len() ==> (((#[trigger] self.blocks()[i]).destroyed
                <==> self.blocks()[i].strong == 0) && (self.blocks()[i].payload is Some
                <==> self.blocks()[i].strong > 0))
    }

    /// An empty arena.
    pub fn new() -> (s: Store<T>)
        ensures
            s.blocks() == Seq::<Block<T>>::empty(),
            s.wf(),
    {
        Store { blocks: Vec::new() }
    }

    /// The number of control blocks ever created.
    pub fn len(&self) -> (n: usize)
        ensures
            n == self.blocks().len(),
    {
        self.blocks.len()
    }

    /// Allocates a control block owning `value`, with a strong count of 1
    /// and a weak count of 0, and returns the first handle to it.
    pub fn create(&mut self, value: T) -> (h: Handle)
        requires
            old(self).wf(),
            old(self).blocks().len() < usize::MAX,
        ensures
            final(self).wf(),
            h.id() == old(self).blocks().len(),
            final(self).blocks() == old(self).blocks().push(
                Block { strong: 1u64, weak: 0u64, payload: Some(value), destroyed: false },
            ),
    {
        let id = self.blocks.len();
        self.blocks.push(Block { strong: 1, weak: 0, payload: Some(value), destroyed: false });
        Handle { id }
    }

    /// Clones a live handle: raises the strong count of its block by
    /// exactly 1 and leaves the weak count unchanged.
    pub fn clone_handle(&mut self, h: &Handle) -> (h2: Handle)
        requires
            old(self).wf(),
            old(self).live(h.id() as int),
            old(self).strong_at(h.id() as int) < u64::MAX,
        ensures
            final(self).wf(),
            h2.id() == h.id(),
            final(self).blocks() == old(self).blocks().update(
                h.id() as int,
                Block {
                    strong: (old(self).strong_at(h.id() as int) + 1) as u64,
                    ..old(self).blocks()[h.id() as int]
                },
            ),
    {
        let b = &mut self.blocks[h.id];
        b.strong = b.strong + 1;
        Handle { id: h.id }
    }

    /// Derives a weak handle from a live one: raises the weak count of its
    /// block by exactly 1 and leaves the strong count unchanged.
    pub fn downgrade(&mut self, h: &Handle) -> (w: WeakHandle)
        requires
            old(self).wf(),
            old(self).live(h.id() as int),
            old(self).weak_at(h.id() as int) < u64::MAX,
        ensures
            final(self).wf(),
            w.id() == h.id(),
            final(self).blocks() == old(self).blocks().update(
                h.id() as int,
                Block {
                    weak: (old(self).weak_at(h.id() as int) + 1) as u64,
                    ..old(self).blocks()[h.id() as int]
                },
            ),
    {
        let b = &mut self.blocks[h.id];
        b.weak = b.weak + 1;
        WeakHandle { id: h.id }
    }

    /// Releases a strong handle: lowers the strong count by 1. When this
    /// was the last strong handle, the payload is destroyed — handed back
    /// to the caller as the destructor hook's argument — and the block
    /// records that the hook has fired; no other call can ever fire it
    /// again, because no strong handle to the block can exist any more.
    pub fn release(&mut self, h: Handle) -> (dropped: Option<T>)
        requires
            old(self).wf(),
            old(self).live(h.id() as int),
        ensures
            final(self).wf(),
            old(self).strong_at(h.id() as int) > 1 ==> dropped is None && final(self).blocks()
                == old(self).blocks().update(
                h.id() as int,
                Block {
                    strong: (old(self).strong_at(h.id() as int) - 1) as u64,
                    ..old(self).blocks()[h.id() as int]
                },
            ),
            old(self).strong_at(h.id() as int) == 1 ==> dropped == old(self).payload_at(
                h.id() as int,
            ) && dropped is Some && final(self).blocks() == old(self).blocks().update(
                h.id() as int,
                Block {
                    strong: 0u64,
                    weak: old(self).weak_at(h.id() as int),
                    payload: None,
                    destroyed: true,
                },
            ),
    {
        let b = &mut self.blocks[h.id];
        if b.strong == 1 {
            b.strong = 0;
            b.destroyed = true;
            b.payload.take()
        } else {
            b.strong = b.strong - 1;
            None
        }
    }

    /// Releases a weak handle: lowers the weak count by 1. The payload is
    /// never affected.
    pub fn release_weak(&mut self, w: WeakHandle) -> (r: ())
        requires
            old(self).wf(),
            0 <= w.id() < old(self).blocks().len(),
            old(self).weak_at(w.id() as int) > 0,
        ensures
            final(self).wf(),
            final(self).blocks() == old(self).blocks().update(
                w.id() as int,
                Block {
                    weak: (old(self).weak_at(w.id() as int) - 1) as u64,
                    ..old(self).blocks()[w.id() as int]
                },
            ),
    {
        let b = &mut self.blocks[w.id];
        b.weak = b.weak - 1;
    }

    /// Attempts to reconstitute an owning handle from a weak one. Succeeds,
    /// raising the strong count by 1, exactly while the payload is still
    /// alive; once the strong count has reached 0, every upgrade returns
    /// `None` — absence is a normal outcome here, not an error.
    pub fn upgrade(&mut self, w: &WeakHandle) -> (r: Option<Handle>)
        requires
            old(self).wf(),
            0 <= w.id() < old(self).blocks().len(),
            old(self).strong_at(w.id() as int) < u64::MAX,
        ensures
            final(self).wf(),
            old(self).strong_at(w.id() as int) == 0 ==> r is None && final(self).blocks() == old(self).blocks(),
            old(self).strong_at(w.id() as int) > 0 ==> (r matches Some(h) && h.id() == w.id())
                && final(self).blocks() == old(self).blocks().update(
                w.id() as int,
                Block {
                    strong: (old(self).strong_at(w.id() as int) + 1) as u64,
                    ..old(self).blocks()[w.id() as int]
                },
            ),
    {
        self.upgrade_at(w.id)
    }

    /// Attempts an upgrade by block index; see [`Store::upgrade`]. The tree
    /// keeps weak parent links inside the arena itself, where only the index
    /// of the referent is at hand.
    pub fn upgrade_at(&mut self, id: usize) -> (r: Option<Handle>)
        requires
            old(self).wf(),
            id < old(self).blocks().len(),
            old(self).strong_at(id as int) < u64::MAX,
        ensures
            final(self).wf(),
            old(self).strong_at(id as int) == 0 ==> r is None && final(self).blocks() == old(self).blocks(),
            old(self).strong_at(id as int) > 0 ==> (r matches Some(h) && h.id() == id) && final(self).blocks() == old(self).blocks().update(
                id as int,
                Block {
                    strong: (old(self).strong_at(id as int) + 1) as u64,
                    ..old(self).blocks()[id as int]
                },
            ),
    {
        let b = &mut self.blocks[id];
        if b.strong == 0 {
            None
        } else {
            b.strong = b.strong + 1;
            Some(Handle { id })
        }
    }

    /// Whether block `id` still owns its payload.
    pub fn live_at(&self, id: usize) -> (b: bool)
        requires
            id < self.blocks().len(),
        ensures
            b == (self.strong_at(id as int) > 0),
    {
        self.blocks[id].strong > 0
    }

    /// Releases one strong count of block `id` if any is left, tolerating a
    /// block that is already dead. Cascading destruction walks handles that
    /// were stored inside destroyed payloads, whose accounting the caller
    /// cannot state; this lenient form keeps that walk safe.
    pub(crate) fn release_any(&mut self, id: usize) -> (dropped: Option<T>)
        requires
            old(self).wf(),
            id < old(self).blocks().len(),
        ensures
            final(self).wf(),
            old(self).strong_at(id as int) == 0 ==> dropped is None && final(self).blocks() == old(self).blocks(),
            old(self).strong_at(id as int) > 1 ==> dropped is None && final(self).blocks() == old(self).blocks().update(
                id as int,
                Block {
                    strong: (old(self).strong_at(id as int) - 1) as u64,
                    ..old(self).blocks()[id as int]
                },
            ),
            old(self).strong_at(id as int) == 1 ==> dropped == old(self).payload_at(id as int)
                && dropped is Some && final(self).blocks() == old(self).blocks().update(
                id as int,
                Block {
                    strong: 0u64,
                    weak: old(self).weak_at(id as int),
                    payload: None,
                    destroyed: true,
                },
            ),
    {
        let b = &mut self.blocks[id];
        if b.strong == 0 {
            None
        } else if b.strong == 1 {
            b.strong = 0;
            b.destroyed = true;
            b.payload.take()
        } else {
            b.strong = b.strong - 1;
            None
        }
    }

    /// Releases one weak count of block `id` if any is left; the lenient
    /// counterpart of [`Store::release_weak`], for cascading destruction.
    pub(crate) fn release_weak_any(&mut self, id: usize)
        requires
            old(self).wf(),
            id < old(self).blocks().len(),
        ensures
            final(self).wf(),
            old(self).weak_at(id as int) == 0 ==> final(self).blocks() == old(self).blocks(),
            old(self).weak_at(id as int) > 0 ==> final(self).blocks() == old(self).blocks().update(
                id as int,
                Block {
                    weak: (old(self).weak_at(id as int) - 1) as u64,
                    ..old(self).blocks()[id as int]
                },
            ),
    {
        let b = &mut self.blocks[id];
        if b.weak > 0 {
            b.weak = b.weak - 1;
        }
    }

    /// The strong count observed through a handle.
    pub fn strong_count(&self, h: &Handle) -> (n: u64)
        requires
            0 <= h.id() < self.blocks().len(),
        ensures
            n == self.strong_at(h.id() as int),
    {
        self.blocks[h.id].strong
    }

    /// The weak count observed through a handle.
    pub fn weak_count(&self, h: &Handle) -> (n: u64)
        requires
            0 <= h.id() < self.blocks().len(),
        ensures
            n == self.weak_at(h.id() as int),
    {
        self.blocks[h.id].weak
    }

    /// The strong count of block `id`, for observers that no longer hold a
    /// handle (a leaked cycle keeps its counts observable this way).
    pub fn strong_count_at(&self, id: usize) -> (n: u64)
        requires
            id < self.blocks().len(),
        ensures
            n == self.strong_at(id as int),
    {
        self.blocks[id].strong
    }

    /// The weak count of block `id`.
    pub fn weak_count_at(&self, id: usize) -> (n: u64)
        requires
            id < self.blocks().len(),
        ensures
            n == self.weak_at(id as int),
    {
        self.blocks[id].weak
    }

    /// Whether the destructor hook of block `id` has fired.
    pub fn destructor_fired(&self, id: usize) -> (b: bool)
        requires
            id < self.blocks().len(),
        ensures
            b == self.destroyed_at(id as int),
    {
        self.blocks[id].destroyed
    }

    /// Reads the payload through a live handle.
    pub fn read(&self, h: &Handle) -> (r: &T)
        requires
            self.wf(),
            self.live(h.id() as int),
        ensures
            Some(*r) == self.payload_at(h.id() as int),
    {
        self.read_at(h.id)
    }

    /// Reads the payload of a live block by index; traversals resolve the
    /// handles they find stored inside other payloads this way.
    pub fn read_at(&self, id: usize) -> (r: &T)
        requires
            self.wf(),
            id < self.blocks().len(),
            self.strong_at(id as int) > 0,
        ensures
            Some(*r) == self.payload_at(id as int),
    {
        let b = &self.blocks[id];
        match &b.payload {
            Some(v) => v,
            None => unreached(),
        }
    }

    /// Mutable access to the payload through a live handle. The counts and
    /// the destroyed mark of the block are untouched; only the payload can
    /// change, to whatever the caller leaves behind the returned reference.
    pub fn payload_mut(&mut self, h: &Handle) -> (r: &mut T)
        requires
            old(self).wf(),
            old(self).live(h.id() as int),
        ensures
            Some(*r) == old(self).payload_at(h.id() as int),
            final(self).blocks() == old(self).blocks().update(
                h.id() as int,
                Block { payload: Some(*final(r)), ..old(self).blocks()[h.id() as int] },
            ),
            final(self).wf(),
    {
        let b = &mut self.blocks[h.id];
        match &mut b.payload {
            Some(v) => v,
            None => unreached(),
        }
    }
}

/// Law: after a block's strong count has reached zero its destructor hook
/// has fired, and it can never fire again — no live strong handle to the
/// block exists, so no `release` (the only operation that fires the hook)
/// is possible on it; nor can `clone_handle` or `upgrade` resurrect it.
pub proof fn lemma_destroyed_block_stays_dead<T>(s: Store<T>, i: int)
    requires
        s.wf(),
        0 <= i < s.blocks().len(),
        s.destroyed_at(i),
    ensures
        s.strong_at(i) == 0,
        !s.live(i),
        s.payload_at(i) is None,
{
}

/// Law: while a block's strong count is positive, its payload is alive and
/// its destructor hook has not fired. In particular, a leaked cycle — blocks
/// whose strong counts can never reach zero because they hold handles to
/// each other — never sees a destructor fire.
pub proof fn lemma_live_not_destroyed<T>(s: Store<T>, i: int)
    requires
        s.wf(),
        0 <= i < s.blocks().len(),
        s.strong_at(i) > 0,
    ensures
        !s.destroyed_at(i),
        s.payload_at(i) is Some,
{
}

/// The total of all strong counts in the arena; the measure that shrinks
/// with every release, which is what bounds cascading destruction.
pub open spec fn sum_strong<T>(blocks: Seq<Block<T>>) -> int
    decreases blocks.len(),
{
    if blocks.len() == 0 {
        0
    } else {
        sum_strong(blocks.drop_last()) + blocks.last().strong
    }
}

pub(crate) proof fn lemma_sum_strong_nonneg<T>(blocks: Seq<Block<T>>)
    ensures
        sum_strong(blocks) >= 0,
    decreases blocks.len(),
{
    if blocks.len() > 0 {
        lemma_sum_strong_nonneg(blocks.drop_last());
    }
}

/// Updating one block changes the total of the strong counts by exactly
/// the change to that block's strong count.
pub(crate) proof fn lemma_sum_strong_update<T>(blocks: Seq<Block<T>>, i: int, b: Block<T>)
    requires
        0 <= i < blocks.len(),
    ensures
        sum_strong(blocks.update(i, b)) == sum_strong(blocks) - blocks[i].strong + b.strong,
    decreases blocks.len(),
{
    let updated = blocks.update(i, b);
    if i == blocks.len() - 1 {
        assert(updated.drop_last() =~= blocks.drop_last());
    } else {
        assert(updated.drop_last() =~= blocks.drop_last().update(i, b));
        lemma_sum_strong_update(blocks.drop_last(), i, b);
    }
}

} // verus!

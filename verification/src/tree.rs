//! A cycle-safe tree built from the shared-ownership primitives.
//!
//! A node strongly owns its children — the handles to them live inside the
//! node's children cell, so a parent keeps its children alive — while the
//! link back to the parent is weak: a child never keeps its parent alive.
//! Built this way, the strong-ownership graph cannot contain a cycle, so
//! releasing the last outside handle to a subtree's root cascades
//! destruction down the whole subtree.

use crate::borrow_cell::BorrowCell;
use crate::borrow_cell::BorrowState;
use crate::handle::Block;
use crate::handle::Handle;
use crate::handle::Store;
use crate::handle::WeakHandle;
use crate::handle::lemma_sum_strong_nonneg;
use crate::handle::lemma_sum_strong_update;
use crate::handle::sum_strong;
use vstd::prelude::*;

verus! {

/// A tree node: a value, strongly owned children behind a borrow cell, and
/// a weak, possibly absent, link to the parent behind another.
pub struct TreeNode<T> {
    pub value: T,
    pub children: BorrowCell<Vec<Handle>>,
    pub parent: BorrowCell<Option<WeakHandle>>,
}

/// The node stored in block `i`, which must own a payload.
pub open spec fn node_at<T>(s: Store<TreeNode<T>>, i: int) -> TreeNode<T> {
    s.payload_at(i).unwrap()
}

/// No children cell in the arena is exclusively borrowed, so a traversal
/// may read every one of them. Reading a cell while a write guard is
/// outstanding is the fatal read-during-write violation; a traversal's
/// `requires` excludes exactly those inputs, the no-panic form of that
/// condition.
pub open spec fn cells_readable<T>(s: Store<TreeNode<T>>) -> bool {
    forall|i: int|
        0 <= i < s.blocks().len() && (#[trigger] s.payload_at(i)) is Some ==> !(s.payload_at(
            i,
        ).unwrap().children.state() matches BorrowState::Writing)
}

/// How many entries of a visited map are set; the complement of this count
/// is what shrinks as a traversal walks the arena.
spec fn count_marked(s: Seq<bool>) -> int
    decreases s.len(),
{
    if s.len() == 0 {
        0
    } else {
        count_marked(s.drop_last()) + if s.last() {
            1int
        } else {
            0int
        }
    }
}

proof fn lemma_count_marked_bounds(s: Seq<bool>)
    ensures
        0 <= count_marked(s) <= s.len(),
    decreases s.len(),
{
    if s.len() > 0 {
        lemma_count_marked_bounds(s.drop_last());
    }
}

proof fn lemma_count_marked_update_true(s: Seq<bool>, i: int)
    requires
        0 <= i < s.len(),
        !s[i],
    ensures
        count_marked(s.update(i, true)) == count_marked(s) + 1,
    decreases s.len(),
{
    let updated = s.update(i, true);
    if i == s.len() - 1 {
        assert(updated.drop_last() =~= s.drop_last());
    } else {
        assert(updated.drop_last() =~= s.drop_last().update(i, true));
        lemma_count_marked_update_true(s.drop_last(), i);
    }
}

proof fn lemma_count_marked_monotone(s1: Seq<bool>, s2: Seq<bool>)
    requires
        s1.len() == s2.len(),
        forall|i: int| 0 <= i < s1.len() && s1[i] ==> s2[i],
    ensures
        count_marked(s1) <= count_marked(s2),
    decreases s1.len(),
{
    if s1.len() > 0 {
        assert(forall|i: int|
            0 <= i < s1.drop_last().len() && s1.drop_last()[i] ==> s2.drop_last()[i]);
        lemma_count_marked_monotone(s1.drop_last(), s2.drop_last());
    }
}

/// The child handles of the node in block `i`.
pub open spec fn kids_of<T>(s: Store<TreeNode<T>>, i: int) -> Seq<Handle> {
    node_at(s, i).children.val()@
}

/// The pre-order visit of block `id`: its value first, then each child
/// subtree in sequence order, skipping blocks already marked in `visited`.
/// Returns the values visited and the updated visited map. `fuel` bounds
/// the nesting depth; see [`preorder`] for a depth that always suffices.
pub open spec fn preorder_node<T>(
    s: Store<TreeNode<T>>,
    id: int,
    visited: Seq<bool>,
    fuel: nat,
) -> (Seq<T>, Seq<bool>)
    decreases fuel, 0int, 0int,
{
    if fuel == 0 || !(0 <= id < s.blocks().len()) || visited.len() != s.blocks().len()
        || visited[id] {
        (Seq::empty(), visited)
    } else {
        let r = preorder_kids(s, kids_of(s, id), 0, visited.update(id, true), (fuel - 1) as nat);
        (seq![node_at(s, id).value] + r.0, r.1)
    }
}

/// The pre-order visit of the subtrees under `kids[i..]`, in order. A child
/// that is dead, out of range, or already visited contributes nothing.
pub open spec fn preorder_kids<T>(
    s: Store<TreeNode<T>>,
    kids: Seq<Handle>,
    i: int,
    visited: Seq<bool>,
    fuel: nat,
) -> (Seq<T>, Seq<bool>)
    decreases fuel, 1int, kids.len() - i,
{
    if !(0 <= i < kids.len()) {
        (Seq::empty(), visited)
    } else {
        let c = kids[i].id() as int;
        if 0 <= c < s.blocks().len() && visited.len() == s.blocks().len() && s.strong_at(c) > 0
            && !visited[c] {
            let r1 = preorder_node(s, c, visited, fuel);
            let r2 = preorder_kids(s, kids, i + 1, r1.1, fuel);
            (r1.0 + r2.0, r2.1)
        } else {
            preorder_kids(s, kids, i + 1, visited, fuel)
        }
    }
}

/// The pre-order traversal of the subtree rooted at block `root`, on an
/// arena where nothing is visited yet. A fuel of one more than the number
/// of blocks always suffices: every nesting step marks a fresh block.
pub open spec fn preorder<T>(s: Store<TreeNode<T>>, root: int) -> Seq<T> {
    preorder_node(
        s,
        root,
        Seq::new(s.blocks().len(), |i: int| false),
        (s.blocks().len() + 1) as nat,
    ).0
}

/// Fuel that always suffices to finish a traversal from `visited`: one
/// more than the number of blocks not yet marked.
spec fn fuel_for<T>(s: Store<TreeNode<T>>, visited: Seq<bool>) -> nat {
    (s.blocks().len() + 1 - count_marked(visited)) as nat
}

/// Enough fuel to finish a traversal from `visited`: every nesting step
/// marks one more block, so this margin never runs out.
spec fn enough<T>(s: Store<TreeNode<T>>, visited: Seq<bool>, fuel: nat) -> bool {
    fuel + count_marked(visited) > s.blocks().len()
}

proof fn lemma_preorder_node_visited<T>(
    s: Store<TreeNode<T>>,
    id: int,
    visited: Seq<bool>,
    fuel: nat,
)
    ensures
        ({
            let r = preorder_node(s, id, visited, fuel);
            &&& r.1.len() == visited.len()
            &&& forall|j: int| 0 <= j < visited.len() && visited[j] ==> r.1[j]
            &&& count_marked(r.1) >= count_marked(visited)
        }),
    decreases fuel, 0int, 0int,
{
    if !(fuel == 0 || !(0 <= id < s.blocks().len()) || visited.len() != s.blocks().len()
        || visited[id]) {
        let v1 = visited.update(id, true);
        lemma_count_marked_update_true(visited, id);
        lemma_preorder_kids_visited(s, kids_of(s, id), 0, v1, (fuel - 1) as nat);
        let rk = preorder_kids(s, kids_of(s, id), 0, v1, (fuel - 1) as nat);
        assert(preorder_node(s, id, visited, fuel).1 == rk.1);
        assert(forall|j: int| 0 <= j < visited.len() && visited[j] ==> v1[j]);
    }
}

proof fn lemma_preorder_kids_visited<T>(
    s: Store<TreeNode<T>>,
    kids: Seq<Handle>,
    i: int,
    visited: Seq<bool>,
    fuel: nat,
)
    ensures
        ({
            let r = preorder_kids(s, kids, i, visited, fuel);
            &&& r.1.len() == visited.len()
            &&& forall|j: int| 0 <= j < visited.len() && visited[j] ==> r.1[j]
            &&& count_marked(r.1) >= count_marked(visited)
        }),
    decreases fuel, 1int, kids.len() - i,
{
    if 0 <= i < kids.len() {
        let c = kids[i].id() as int;
        if 0 <= c < s.blocks().len() && visited.len() == s.blocks().len() && s.strong_at(c) > 0
            && !visited[c] {
            let r1 = preorder_node(s, c, visited, fuel);
            lemma_preorder_node_visited(s, c, visited, fuel);
            lemma_preorder_kids_visited(s, kids, i + 1, r1.1, fuel);
            lemma_count_marked_monotone(visited, r1.1);
        } else {
            lemma_preorder_kids_visited(s, kids, i + 1, visited, fuel);
        }
    }
}

proof fn lemma_preorder_node_fuel<T>(
    s: Store<TreeNode<T>>,
    id: int,
    visited: Seq<bool>,
    f1: nat,
    f2: nat,
)
    requires
        visited.len() == s.blocks().len(),
        enough(s, visited, f1),
        enough(s, visited, f2),
    ensures
        preorder_node(s, id, visited, f1) == preorder_node(s, id, visited, f2),
    decreases f1 + f2, 0int, 0int,
{
    lemma_count_marked_bounds(visited);
    if !(!(0 <= id < s.blocks().len()) || visited[id]) {
        let v1 = visited.update(id, true);
        lemma_count_marked_update_true(visited, id);
        lemma_preorder_kids_fuel(s, kids_of(s, id), 0, v1, (f1 - 1) as nat, (f2 - 1) as nat);
    }
}

proof fn lemma_preorder_kids_fuel<T>(
    s: Store<TreeNode<T>>,
    kids: Seq<Handle>,
    i: int,
    visited: Seq<bool>,
    f1: nat,
    f2: nat,
)
    requires
        visited.len() == s.blocks().len(),
        enough(s, visited, f1),
        enough(s, visited, f2),
    ensures
        preorder_kids(s, kids, i, visited, f1) == preorder_kids(s, kids, i, visited, f2),
    decreases f1 + f2, 1int, kids.len() - i,
{
    if 0 <= i < kids.len() {
        let c = kids[i].id() as int;
        if 0 <= c < s.blocks().len() && s.strong_at(c) > 0 && !visited[c] {
            lemma_preorder_node_fuel(s, c, visited, f1, f2);
            lemma_preorder_node_visited(s, c, visited, f1);
            lemma_count_marked_monotone(visited, preorder_node(s, c, visited, f1).1);
            lemma_preorder_kids_fuel(s, kids, i + 1, preorder_node(s, c, visited, f1).1, f1, f2);
        } else {
            lemma_preorder_kids_fuel(s, kids, i + 1, visited, f1, f2);
        }
    }
}

/// The number of child handles held by a block's node, zero once the
/// payload is destroyed.
pub open spec fn kids_len<T>(b: Block<TreeNode<T>>) -> int {
    match b.payload {
        Some(node) => node.children.val()@.len() as int,
        None => 0,
    }
}

/// The total number of child handles held in the arena; together with the
/// strong counts it bounds how long a cascading release can run.
pub open spec fn sum_kids<T>(blocks: Seq<Block<TreeNode<T>>>) -> int
    decreases blocks.len(),
{
    if blocks.len() == 0 {
        0
    } else {
        sum_kids(blocks.drop_last()) + kids_len(blocks.last())
    }
}

proof fn lemma_sum_kids_nonneg<T>(blocks: Seq<Block<TreeNode<T>>>)
    ensures
        sum_kids(blocks) >= 0,
    decreases blocks.len(),
{
    if blocks.len() > 0 {
        lemma_sum_kids_nonneg(blocks.drop_last());
    }
}

proof fn lemma_sum_kids_update<T>(blocks: Seq<Block<TreeNode<T>>>, i: int, b: Block<TreeNode<T>>)
    requires
        0 <= i < blocks.len(),
    ensures
        sum_kids(blocks.update(i, b)) == sum_kids(blocks) - kids_len(blocks[i]) + kids_len(b),
    decreases blocks.len(),
{
    let updated = blocks.update(i, b);
    if i == blocks.len() - 1 {
        assert(updated.drop_last() =~= blocks.drop_last());
    } else {
        assert(updated.drop_last() =~= blocks.drop_last().update(i, b));
        lemma_sum_kids_update(blocks.drop_last(), i, b);
    }
}

/// The indices, in order, of the handles in `kids[i..]` that lie below
/// `n` — what a destroyed node queues for release.
pub open spec fn ids_below_from(kids: Seq<Handle>, i: int, n: int) -> Seq<usize>
    decreases kids.len() - i,
{
    if !(0 <= i < kids.len()) {
        Seq::empty()
    } else if kids[i].id() < n {
        seq![kids[i].id()] + ids_below_from(kids, i + 1, n)
    } else {
        ids_below_from(kids, i + 1, n)
    }
}

proof fn lemma_ids_below_from_len(kids: Seq<Handle>, i: int, n: int)
    ensures
        ids_below_from(kids, i, n).len() <= if i < kids.len() {
            kids.len() - i
        } else {
            0
        },
    decreases kids.len() - i,
{
    if 0 <= i < kids.len() {
        lemma_ids_below_from_len(kids, i + 1, n);
    }
}

/// The arena after one stored weak link is given back: the referent's weak
/// count drops by 1 where the link is present, in range and accounted.
pub open spec fn weak_dropped<T>(
    blocks: Seq<Block<TreeNode<T>>>,
    link: Option<WeakHandle>,
) -> Seq<Block<TreeNode<T>>> {
    match link {
        Some(w) => if w.id() < blocks.len() && blocks[w.id() as int].weak > 0 {
            blocks.update(
                w.id() as int,
                Block {
                    weak: (blocks[w.id() as int].weak - 1) as u64,
                    ..blocks[w.id() as int]
                },
            )
        } else {
            blocks
        },
        None => blocks,
    }
}

/// The cascading release, step by step: take the last queued index; drop
/// one strong count of its block; where that was the last one, destroy the
/// payload, give back its weak parent link, and queue its children. `fuel`
/// bounds the steps; see [`release_cascade`] for a fuel that always
/// suffices.
pub open spec fn cascade<T>(
    blocks: Seq<Block<TreeNode<T>>>,
    pending: Seq<usize>,
    fuel: nat,
) -> Seq<Block<TreeNode<T>>>
    decreases fuel,
{
    if fuel == 0 || pending.len() == 0 {
        blocks
    } else {
        let id = pending.last() as int;
        let rest = pending.drop_last();
        if !(0 <= id < blocks.len()) || blocks[id].strong == 0 {
            cascade(blocks, rest, (fuel - 1) as nat)
        } else if blocks[id].strong > 1 {
            cascade(
                blocks.update(id, Block { strong: (blocks[id].strong - 1) as u64, ..blocks[id] }),
                rest,
                (fuel - 1) as nat,
            )
        } else {
            let node = blocks[id].payload.unwrap();
            let destroyed = blocks.update(
                id,
                Block { strong: 0u64, weak: blocks[id].weak, payload: None, destroyed: true },
            );
            cascade(
                weak_dropped(destroyed, node.parent.val()),
                rest + ids_below_from(node.children.val()@, 0, blocks.len() as int),
                (fuel - 1) as nat,
            )
        }
    }
}

/// Fuel under which [`cascade`] never stops early: every step shrinks the
/// queue plus the strong counts plus the stored child handles.
pub open spec fn cascade_fuel<T>(blocks: Seq<Block<TreeNode<T>>>) -> nat {
    (sum_strong(blocks) + sum_kids(blocks) + 2) as nat
}

/// The arena after releasing one strong handle to block `root` and letting
/// destruction cascade through the handles destroyed nodes held.
pub open spec fn release_cascade<T>(
    blocks: Seq<Block<TreeNode<T>>>,
    root: usize,
) -> Seq<Block<TreeNode<T>>> {
    cascade(blocks, seq![root], cascade_fuel(blocks))
}

/// Law: destroying a parent releases the handle it held to its child. For
/// a parent on its last strong count whose node holds exactly one child
/// handle and no parent link, the cascade destroys the parent and lowers
/// the child's strong count by 1 — a child retained elsewhere survives
/// with the remaining count, its block otherwise untouched.
pub proof fn lemma_cascade_reaches_child<T>(blocks: Seq<Block<TreeNode<T>>>, p: usize, c: usize)
    requires
        p < blocks.len(),
        c < blocks.len(),
        p != c,
        blocks[p as int].strong == 1,
        blocks[p as int].payload is Some,
        kids_len(blocks[p as int]) == 1,
        blocks[p as int].payload.unwrap().children.val()@[0].id() == c,
        blocks[p as int].payload.unwrap().parent.val() is None,
        blocks[c as int].strong > 1,
    ensures
        ({
            let after = release_cascade(blocks, p);
            &&& after[p as int] == (Block {
                strong: 0u64,
                weak: blocks[p as int].weak,
                payload: None::<TreeNode<T>>,
                destroyed: true,
            })
            &&& after[c as int] == (Block {
                strong: (blocks[c as int].strong - 1) as u64,
                ..blocks[c as int]
            })
            &&& forall|i: int|
                0 <= i < blocks.len() && i != p as int && i != c as int ==> after[i] == blocks[i]
        }),
{
    lemma_sum_strong_nonneg(blocks);
    lemma_sum_kids_nonneg(blocks);
    let f0 = cascade_fuel(blocks);
    let kids = blocks[p as int].payload.unwrap().children.val()@;
    let dead = blocks.update(
        p as int,
        Block { strong: 0u64, weak: blocks[p as int].weak, payload: None, destroyed: true },
    );
    assert(seq![p].last() == p);
    assert(seq![p].drop_last() =~= Seq::<usize>::empty());
    assert(ids_below_from(kids, 1, blocks.len() as int) =~= Seq::<usize>::empty());
    assert(ids_below_from(kids, 0, blocks.len() as int) =~= seq![c]);
    assert(Seq::<usize>::empty() + seq![c] =~= seq![c]);
    assert(seq![c].last() == c);
    assert(seq![c].drop_last() =~= Seq::<usize>::empty());
    assert(cascade(blocks, seq![p], f0) == cascade(dead, seq![c], (f0 - 1) as nat));
    let dropped = dead.update(
        c as int,
        Block { strong: (dead[c as int].strong - 1) as u64, ..dead[c as int] },
    );
    assert(cascade(dead, seq![c], (f0 - 1) as nat) == cascade(
        dropped,
        Seq::<usize>::empty(),
        (f0 - 2) as nat,
    ));
    assert(release_cascade(blocks, p) == dropped);
}

/// Law: releasing the last handle to a parent whose child has no other
/// owner fires both destructor hooks, each exactly once — destruction
/// cascades down the whole subtree — and gives the child's weak parent
/// link back to the parent's block.
pub proof fn lemma_cascade_fires_both_hooks<T>(blocks: Seq<Block<TreeNode<T>>>, p: usize, c: usize)
    requires
        p < blocks.len(),
        c < blocks.len(),
        p != c,
        blocks[p as int].strong == 1,
        blocks[p as int].payload is Some,
        kids_len(blocks[p as int]) == 1,
        blocks[p as int].payload.unwrap().children.val()@[0].id() == c,
        blocks[p as int].payload.unwrap().parent.val() is None,
        blocks[c as int].strong == 1,
        blocks[c as int].payload is Some,
        kids_len(blocks[c as int]) == 0,
        blocks[c as int].payload.unwrap().parent.val() matches Some(w) && w.id() == p,
        blocks[p as int].weak > 0,
    ensures
        ({
            let after = release_cascade(blocks, p);
            &&& after[p as int] == (Block {
                strong: 0u64,
                weak: (blocks[p as int].weak - 1) as u64,
                payload: None::<TreeNode<T>>,
                destroyed: true,
            })
            &&& after[c as int] == (Block {
                strong: 0u64,
                weak: blocks[c as int].weak,
                payload: None::<TreeNode<T>>,
                destroyed: true,
            })
            &&& forall|i: int|
                0 <= i < blocks.len() && i != p as int && i != c as int ==> after[i] == blocks[i]
        }),
{
    lemma_sum_strong_nonneg(blocks);
    lemma_sum_kids_nonneg(blocks);
    let f0 = cascade_fuel(blocks);
    let kids = blocks[p as int].payload.unwrap().children.val()@;
    let dead_p = blocks.update(
        p as int,
        Block { strong: 0u64, weak: blocks[p as int].weak, payload: None, destroyed: true },
    );
    assert(seq![p].last() == p);
    assert(seq![p].drop_last() =~= Seq::<usize>::empty());
    assert(ids_below_from(kids, 1, blocks.len() as int) =~= Seq::<usize>::empty());
    assert(ids_below_from(kids, 0, blocks.len() as int) =~= seq![c]);
    assert(Seq::<usize>::empty() + seq![c] =~= seq![c]);
    assert(seq![c].last() == c);
    assert(seq![c].drop_last() =~= Seq::<usize>::empty());
    assert(cascade(blocks, seq![p], f0) == cascade(dead_p, seq![c], (f0 - 1) as nat));
    let ckids = dead_p[c as int].payload.unwrap().children.val()@;
    let dead_c = dead_p.update(
        c as int,
        Block { strong: 0u64, weak: blocks[c as int].weak, payload: None, destroyed: true },
    );
    let link = dead_p[c as int].payload.unwrap().parent.val();
    let dropped = weak_dropped(dead_c, link);
    assert(dropped == dead_c.update(
        p as int,
        Block { weak: (blocks[p as int].weak - 1) as u64, ..dead_c[p as int] },
    ));
    assert(ids_below_from(ckids, 0, dead_p.len() as int) =~= Seq::<usize>::empty());
    assert(Seq::<usize>::empty() + ids_below_from(ckids, 0, dead_p.len() as int)
        =~= Seq::<usize>::empty());
    assert(cascade(dead_p, seq![c], (f0 - 1) as nat) == cascade(
        dropped,
        Seq::<usize>::empty(),
        (f0 - 2) as nat,
    ));
    assert(release_cascade(blocks, p) == dropped);
}

/// Enough fuel to finish the cascade from this state.
spec fn cascade_enough<T>(
    blocks: Seq<Block<TreeNode<T>>>,
    pending: Seq<usize>,
    fuel: nat,
) -> bool {
    fuel > pending.len() + sum_strong(blocks) + sum_kids(blocks)
}

proof fn lemma_count_marked_all_false(s: Seq<bool>)
    requires
        forall|j: int| 0 <= j < s.len() ==> !s[j],
    ensures
        count_marked(s) == 0,
    decreases s.len(),
{
    if s.len() > 0 {
        lemma_count_marked_all_false(s.drop_last());
    }
}

/// Depth-first pre-order collection: like the visit, but records each value
/// into `out`, and provably produces exactly the specified pre-order.
fn visit_collect<T: Copy>(
    store: &Store<TreeNode<T>>,
    id: usize,
    visited: &mut Vec<bool>,
    out: &mut Vec<T>,
)
    requires
        store.wf(),
        cells_readable(*store),
        id < store.blocks().len(),
        store.strong_at(id as int) > 0,
        old(visited)@.len() == store.blocks().len(),
        !old(visited)@[id as int],
    ensures
        ({
            let r = preorder_node(
                *store,
                id as int,
                old(visited)@,
                fuel_for(*store, old(visited)@),
            );
            final(visited)@ == r.1 && final(out)@ == old(out)@ + r.0
        }),
    decreases store.blocks().len() - count_marked(old(visited)@),
{
    let ghost v0 = visited@;
    let ghost fz = fuel_for(*store, v0);
    let ghost fkids = (fz - 1) as nat;
    let marked = &mut visited[id];
    *marked = true;
    proof {
        lemma_count_marked_update_true(v0, id as int);
        lemma_count_marked_bounds(v0);
    }
    let ghost v1 = visited@;
    let node = store.read_at(id);
    out.push(node.value);
    let ghost out1 = out@;
    let kids = node.children.read();
    let mut i: usize = 0;
    while i < kids.len()
        invariant
            store.wf(),
            cells_readable(*store),
            id < store.blocks().len(),
            i <= kids@.len(),
            v0 == old(visited)@,
            v0.len() == store.blocks().len(),
            !v0[id as int],
            v1 == v0.update(id as int, true),
            fz == fuel_for(*store, v0),
            fz >= 1,
            fkids == (fz - 1) as nat,
            count_marked(v1) == count_marked(v0) + 1,
            0 <= count_marked(v0) <= v0.len(),
            out1 == old(out)@.push(node_at(*store, id as int).value),
            kids@ == kids_of(*store, id as int),
            visited@.len() == store.blocks().len(),
            forall|j: int| 0 <= j < v1.len() && v1[j] ==> visited@[j],
            count_marked(visited@) >= count_marked(v1),
            ({
                let full = preorder_kids(*store, kids@, 0, v1, fkids);
                let rest = preorder_kids(*store, kids@, i as int, visited@, fkids);
                out1 + full.0 == out@ + rest.0 && full.1 == rest.1
            }),
        decreases kids@.len() - i,
    {
        let ghost vcur = visited@;
        let ghost outcur = out@;
        let cid = kids[i].id();
        let mut skipped = true;
        if cid < store.len() {
            if store.live_at(cid) {
                if !visited[cid] {
                    skipped = false;
                    proof {
                        lemma_count_marked_monotone(v1, vcur);
                        lemma_count_marked_bounds(vcur);
                        lemma_preorder_node_fuel(
                            *store,
                            cid as int,
                            vcur,
                            fkids,
                            fuel_for(*store, vcur),
                        );
                    }
                    visit_collect(store, cid, visited, out);
                    proof {
                        lemma_preorder_node_visited(*store, cid as int, vcur, fkids);
                        let r1 = preorder_node(*store, cid as int, vcur, fkids);
                        lemma_count_marked_monotone(vcur, r1.1);
                        let rest_i = preorder_kids(*store, kids@, i as int, vcur, fkids);
                        let rest_next = preorder_kids(*store, kids@, i as int + 1, r1.1, fkids);
                        assert(rest_i.0 == r1.0 + rest_next.0);
                        assert(rest_i.1 == rest_next.1);
                        assert(visited@ == r1.1);
                        assert(out@ == outcur + r1.0);
                        assert(out1 + preorder_kids(*store, kids@, 0, v1, fkids).0 =~= out@
                            + rest_next.0);
                    }
                }
            }
        }
        proof {
            if skipped {
                assert(preorder_kids(*store, kids@, i as int, vcur, fkids) == preorder_kids(
                    *store,
                    kids@,
                    i as int + 1,
                    vcur,
                    fkids,
                ));
            }
        }
        i = i + 1;
    }
    proof {
        let full = preorder_kids(*store, kids@, 0, v1, fkids);
        assert(preorder_kids(*store, kids@, i as int, visited@, fkids).0 =~= Seq::<T>::empty());
        let r = preorder_node(*store, id as int, v0, fz);
        assert(r.0 == seq![node_at(*store, id as int).value] + full.0);
        assert(r.1 == full.1);
        assert(out@ =~= old(out)@ + r.0);
        assert(visited@ == r.1);
    }
}

/// Depth-first pre-order visit of one block and everything reachable from
/// it through stored child handles, skipping anything already visited:
/// `f` is called on exactly the values `preorder_node` lists, in order.
fn visit<T, F: Fn(&T)>(store: &Store<TreeNode<T>>, id: usize, f: &F, visited: &mut Vec<bool>)
    requires
        store.wf(),
        cells_readable(*store),
        id < store.blocks().len(),
        store.strong_at(id as int) > 0,
        forall|t: &T| call_requires(*f, (t,)),
        old(visited)@.len() == store.blocks().len(),
        !old(visited)@[id as int],
    ensures
        ({
            let r = preorder_node(
                *store,
                id as int,
                old(visited)@,
                fuel_for(*store, old(visited)@),
            );
            &&& final(visited)@ == r.1
            &&& forall|i: int| 0 <= i < r.0.len() ==> call_ensures(*f, (&r.0[i],), ())
        }),
    decreases store.blocks().len() - count_marked(old(visited)@),
{
    let ghost v0 = visited@;
    let ghost fz = fuel_for(*store, v0);
    let ghost fkids = (fz - 1) as nat;
    let marked = &mut visited[id];
    *marked = true;
    proof {
        lemma_count_marked_update_true(v0, id as int);
        lemma_count_marked_bounds(v0);
    }
    let ghost v1 = visited@;
    let node = store.read_at(id);
    f(&node.value);
    let ghost mut seen: Seq<T> = seq![node_at(*store, id as int).value];
    let kids = node.children.read();
    let mut i: usize = 0;
    while i < kids.len()
        invariant
            store.wf(),
            cells_readable(*store),
            forall|t: &T| call_requires(*f, (t,)),
            i <= kids@.len(),
            id < store.blocks().len(),
            v0 == old(visited)@,
            v0.len() == store.blocks().len(),
            !v0[id as int],
            v1 == v0.update(id as int, true),
            fz == fuel_for(*store, v0),
            fz >= 1,
            fkids == (fz - 1) as nat,
            count_marked(v1) == count_marked(v0) + 1,
            0 <= count_marked(v0) <= v0.len(),
            kids@ == kids_of(*store, id as int),
            visited@.len() == store.blocks().len(),
            forall|j: int| 0 <= j < v1.len() && v1[j] ==> visited@[j],
            count_marked(visited@) >= count_marked(v1),
            forall|k: int| 0 <= k < seen.len() ==> call_ensures(*f, (&seen[k],), ()),
            ({
                let full = preorder_kids(*store, kids@, 0, v1, fkids);
                let rest = preorder_kids(*store, kids@, i as int, visited@, fkids);
                &&& seq![node_at(*store, id as int).value] + full.0 == seen + rest.0
                &&& full.1 == rest.1
            }),
        decreases kids@.len() - i,
    {
        let ghost vcur = visited@;
        let ghost seencur = seen;
        let cid = kids[i].id();
        let mut skipped = true;
        if cid < store.len() {
            if store.live_at(cid) {
                if !visited[cid] {
                    skipped = false;
                    proof {
                        lemma_count_marked_monotone(v1, vcur);
                        lemma_count_marked_bounds(vcur);
                        lemma_preorder_node_fuel(
                            *store,
                            cid as int,
                            vcur,
                            fkids,
                            fuel_for(*store, vcur),
                        );
                    }
                    visit(store, cid, f, visited);
                    proof {
                        lemma_preorder_node_visited(*store, cid as int, vcur, fkids);
                        let r1 = preorder_node(*store, cid as int, vcur, fkids);
                        lemma_count_marked_monotone(vcur, r1.1);
                        let rest_i = preorder_kids(*store, kids@, i as int, vcur, fkids);
                        let rest_next = preorder_kids(*store, kids@, i as int + 1, r1.1, fkids);
                        assert(rest_i.0 == r1.0 + rest_next.0);
                        assert(rest_i.1 == rest_next.1);
                        assert(visited@ == r1.1);
                        seen = seencur + r1.0;
                        assert forall|k: int| 0 <= k < seen.len() implies call_ensures(
                            *f,
                            (&seen[k],),
                            (),
                        ) by {
                            if k < seencur.len() {
                                assert(seen[k] == seencur[k]);
                            } else {
                                assert(seen[k] == r1.0[k - seencur.len()]);
                            }
                        }
                        assert(seq![node_at(*store, id as int).value] + preorder_kids(
                            *store,
                            kids@,
                            0,
                            v1,
                            fkids,
                        ).0 =~= seen + rest_next.0);
                    }
                }
            }
        }
        proof {
            if skipped {
                assert(preorder_kids(*store, kids@, i as int, vcur, fkids) == preorder_kids(
                    *store,
                    kids@,
                    i as int + 1,
                    vcur,
                    fkids,
                ));
            }
        }
        i = i + 1;
    }
    proof {
        let full = preorder_kids(*store, kids@, 0, v1, fkids);
        assert(preorder_kids(*store, kids@, i as int, visited@, fkids).0 =~= Seq::<T>::empty());
        let r = preorder_node(*store, id as int, v0, fz);
        assert(r.0 == seq![node_at(*store, id as int).value] + full.0);
        assert(r.1 == full.1);
        assert(seen =~= r.0);
        assert(visited@ == r.1);
        assert forall|k: int| 0 <= k < r.0.len() implies call_ensures(*f, (&r.0[k],), ()) by {
            assert(r.0[k] == seen[k]);
        }
    }
}


impl<T> TreeNode<T> {
    /// Creates a node with `value`, no children, and an absent — never
    /// upgradable — parent link, owned by a fresh control block.
    pub fn new(store: &mut Store<TreeNode<T>>, value: T) -> (h: Handle)
        requires
            old(store).wf(),
            old(store).blocks().len() < usize::MAX,
        ensures
            final(store).wf(),
            h.id() == old(store).blocks().len(),
            final(store).blocks().len() == old(store).blocks().len() + 1,
            forall|i: int|
                0 <= i < old(store).blocks().len() ==> final(store).blocks()[i] == old(store).blocks()[i],
            final(store).strong_at(h.id() as int) == 1,
            final(store).weak_at(h.id() as int) == 0,
            !final(store).destroyed_at(h.id() as int),
            ({
                let n = node_at(*final(store), h.id() as int);
                &&& n.value == value
                &&& n.children.val()@.len() == 0
                &&& n.children.state() == BorrowState::Free
                &&& n.parent.val() is None
                &&& n.parent.state() == BorrowState::Free
            }),
    {
        store.create(
            TreeNode {
                value,
                children: BorrowCell::new(Vec::new()),
                parent: BorrowCell::new(None),
            },
        )
    }

    /// Moves `child` into `parent`'s children — the parent now strongly
    /// owns the child, the handle itself carrying the ownership, so the
    /// child's strong count does not change — and points the child's
    /// parent link weakly back at the parent, raising the parent's weak
    /// count by exactly 1.
    pub fn append_child(store: &mut Store<TreeNode<T>>, parent: &Handle, child: Handle)
        requires
            old(store).wf(),
            old(store).live(parent.id() as int),
            old(store).live(child.id() as int),
            parent.id() != child.id(),
            old(store).weak_at(parent.id() as int) < u64::MAX,
            ({
                let p = node_at(*old(store), parent.id() as int);
                p.children.state() == BorrowState::Free && p.children.val()@.len() < usize::MAX
            }),
            ({
                let c = node_at(*old(store), child.id() as int);
                c.parent.state() == BorrowState::Free && c.parent.val() is None
            }),
        ensures
            final(store).wf(),
            final(store).blocks().len() == old(store).blocks().len(),
            forall|i: int|
                0 <= i < old(store).blocks().len() && i != parent.id() as int && i != child.id()
                    as int ==> final(store).blocks()[i] == old(store).blocks()[i],
            final(store).strong_at(parent.id() as int) == old(store).strong_at(parent.id() as int),
            final(store).weak_at(parent.id() as int) == old(store).weak_at(parent.id() as int) + 1,
            !final(store).destroyed_at(parent.id() as int),
            final(store).strong_at(child.id() as int) == old(store).strong_at(child.id() as int),
            final(store).weak_at(child.id() as int) == old(store).weak_at(child.id() as int),
            !final(store).destroyed_at(child.id() as int),
            ({
                let p0 = node_at(*old(store), parent.id() as int);
                let p1 = node_at(*final(store), parent.id() as int);
                &&& p1.value == p0.value
                &&& p1.parent == p0.parent
                &&& p1.children.state() == BorrowState::Free
                &&& p1.children.val()@ == p0.children.val()@.push(child)
            }),
            ({
                let c0 = node_at(*old(store), child.id() as int);
                let c1 = node_at(*final(store), child.id() as int);
                &&& c1.value == c0.value
                &&& c1.children == c0.children
                &&& c1.parent.state() == BorrowState::Free
                &&& c1.parent.val() matches Some(w) && w.id() == parent.id()
            }),
    {
        let w = store.downgrade(parent);
        let cnode = store.payload_mut(&child);
        let g = match cnode.parent.try_borrow_mut() {
            Ok(g) => g,
            Err(_) => unreached(),
        };
        let _prev = cnode.parent.write(&g, Some(w));
        cnode.parent.release_write(g);
        let pnode = store.payload_mut(parent);
        let g2 = match pnode.children.try_borrow_mut() {
            Ok(g) => g,
            Err(_) => unreached(),
        };
        let kids = pnode.children.value_mut(&g2);
        kids.push(child);
        pnode.children.release_write(g2);
    }

    /// Follows the weak parent link of a node: absent if the link was
    /// never set or the parent's payload is already destroyed; otherwise a
    /// fresh strong handle to the parent, raising its strong count by 1.
    pub fn parent_of(store: &mut Store<TreeNode<T>>, h: &Handle) -> (r: Option<Handle>)
        requires
            old(store).wf(),
            old(store).live(h.id() as int),
            !(node_at(*old(store), h.id() as int).parent.state() matches BorrowState::Writing),
            ({
                let link = node_at(*old(store), h.id() as int).parent.val();
                link matches Some(w) ==> w.id() < old(store).blocks().len() && old(store).strong_at(w.id() as int) < u64::MAX
            }),
        ensures
            final(store).wf(),
            ({
                let link = node_at(*old(store), h.id() as int).parent.val();
                match link {
                    None => r is None && final(store).blocks() == old(store).blocks(),
                    Some(w) => {
                        &&& old(store).strong_at(w.id() as int) == 0 ==> r is None && final(store).blocks() == old(store).blocks()
                        &&& old(store).strong_at(w.id() as int) > 0 ==> (r matches Some(h2)
                            && h2.id() == w.id()) && final(store).blocks() == old(store).blocks().update(
                            w.id() as int,
                            Block {
                                strong: (old(store).strong_at(w.id() as int) + 1) as u64,
                                ..old(store).blocks()[w.id() as int]
                            },
                        )
                    },
                }
            }),
    {
        let wid: Option<usize> = {
            let node = store.read(h);
            match node.parent.read() {
                Some(w) => Some(w.id()),
                None => None,
            }
        };
        match wid {
            None => None,
            Some(id) => store.upgrade_at(id),
        }
    }

    /// Depth-first pre-order traversal: visits the root's value, then each
    /// child subtree in sequence order, so that on return `f`'s
    /// postcondition holds of every value [`preorder`] lists. Purely a
    /// read — the store is only borrowed — so repeated calls see the same
    /// structure. A block is visited at most once, which also bounds the
    /// walk on any arena.
    pub fn for_each<F: Fn(&T)>(store: &Store<TreeNode<T>>, root: &Handle, f: &F)
        requires
            store.wf(),
            cells_readable(*store),
            store.live(root.id() as int),
            forall|t: &T| call_requires(*f, (t,)),
        ensures
            forall|i: int|
                0 <= i < preorder(*store, root.id() as int).len() ==> call_ensures(
                    *f,
                    (&preorder(*store, root.id() as int)[i],),
                    (),
                ),
    {
        let n = store.len();
        let mut visited: Vec<bool> = Vec::new();
        let mut k: usize = 0;
        while k < n
            invariant
                k <= n,
                visited@.len() == k,
                forall|j: int| 0 <= j < k ==> !visited@[j],
            decreases n - k,
        {
            visited.push(false);
            k = k + 1;
        }
        proof {
            assert(visited@ =~= Seq::new(store.blocks().len(), |i: int| false));
            lemma_count_marked_all_false(visited@);
        }
        visit(store, root.id(), f, &mut visited);
    }

    /// The values of the subtree under `root` in depth-first pre-order, as
    /// [`preorder`] specifies them: the root's value first, then each child
    /// subtree in sequence order, every block at most once. The store is
    /// only borrowed, so repeated calls return the same sequence.
    pub fn preorder_values(store: &Store<TreeNode<T>>, root: &Handle) -> (r: Vec<T>) where
        T: Copy,

        requires
            store.wf(),
            cells_readable(*store),
            store.live(root.id() as int),
        ensures
            r@ == preorder(*store, root.id() as int),
    {
        let n = store.len();
        let mut visited: Vec<bool> = Vec::new();
        let mut k: usize = 0;
        while k < n
            invariant
                k <= n,
                visited@.len() == k,
                forall|j: int| 0 <= j < k ==> !visited@[j],
            decreases n - k,
        {
            visited.push(false);
            k = k + 1;
        }
        let mut out: Vec<T> = Vec::new();
        proof {
            assert(visited@ =~= Seq::new(store.blocks().len(), |i: int| false));
            lemma_count_marked_all_false(visited@);
        }
        visit_collect(store, root.id(), &mut visited, &mut out);
        proof {
            assert(out@ =~= preorder(*store, root.id() as int));
        }
        out
    }

    /// Releases one strong handle to a subtree's root. If it was the last
    /// one, the root's destructor hook fires and in turn releases the
    /// node's handles to its children, cascading destruction down every
    /// part of the subtree that no other owner still keeps alive — the
    /// arena ends exactly as [`release_cascade`] states.
    pub fn release_subtree(store: &mut Store<TreeNode<T>>, h: Handle)
        requires
            old(store).wf(),
            old(store).live(h.id() as int),
        ensures
            final(store).wf(),
            final(store).blocks().len() == old(store).blocks().len(),
            final(store).blocks() == release_cascade(old(store).blocks(), h.id()),
            old(store).strong_at(h.id() as int) > 1 ==> final(store).blocks() == old(store).blocks().update(
                h.id() as int,
                Block {
                    strong: (old(store).strong_at(h.id() as int) - 1) as u64,
                    ..old(store).blocks()[h.id() as int]
                },
            ),
            old(store).strong_at(h.id() as int) == 1 ==> final(store).strong_at(h.id() as int)
                == 0 && final(store).destroyed_at(h.id() as int),
    {
        let ghost b0 = store.blocks();
        let ghost n0 = store.blocks().len();
        let ghost f0 = cascade_fuel(b0);
        proof {
            lemma_sum_strong_nonneg(b0);
            lemma_sum_kids_nonneg(b0);
            assert(seq![h.id()].last() == h.id());
            assert(seq![h.id()].drop_last() =~= Seq::<usize>::empty());
        }
        let hid = h.id();
        let dropped = store.release(h);
        let ghost mut fc: nat = (f0 - 1) as nat;
        match dropped {
            None => {
                proof {
                    assert(cascade(store.blocks(), Seq::<usize>::empty(), fc) == store.blocks());
                    assert(release_cascade(b0, hid) == store.blocks());
                }
            },
            Some(node) => {
                let ghost destroyed_root = store.blocks();
                proof {
                    lemma_sum_strong_update(b0, hid as int, destroyed_root[hid as int]);
                    lemma_sum_kids_update(b0, hid as int, destroyed_root[hid as int]);
                }
                let mut pending: Vec<usize> = Vec::new();
                let TreeNode { value: _, children, parent } = node;
                let kids: Vec<Handle> = children.into_inner();
                let mut i: usize = 0;
                while i < kids.len()
                    invariant
                        i <= kids@.len(),
                        store.blocks() == destroyed_root,
                        store.blocks().len() == n0,
                        pending@ + ids_below_from(kids@, i as int, n0 as int) == ids_below_from(
                            kids@,
                            0,
                            n0 as int,
                        ),
                        forall|j: int| 0 <= j < pending@.len() ==> (#[trigger] pending@[j]) < n0,
                    decreases kids@.len() - i,
                {
                    let ghost pend_pre = pending@;
                    let cid = kids[i].id();
                    if cid < store.len() {
                        pending.push(cid);
                    }
                    proof {
                        assert(pending@ + ids_below_from(kids@, i as int + 1, n0 as int)
                            =~= pend_pre + ids_below_from(kids@, i as int, n0 as int));
                    }
                    i = i + 1;
                }
                proof {
                    assert(ids_below_from(kids@, i as int, n0 as int) =~= Seq::<usize>::empty());
                    assert(pending@ =~= ids_below_from(kids@, 0, n0 as int));
                }
                let ghost link = parent.val();
                match parent.into_inner() {
                    Some(w) => {
                        let ghost mid = store.blocks();
                        let wid = w.id();
                        if wid < store.len() {
                            store.release_weak_any(wid);
                            proof {
                                if mid[wid as int].weak > 0 {
                                    lemma_sum_strong_update(
                                        mid,
                                        wid as int,
                                        store.blocks()[wid as int],
                                    );
                                    lemma_sum_kids_update(
                                        mid,
                                        wid as int,
                                        store.blocks()[wid as int],
                                    );
                                }
                            }
                        }
                    },
                    None => {},
                }
                proof {
                    assert(store.blocks() == weak_dropped(destroyed_root, link));
                    lemma_ids_below_from_len(kids@, 0, n0 as int);
                    assert(Seq::<usize>::empty() + pending@ =~= pending@);
                    assert(cascade(b0, seq![hid], f0) == cascade(store.blocks(), pending@, fc));
                    assert(cascade_enough(store.blocks(), pending@, fc));
                }
                while pending.len() > 0
                    invariant
                        store.wf(),
                        hid < n0,
                        store.blocks().len() == n0,
                        forall|j: int| 0 <= j < pending@.len() ==> (#[trigger] pending@[j]) < n0,
                        store.strong_at(hid as int) == 0,
                        store.destroyed_at(hid as int),
                        cascade_enough(store.blocks(), pending@, fc),
                        cascade(store.blocks(), pending@, fc) == cascade(b0, seq![hid], f0),
                    decreases fc,
                {
                    let ghost pre = store.blocks();
                    let ghost pend_pre = pending@;
                    proof {
                        lemma_sum_strong_nonneg(pre);
                        lemma_sum_kids_nonneg(pre);
                    }
                    let id = match pending.pop() {
                        Some(x) => x,
                        None => unreached(),
                    };
                    proof {
                        assert(pend_pre.last() == id);
                        assert(pending@ == pend_pre.drop_last());
                    }
                    match store.release_any(id) {
                        None => {
                            proof {
                                if pre[id as int].strong > 1 {
                                    lemma_sum_strong_update(
                                        pre,
                                        id as int,
                                        store.blocks()[id as int],
                                    );
                                    lemma_sum_kids_update(
                                        pre,
                                        id as int,
                                        store.blocks()[id as int],
                                    );
                                }
                                assert(cascade(store.blocks(), pending@, (fc - 1) as nat)
                                    == cascade(pre, pend_pre, fc));
                                fc = (fc - 1) as nat;
                            }
                        },
                        Some(node2) => {
                            let ghost destroyed_blk = store.blocks();
                            proof {
                                lemma_sum_strong_update(
                                    pre,
                                    id as int,
                                    destroyed_blk[id as int],
                                );
                                lemma_sum_kids_update(pre, id as int, destroyed_blk[id as int]);
                            }
                            let ghost pend_rest = pending@;
                            let TreeNode { value: _, children, parent } = node2;
                            let kids2: Vec<Handle> = children.into_inner();
                            let mut i2: usize = 0;
                            while i2 < kids2.len()
                                invariant
                                    i2 <= kids2@.len(),
                                    store.blocks() == destroyed_blk,
                                    store.blocks().len() == n0,
                                    pending@ + ids_below_from(kids2@, i2 as int, n0 as int)
                                        == pend_rest + ids_below_from(kids2@, 0, n0 as int),
                                    forall|j: int|
                                        0 <= j < pending@.len() ==> (#[trigger] pending@[j]) < n0,
                                decreases kids2@.len() - i2,
                            {
                                let ghost pend_cur = pending@;
                                let cid = kids2[i2].id();
                                if cid < store.len() {
                                    pending.push(cid);
                                }
                                proof {
                                    assert(pending@ + ids_below_from(kids2@, i2 as int + 1, n0 as int)
                                        =~= pend_cur + ids_below_from(kids2@, i2 as int, n0 as int));
                                }
                                i2 = i2 + 1;
                            }
                            proof {
                                assert(ids_below_from(kids2@, i2 as int, n0 as int)
                                    =~= Seq::<usize>::empty());
                                assert(pending@ =~= pend_rest + ids_below_from(
                                    kids2@,
                                    0,
                                    n0 as int,
                                ));
                            }
                            let ghost link2 = parent.val();
                            match parent.into_inner() {
                                Some(w) => {
                                    let ghost mid = store.blocks();
                                    let wid = w.id();
                                    if wid < store.len() {
                                        store.release_weak_any(wid);
                                        proof {
                                            if mid[wid as int].weak > 0 {
                                                lemma_sum_strong_update(
                                                    mid,
                                                    wid as int,
                                                    store.blocks()[wid as int],
                                                );
                                                lemma_sum_kids_update(
                                                    mid,
                                                    wid as int,
                                                    store.blocks()[wid as int],
                                                );
                                            }
                                        }
                                    }
                                },
                                None => {},
                            }
                            proof {
                                assert(store.blocks() == weak_dropped(destroyed_blk, link2));
                                lemma_ids_below_from_len(kids2@, 0, n0 as int);
                                assert(cascade(store.blocks(), pending@, (fc - 1) as nat)
                                    == cascade(pre, pend_pre, fc));
                                fc = (fc - 1) as nat;
                            }
                        },
                    }
                }
                proof {
                    assert(cascade(store.blocks(), pending@, fc) == store.blocks());
                    assert(release_cascade(b0, hid) == store.blocks());
                }
            },
        }
    }
}

} // verus!

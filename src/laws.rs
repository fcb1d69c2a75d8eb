//! What holds across calls, stated over the models that the operations'
//! contracts use, and proved.
use vstd::prelude::*;

use crate::chain::{
    chain_alloc, chain_inc, chain_len, chain_release, chain_set, chain_update, chain_wf,
    chain_write, lemma_alloc_wf, lemma_chain_len_links, lemma_push_wf,
    lemma_release_wf, lemma_step_back_wf, lemma_step_next_len, lemma_step_next_wf, live, node,
    node_ok, push_over, relinked, step_back, step_next, NodeView,
};
use crate::rc_box::{cell_alloc, cell_inc, cell_live, cell_release, cell_write, cells_wf, CellView};

verus! {

/// A new cell reads back the value it was made with, and is held by one handle.
pub proof fn lemma_cell_new_reads_back<T>(s: Seq<Option<CellView<T>>>, v: T)
    ensures
        cell_live(cell_alloc(s, v), s.len() as int),
        cell_alloc(s, v)[s.len() as int].unwrap().value == v,
        cell_alloc(s, v)[s.len() as int].unwrap().count == 1,
{
}

/// A new chain node reads back the value it was made with, is held by one
/// handle, and is alone in its chain.
pub proof fn lemma_chain_new_reads_back<T>(s: Seq<Option<NodeView<T>>>, v: T)
    requires
        chain_wf(s),
    ensures
        chain_wf(chain_alloc(s, v)),
        live(chain_alloc(s, v), s.len() as int),
        node(chain_alloc(s, v), s.len() as int).value == v,
        node(chain_alloc(s, v), s.len() as int).count == 1,
        chain_len(chain_alloc(s, v), s.len() as int) == 1,
{
    lemma_alloc_wf(s, v);
}

/// A new cell shared once counts two handles; releasing one leaves the cell as
/// it was made, with one handle; releasing that one frees it.
pub proof fn lemma_cell_share_and_release<T>(s: Seq<Option<CellView<T>>>, v: T)
    ensures
        cell_inc(cell_alloc(s, v), s.len() as int)[s.len() as int].unwrap().count == 2,
        cell_release(cell_inc(cell_alloc(s, v), s.len() as int), s.len() as int) == cell_alloc(s, v),
        !cell_live(cell_release(cell_alloc(s, v), s.len() as int), s.len() as int),
{
    let i = s.len() as int;
    assert(cell_release(cell_inc(cell_alloc(s, v), i), i) =~= cell_alloc(s, v));
}

/// Cloning a handle and releasing the clone gives back the same cells.
pub proof fn lemma_cell_clone_release<T>(s: Seq<Option<CellView<T>>>, i: int)
    requires
        cells_wf(s),
        cell_live(s, i),
    ensures
        cell_release(cell_inc(s, i), i) == s,
{
    assert(cell_release(cell_inc(s, i), i) =~= s);
}

/// A new chain node shared once counts two handles; releasing one leaves the
/// node as it was made, with one handle; releasing that one frees it.
pub proof fn lemma_chain_share_and_release<T>(s: Seq<Option<NodeView<T>>>, v: T)
    requires
        chain_wf(s),
    ensures
        node(chain_inc(chain_alloc(s, v), s.len() as int), s.len() as int).count == 2,
        chain_release(chain_inc(chain_alloc(s, v), s.len() as int), s.len() as int) == chain_alloc(s, v),
        !live(chain_release(chain_alloc(s, v), s.len() as int), s.len() as int),
{
    let i = s.len() as int;
    assert(chain_release(chain_inc(chain_alloc(s, v), i), i) =~= chain_alloc(s, v));
}

/// Cloning a handle and releasing the clone gives back the same chain.
pub proof fn lemma_chain_clone_release<T>(s: Seq<Option<NodeView<T>>>, i: int)
    requires
        chain_wf(s),
        live(s, i),
    ensures
        chain_release(chain_inc(s, i), i) == s,
{
    assert(node_ok(s, i));
    assert(chain_release(chain_inc(s, i), i) =~= s);
}

/// Writing through the only handle of a cell keeps the handle on that cell and
/// allocates nothing.
pub proof fn lemma_exclusive_write_keeps_cells<T>(s: Seq<Option<CellView<T>>>, i: int, v: T)
    requires
        cell_live(s, i),
        s[i].unwrap().count == 1,
    ensures
        cell_write(s, i, v).len() == s.len(),
        forall|j: int| cell_live(cell_write(s, i, v), j) <==> cell_live(s, j),
        cell_write(s, i, v)[i].unwrap().value == v,
        cell_write(s, i, v)[i].unwrap().count == 1,
{
}

/// Writing through the only handle of a node, in place, keeps the chain's
/// length and allocates nothing.
pub proof fn lemma_exclusive_write_keeps_chain<T>(s: Seq<Option<NodeView<T>>>, i: int, v: T)
    requires
        chain_wf(s),
        live(s, i),
        node(s, i).count == 1,
    ensures
        chain_write(s, i, v).len() == s.len(),
        chain_len(chain_write(s, i, v), i) == chain_len(s, i),
        node(chain_write(s, i, v), i).value == v,
{
    let t = chain_write(s, i, v);
    assert forall|k: int| 0 <= k <= i implies #[trigger] node(t, k).next == node(s, k).next by {}
    lemma_chain_len_links(s, t, i);
}

/// Setting through the only handle of a node keeps the handle on that node,
/// keeps the chain's length and allocates nothing.
pub proof fn lemma_exclusive_set_keeps_chain<T>(s: Seq<Option<NodeView<T>>>, i: int, v: T)
    requires
        chain_wf(s),
        live(s, i),
        node(s, i).count == 1,
    ensures
        chain_set(s, i, v).1 == i,
        chain_set(s, i, v).0.len() == s.len(),
        chain_len(chain_set(s, i, v).0, i) == chain_len(s, i),
        node(chain_set(s, i, v).0, i).value == v,
{
    lemma_exclusive_write_keeps_chain(s, i, v);
}

/// Setting through a shared node moves the handle to a new node whose chain is
/// one longer, while the shared node keeps its value for the other handles.
pub proof fn lemma_shared_set_pushes<T>(s: Seq<Option<NodeView<T>>>, i: int, v: T)
    requires
        chain_wf(s),
        live(s, i),
        node(s, i).count > 1,
    ensures
        chain_set(s, i, v).1 == s.len(),
        chain_wf(chain_set(s, i, v).0),
        chain_set(s, i, v).0.len() == s.len() + 1,
        node(chain_set(s, i, v).0, s.len() as int).value == v,
        node(chain_set(s, i, v).0, s.len() as int).count == 1,
        chain_len(chain_set(s, i, v).0, s.len() as int) == chain_len(s, i) + 1,
        live(chain_set(s, i, v).0, i),
        node(chain_set(s, i, v).0, i).value == node(s, i).value,
        node(chain_set(s, i, v).0, i).count == node(s, i).count - 1,
{
    let t = push_over(s, i, v);
    let n = s.len() as int;
    lemma_push_wf(s, i, v);
    assert(node_ok(s, i));
    assert forall|k: int| 0 <= k <= i implies #[trigger] node(t, k).next == node(s, k).next by {}
    lemma_chain_len_links(s, t, i);
    assert(node(t, n).next == Some(i));
}

/// After one handle of a shared node sets a value, another handle of that node
/// that updates reaches the new node, and reads the new value.
pub proof fn lemma_update_after_set<T>(s: Seq<Option<NodeView<T>>>, i: int, v: T)
    requires
        chain_wf(s),
        live(s, i),
        node(s, i).count > 1,
    ensures
        chain_update(chain_set(s, i, v).0, i).1 == chain_set(s, i, v).1,
        live(chain_update(chain_set(s, i, v).0, i).0, chain_set(s, i, v).1),
        node(chain_update(chain_set(s, i, v).0, i).0, chain_set(s, i, v).1).value == v,
{
    let t = chain_set(s, i, v).0;
    let n = s.len() as int;
    lemma_shared_set_pushes(s, i, v);
    assert(node(t, i).prev == Some(n));
    lemma_step_back_wf(t, i);
    let u = step_back(t, i).0;
    lemma_release_wf(t, i);
    assert(node_ok(t, i));
    assert(node(chain_release(t, i), n).prev is None);
    assert(node(u, n).prev is None);
    assert(chain_update(t, i) == chain_update(u, n));
}

/// Freeing the middle node of a chain of three joins the outer two: from
/// either of them the chain holds exactly those two, newest first.
pub proof fn lemma_release_middle<T>(s: Seq<Option<NodeView<T>>>, a: int, b: int, c: int)
    requires
        chain_wf(s),
        live(s, a),
        live(s, b),
        live(s, c),
        node(s, a).prev is None,
        node(s, a).next == Some(b),
        node(s, b).prev == Some(a),
        node(s, b).next == Some(c),
        node(s, c).prev == Some(b),
        node(s, c).next is None,
        node(s, b).count == 1,
    ensures
        !live(chain_release(s, b), b),
        live(chain_release(s, b), a),
        live(chain_release(s, b), c),
        node(chain_release(s, b), a).prev is None,
        node(chain_release(s, b), a).next == Some(c),
        node(chain_release(s, b), c).prev == Some(a),
        node(chain_release(s, b), c).next is None,
        chain_len(chain_release(s, b), a) == 2,
        chain_len(chain_release(s, b), c) == 1,
{
    let t = chain_release(s, b);
    assert(node_ok(s, a));
    assert(node_ok(s, b));
    assert(node_ok(s, c));
    assert(t[a] == Some(relinked(s, b, a)));
    assert(t[c] == Some(relinked(s, b, c)));
    assert(chain_len(t, c) == 1);
}

/// The position and chain after `k` steps to the older neighbour from node `i`.
pub open spec fn advance_times<T>(s: Seq<Option<NodeView<T>>>, i: int, k: nat) -> (Seq<Option<NodeView<T>>>, int)
    decreases k,
{
    if k == 0 {
        (s, i)
    } else {
        advance_times(step_next(s, i).0, step_next(s, i).1, (k - 1) as nat)
    }
}

/// Each step toward older nodes shortens the chain ahead by one.
pub proof fn lemma_advance_times_len<T>(s: Seq<Option<NodeView<T>>>, i: int, k: nat)
    requires
        chain_wf(s),
        live(s, i),
        k < chain_len(s, i),
    ensures
        chain_wf(advance_times(s, i, k).0),
        live(advance_times(s, i, k).0, advance_times(s, i, k).1),
        chain_len(advance_times(s, i, k).0, advance_times(s, i, k).1) + k == chain_len(s, i),
    decreases k,
{
    if k > 0 {
        assert(node_ok(s, i));
        assert(node(s, i).next is Some);
        lemma_step_next_wf(s, i);
        lemma_step_next_len(s, i);
        lemma_advance_times_len(step_next(s, i).0, step_next(s, i).1, (k - 1) as nat);
    }
}

/// From a node whose chain holds `n` nodes, stepping to the older neighbour
/// succeeds exactly `n - 1` times, and the next step finds none.
pub proof fn lemma_advance_next_count<T>(s: Seq<Option<NodeView<T>>>, i: int)
    requires
        chain_wf(s),
        live(s, i),
    ensures
        forall|k: nat|
            k < chain_len(s, i) - 1 ==> (#[trigger] node(advance_times(s, i, k).0, advance_times(s, i, k).1)).next is Some,
        node(
            advance_times(s, i, (chain_len(s, i) - 1) as nat).0,
            advance_times(s, i, (chain_len(s, i) - 1) as nat).1,
        ).next is None,
{
    assert forall|k: nat| k < chain_len(s, i) - 1 implies (#[trigger] node(
        advance_times(s, i, k).0,
        advance_times(s, i, k).1,
    )).next is Some by {
        lemma_advance_times_len(s, i, k);
        let (t, j) = advance_times(s, i, k);
        assert(node_ok(t, j));
    }
    let last = (chain_len(s, i) - 1) as nat;
    lemma_advance_times_len(s, i, last);
    let (t, j) = advance_times(s, i, last);
    assert(node_ok(t, j));
    if node(t, j).next is Some {
        assert(chain_len(t, j) == 1 + chain_len(t, node(t, j).next.unwrap()));
    }
}

} // verus!

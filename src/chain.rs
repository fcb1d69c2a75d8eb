//! The mathematical model of a version chain: a sequence of slots, each
//! empty or holding a node with its links, value and reference count.
//!
//! A node's `next` leads to an older version, its `prev` to a newer one.
//! A newer link is always matched by the older link back. Several nodes may
//! name the same older neighbour: when handles of an older node set values
//! one after another, each new node leads back to it, and that node's newer
//! link names the latest. Slots are numbered in order of allocation, so
//! `next` always leads to a lower slot and `prev` to a higher one; every
//! walk along the links ends.
use vstd::prelude::*;

verus! {

/// What a live node holds.
pub struct NodeView<T> {
    /// The newer neighbour, if any.
    pub prev: Option<int>,
    pub value: T,
    /// The number of handles that point at this node.
    pub count: nat,
    /// The older neighbour, if any.
    pub next: Option<int>,
}

/// Whether slot `i` of `s` holds a live node.
pub open spec fn live<T>(s: Seq<Option<NodeView<T>>>, i: int) -> bool {
    0 <= i < s.len() && s[i] is Some
}

/// The node in slot `i` of `s`.
pub open spec fn node<T>(s: Seq<Option<NodeView<T>>>, i: int) -> NodeView<T> {
    s[i].unwrap()
}

/// The links and count of live node `i` are in order: a newer neighbour is a
/// higher live slot whose older neighbour is `i`; an older neighbour is a
/// lower live slot.
pub open spec fn node_ok<T>(s: Seq<Option<NodeView<T>>>, i: int) -> bool {
    let n = node(s, i);
    &&& n.count >= 1
    &&& n.prev is Some ==> {
        let j = n.prev.unwrap();
        i < j && live(s, j) && node(s, j).next == Some(i)
    }
    &&& n.next is Some ==> {
        let j = n.next.unwrap();
        0 <= j < i && live(s, j)
    }
}

/// Every live node is in order.
pub open spec fn chain_wf<T>(s: Seq<Option<NodeView<T>>>) -> bool {
    forall|i: int| live(s, i) ==> #[trigger] node_ok(s, i)
}

/// Every live count can go up by one without overflow.
pub open spec fn counts_below_max<T>(s: Seq<Option<NodeView<T>>>) -> bool {
    forall|i: int| #[trigger] live(s, i) ==> node(s, i).count < usize::MAX
}

/// A node with another count.
pub open spec fn with_count<T>(n: NodeView<T>, count: nat) -> NodeView<T> {
    NodeView { prev: n.prev, value: n.value, count, next: n.next }
}

/// A fresh single node holding `value`, appended after the others.
pub open spec fn chain_alloc<T>(s: Seq<Option<NodeView<T>>>, value: T) -> Seq<Option<NodeView<T>>> {
    s.push(Some(NodeView { prev: None, value, count: 1, next: None }))
}

/// Node `i` with one more handle.
pub open spec fn chain_inc<T>(s: Seq<Option<NodeView<T>>>, i: int) -> Seq<Option<NodeView<T>>> {
    s.update(i, Some(with_count(node(s, i), node(s, i).count + 1)))
}

/// Node `i` holding `value` in place.
pub open spec fn chain_write<T>(s: Seq<Option<NodeView<T>>>, i: int, value: T) -> Seq<
    Option<NodeView<T>>,
> {
    let n = node(s, i);
    s.update(i, Some(NodeView { prev: n.prev, value, count: n.count, next: n.next }))
}

/// Node `k` once node `i` has left the chain: a link to `i` now leads
/// past it, to the neighbour that `i` had in the same direction.
pub open spec fn relinked<T>(s: Seq<Option<NodeView<T>>>, i: int, k: int) -> NodeView<T> {
    let n = node(s, k);
    let gone = node(s, i);
    NodeView {
        prev: if gone.next == Some(k) && n.prev == Some(i) {
            gone.prev
        } else {
            n.prev
        },
        value: n.value,
        count: n.count,
        next: if n.next == Some(i) {
            gone.next
        } else {
            n.next
        },
    }
}

/// The chain with node `i` freed and its neighbours joined to each other.
pub open spec fn splice_out<T>(s: Seq<Option<NodeView<T>>>, i: int) -> Seq<Option<NodeView<T>>> {
    Seq::new(
        s.len(),
        |k: int|
            if k == i || s[k] is None {
                None
            } else {
                Some(relinked(s, i, k))
            },
    )
}

/// Node `i` with one handle less: spliced out with its last handle.
pub open spec fn chain_release<T>(s: Seq<Option<NodeView<T>>>, i: int) -> Seq<Option<NodeView<T>>> {
    if node(s, i).count > 1 {
        s.update(i, Some(with_count(node(s, i), (node(s, i).count - 1) as nat)))
    } else {
        splice_out(s, i)
    }
}

/// A handle of shared node `i` moves to a new node holding `value`, whose
/// older neighbour is `i` and which becomes `i`'s newer neighbour.
pub open spec fn push_over<T>(s: Seq<Option<NodeView<T>>>, i: int, value: T) -> Seq<
    Option<NodeView<T>>,
> {
    let n = node(s, i);
    s.update(
        i,
        Some(NodeView { prev: Some(s.len() as int), value: n.value, count: (n.count - 1) as nat, next: n.next }),
    ).push(Some(NodeView { prev: None, value, count: 1, next: Some(i) }))
}

/// Setting `value` through a handle at node `i`: in place when the handle
/// is the only one, else onto a new node. Gives the chain and the node the
/// handle then points at.
pub open spec fn chain_set<T>(s: Seq<Option<NodeView<T>>>, i: int, value: T) -> (Seq<Option<NodeView<T>>>, int) {
    if node(s, i).count == 1 {
        (chain_write(s, i, value), i)
    } else {
        (push_over(s, i, value), s.len() as int)
    }
}

/// A handle at node `i` moves to its older neighbour, if there is one.
pub open spec fn step_next<T>(s: Seq<Option<NodeView<T>>>, i: int) -> (Seq<Option<NodeView<T>>>, int) {
    match node(s, i).next {
        Some(j) => (chain_inc(chain_release(s, i), j), j),
        None => (s, i),
    }
}

/// A handle at node `i` moves to its newer neighbour, if there is one.
pub open spec fn step_back<T>(s: Seq<Option<NodeView<T>>>, i: int) -> (Seq<Option<NodeView<T>>>, int) {
    match node(s, i).prev {
        Some(j) => (chain_inc(chain_release(s, i), j), j),
        None => (s, i),
    }
}

/// The number of nodes from `i` to the oldest, following `next`.
pub open spec fn chain_len<T>(s: Seq<Option<NodeView<T>>>, i: int) -> nat
    decreases i,
{
    match node(s, i).next {
        Some(j) => if 0 <= j < i {
            1 + chain_len(s, j)
        } else {
            1
        },
        None => 1,
    }
}

/// A handle at node `i` steps to newer neighbours until there is none.
pub open spec fn chain_update<T>(s: Seq<Option<NodeView<T>>>, i: int) -> (Seq<Option<NodeView<T>>>, int)
    decreases s.len() - i,
{
    match node(s, i).prev {
        Some(j) => if i < j < s.len() && step_back(s, i).0.len() == s.len() {
            chain_update(step_back(s, i).0, j)
        } else {
            (s, i)
        },
        None => (s, i),
    }
}

/// A fresh node keeps the chain in order.
pub proof fn lemma_alloc_wf<T>(s: Seq<Option<NodeView<T>>>, value: T)
    requires
        chain_wf(s),
    ensures
        chain_wf(chain_alloc(s, value)),
{
    let t = chain_alloc(s, value);
    assert forall|k: int| live(t, k) implies #[trigger] node_ok(t, k) by {
        if k < s.len() {
            assert(node_ok(s, k));
        }
    }
}

/// One more handle keeps the chain in order.
pub proof fn lemma_inc_wf<T>(s: Seq<Option<NodeView<T>>>, i: int)
    requires
        chain_wf(s),
        live(s, i),
    ensures
        chain_wf(chain_inc(s, i)),
        chain_inc(s, i).len() == s.len(),
        forall|k: int| live(chain_inc(s, i), k) <==> live(s, k),
{
    let t = chain_inc(s, i);
    assert forall|k: int| live(t, k) implies #[trigger] node_ok(t, k) by {
        assert(node_ok(s, k));
    }
}

/// Whether `t` has the live slots, links and counts of `s`, whatever the values.
pub open spec fn same_links<T>(s: Seq<Option<NodeView<T>>>, t: Seq<Option<NodeView<T>>>) -> bool {
    &&& t.len() == s.len()
    &&& forall|j: int|
        0 <= j < s.len() ==> {
            &&& (#[trigger] t[j] is Some <==> s[j] is Some)
            &&& s[j] is Some ==> {
                &&& t[j].unwrap().prev == s[j].unwrap().prev
                &&& t[j].unwrap().count == s[j].unwrap().count
                &&& t[j].unwrap().next == s[j].unwrap().next
            }
        }
}

/// Order depends on links and counts alone, not on values.
pub proof fn lemma_same_links_wf<T>(s: Seq<Option<NodeView<T>>>)
    requires
        chain_wf(s),
    ensures
        forall|t: Seq<Option<NodeView<T>>>| same_links(s, t) ==> #[trigger] chain_wf(t),
{
    assert forall|t: Seq<Option<NodeView<T>>>| same_links(s, t) implies #[trigger] chain_wf(t) by {
        assert forall|k: int| live(t, k) implies #[trigger] node_ok(t, k) by {
            assert(t[k] is Some);
            assert(node_ok(s, k));
            let n = node(s, k);
            if n.prev is Some {
                let j = n.prev.unwrap();
                assert(t[j] is Some);
                assert(node(t, j).next == node(s, j).next);
            }
            if n.next is Some {
                let j = n.next.unwrap();
                assert(t[j] is Some);
            }
        }
    }
}

/// Splicing a node out keeps the chain in order.
pub proof fn lemma_splice_wf<T>(s: Seq<Option<NodeView<T>>>, i: int)
    requires
        chain_wf(s),
        live(s, i),
    ensures
        chain_wf(splice_out(s, i)),
        splice_out(s, i).len() == s.len(),
        forall|k: int| live(splice_out(s, i), k) <==> (live(s, k) && k != i),
{
    let t = splice_out(s, i);
    let gone = node(s, i);
    assert(node_ok(s, i));
    assert forall|k: int| live(t, k) implies #[trigger] node_ok(t, k) by {
        assert(node_ok(s, k));
        let n = node(s, k);
        let m = node(t, k);
        if m.prev is Some {
            let j = m.prev.unwrap();
            if gone.next == Some(k) && n.prev == Some(i) {
                assert(node_ok(s, j));
            } else {
                assert(node_ok(s, j));
            }
        }
        if m.next is Some {
            let j = m.next.unwrap();
            if n.next == Some(i) {
                assert(node_ok(s, j));
            }
        }
    }
}

/// One handle less keeps the chain in order.
pub proof fn lemma_release_wf<T>(s: Seq<Option<NodeView<T>>>, i: int)
    requires
        chain_wf(s),
        live(s, i),
    ensures
        chain_wf(chain_release(s, i)),
        chain_release(s, i).len() == s.len(),
        forall|k: int| k != i ==> (live(chain_release(s, i), k) <==> live(s, k)),
        forall|k: int| #![auto] k != i && live(s, k) ==> node(chain_release(s, i), k).count == node(s, k).count,
{
    if node(s, i).count > 1 {
        let t = chain_release(s, i);
        assert forall|k: int| live(t, k) implies #[trigger] node_ok(t, k) by {
            assert(node_ok(s, k));
        }
    } else {
        lemma_splice_wf(s, i);
    }
}

/// Pushing a new version over a shared node keeps the chain in order.
pub proof fn lemma_push_wf<T>(s: Seq<Option<NodeView<T>>>, i: int, value: T)
    requires
        chain_wf(s),
        live(s, i),
        node(s, i).count > 1,
    ensures
        chain_wf(push_over(s, i, value)),
{
    let t = push_over(s, i, value);
    assert forall|k: int| live(t, k) implies #[trigger] node_ok(t, k) by {
        if k < s.len() {
            assert(node_ok(s, k));
        }
    }
}

/// A step to the older neighbour keeps the chain in order.
pub proof fn lemma_step_next_wf<T>(s: Seq<Option<NodeView<T>>>, i: int)
    requires
        chain_wf(s),
        live(s, i),
    ensures
        chain_wf(step_next(s, i).0),
        live(step_next(s, i).0, step_next(s, i).1),
        step_next(s, i).0.len() == s.len(),
{
    assert(node_ok(s, i));
    if node(s, i).next is Some {
        let j = node(s, i).next.unwrap();
        lemma_release_wf(s, i);
        lemma_inc_wf(chain_release(s, i), j);
    }
}

/// A step to the newer neighbour keeps the chain in order.
pub proof fn lemma_step_back_wf<T>(s: Seq<Option<NodeView<T>>>, i: int)
    requires
        chain_wf(s),
        live(s, i),
    ensures
        chain_wf(step_back(s, i).0),
        live(step_back(s, i).0, step_back(s, i).1),
        step_back(s, i).0.len() == s.len(),
{
    assert(node_ok(s, i));
    if node(s, i).prev is Some {
        let j = node(s, i).prev.unwrap();
        lemma_release_wf(s, i);
        lemma_inc_wf(chain_release(s, i), j);
    }
}

/// The length from `i` depends only on the older links of the nodes at or below `i`.
pub proof fn lemma_chain_len_links<T>(s: Seq<Option<NodeView<T>>>, t: Seq<Option<NodeView<T>>>, i: int)
    requires
        0 <= i,
        forall|k: int| 0 <= k <= i ==> #[trigger] node(t, k).next == node(s, k).next,
    ensures
        chain_len(t, i) == chain_len(s, i),
    decreases i,
{
    assert(node(t, i).next == node(s, i).next);
    match node(s, i).next {
        Some(j) => {
            if 0 <= j < i {
                lemma_chain_len_links(s, t, j);
            }
        },
        None => {},
    }
}

/// A step to the older neighbour keeps the length from there on.
pub proof fn lemma_step_next_len<T>(s: Seq<Option<NodeView<T>>>, i: int)
    requires
        chain_wf(s),
        live(s, i),
        node(s, i).next is Some,
    ensures
        step_next(s, i).1 == node(s, i).next.unwrap(),
        chain_len(step_next(s, i).0, step_next(s, i).1) + 1 == chain_len(s, i),
{
    assert(node_ok(s, i));
    let j = node(s, i).next.unwrap();
    let r = chain_release(s, i);
    let t = chain_inc(r, j);
    assert forall|k: int| 0 <= k <= j implies #[trigger] node(t, k).next == node(s, k).next by {
        if live(s, k) {
            assert(node_ok(s, k));
        }
    }
    lemma_chain_len_links(s, t, j);
}

} // verus!

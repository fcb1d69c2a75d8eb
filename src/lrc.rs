//! The version-chained reference-counted pointer.
use vstd::prelude::*;

use core::marker::PhantomData;

use crate::chain::{
    chain_alloc, chain_inc, chain_len, chain_release, chain_set, chain_update, chain_wf,
    chain_write, counts_below_max, lemma_alloc_wf, lemma_inc_wf, lemma_push_wf, lemma_release_wf, lemma_same_links_wf,
    lemma_splice_wf, lemma_step_back_wf, lemma_step_next_wf, live, node, node_ok,
    push_over, relinked, splice_out, step_back, step_next, with_count, NodeView,
};
use crate::takeable::Takeable;
use vstd::std_specs::cmp::{PartialEqSpec, PartialOrdSpec};

verus! {

/// A node of the chain: links to its newer and older neighbours, a value
/// that can be taken out once, and a reference count.
pub(crate) struct Node<T> {
    pub(crate) prev: Option<usize>,
    pub(crate) element: Takeable<T>,
    pub(crate) count: usize,
    pub(crate) next: Option<usize>,
}

impl<T> Node<T> {
    /// A single node held by one handle.
    pub(crate) fn new(element: T) -> (r: Self)
        ensures
            r.prev is None,
            r.next is None,
            r.count == 1,
            r.element@ == Some(element),
    {
        Node { prev: None, element: Takeable::new(element), count: 1, next: None }
    }

    pub(crate) fn get_count(&self) -> (r: usize)
        ensures
            r == self.count,
    {
        self.count
    }

    pub(crate) fn inc_count(&mut self)
        requires
            old(self).count < usize::MAX,
        ensures
            final(self).count == old(self).count + 1,
            final(self).prev == old(self).prev,
            final(self).next == old(self).next,
            final(self).element == old(self).element,
    {
        self.count = self.count + 1;
    }

    /// Decrements the count and says whether it reached zero.
    pub(crate) fn dec_count(&mut self) -> (is_zero: bool)
        requires
            old(self).count >= 1,
        ensures
            final(self).count == old(self).count - 1,
            final(self).prev == old(self).prev,
            final(self).next == old(self).next,
            final(self).element == old(self).element,
            is_zero == (final(self).count == 0),
    {
        self.count = self.count - 1;
        self.count == 0
    }
}

/// A link as the model has it.
pub open spec fn link_view(l: Option<usize>) -> Option<int> {
    match l {
        Some(j) => Some(j as int),
        None => None,
    }
}

pub(crate) open spec fn node_view<T>(n: Option<Node<T>>) -> Option<NodeView<T>> {
    match n {
        Some(n) => Some(
            NodeView {
                prev: link_view(n.prev),
                value: n.element@.unwrap(),
                count: n.count as nat,
                next: link_view(n.next),
            },
        ),
        None => None,
    }
}

/// The nodes of a family of [`Lrc`] handles.
///
/// A freed slot stays empty and is never reused, so a handle to a freed node
/// is never taken for a handle to another one, and slot numbers grow from
/// older versions to newer ones.
pub struct LrcArena<T> {
    nodes: Vec<Option<Node<T>>>,
}

impl<T> View for LrcArena<T> {
    type V = Seq<Option<NodeView<T>>>;

    closed spec fn view(&self) -> Seq<Option<NodeView<T>>> {
        Seq::new(self.nodes@.len(), |i: int| node_view(self.nodes@[i]))
    }
}

impl<T> LrcArena<T> {
    /// Every live node still holds its value.
    pub(crate) closed spec fn values_present(&self) -> bool {
        forall|i: int|
            0 <= i < self.nodes@.len() && #[trigger] self.nodes@[i] is Some
                ==> self.nodes@[i].unwrap().element@ is Some
    }

    /// Every live node holds its value, and the links and counts are in order.
    pub closed spec fn wf(&self) -> bool {
        self.values_present() && chain_wf(self@)
    }

    /// A well-formed arena has a well-formed model.
    pub proof fn lemma_wf(&self)
        requires
            self.wf(),
        ensures
            chain_wf(self@),
    {
    }

    /// An arena with no nodes.
    pub fn new() -> (r: Self)
        ensures
            r.wf(),
            r@ == Seq::<Option<NodeView<T>>>::empty(),
    {
        let r = LrcArena { nodes: Vec::new() };
        assert(r@ =~= Seq::<Option<NodeView<T>>>::empty());
        r
    }

    /// The number of nodes ever allocated, live or freed.
    pub fn allocated(&self) -> (r: usize)
        ensures
            r == self@.len(),
    {
        self.nodes.len()
    }

    /// Whether slot `i` holds a live node.
    pub fn is_live(&self, i: usize) -> (r: bool)
        ensures
            r == live(self@, i as int),
    {
        i < self.nodes.len() && self.nodes[i].is_some()
    }

    /// The node in live slot `i`.
    fn node_ref(&self, i: usize) -> (r: &Node<T>)
        requires
            self.values_present(),
            live(self@, i as int),
        ensures
            Some(*r) == self.nodes@[i as int],
            r.element@ is Some,
            node_view(Some(*r)) == self@[i as int],
    {
        self.nodes[i].as_ref().unwrap()
    }

    /// The number of handles to live node `i`.
    pub fn count_of(&self, i: usize) -> (r: usize)
        requires
            self.wf(),
            live(self@, i as int),
        ensures
            r == node(self@, i as int).count,
    {
        self.node_ref(i).get_count()
    }

    /// The newer neighbour of live node `i`.
    pub fn prev_of(&self, i: usize) -> (r: Option<usize>)
        requires
            self.wf(),
            live(self@, i as int),
        ensures
            link_view(r) == node(self@, i as int).prev,
    {
        self.node_ref(i).prev
    }

    /// The older neighbour of live node `i`.
    pub fn next_of(&self, i: usize) -> (r: Option<usize>)
        requires
            self.wf(),
            live(self@, i as int),
        ensures
            link_view(r) == node(self@, i as int).next,
    {
        self.node_ref(i).next
    }

    /// The value of live node `i`.
    pub fn value_of(&self, i: usize) -> (r: &T)
        requires
            self.wf(),
            live(self@, i as int),
        ensures
            *r == node(self@, i as int).value,
    {
        self.node_ref(i).element.as_ref()
    }

    /// Write access to the value of live node `i`.
    pub(crate) fn value_mut(&mut self, i: usize) -> (r: &mut T)
        requires
            old(self).wf(),
            live(old(self)@, i as int),
        ensures
            *r == node(old(self)@, i as int).value,
            final(self).wf(),
            final(self)@ == chain_write(old(self)@, i as int, *final(r)),
    {
        proof {
            lemma_same_links_wf(self@);
        }
        let slot = &mut self.nodes[i];
        let n = slot.as_mut().unwrap();
        n.element.as_mut()
    }

    /// Appends a single node holding `element`, with count 1; gives its slot.
    pub(crate) fn allocate(&mut self, element: T) -> (i: usize)
        requires
            old(self).wf(),
        ensures
            final(self).wf(),
            i == old(self)@.len(),
            final(self)@ == chain_alloc(old(self)@, element),
    {
        proof {
            lemma_alloc_wf(self@, element);
        }
        let i = self.nodes.len();
        let n = Node::new(element);
        self.nodes.push(Some(n));
        assert(self@ =~= chain_alloc(old(self)@, element));
        i
    }

    /// Node `i` with its older link set to `l`; nothing else changes.
    fn set_next(&mut self, i: usize, l: Option<usize>)
        requires
            old(self).values_present(),
            live(old(self)@, i as int),
        ensures
            final(self).values_present(),
            final(self).nodes@.len() == old(self).nodes@.len(),
            final(self)@ == old(self)@.update(
                i as int,
                Some(
                    NodeView {
                        prev: node(old(self)@, i as int).prev,
                        value: node(old(self)@, i as int).value,
                        count: node(old(self)@, i as int).count,
                        next: link_view(l),
                    },
                ),
            ),
    {
        let slot = &mut self.nodes[i];
        let n = slot.as_mut().unwrap();
        n.next = l;
        assert(self@ =~= old(self)@.update(
            i as int,
            Some(
                NodeView {
                    prev: node(old(self)@, i as int).prev,
                    value: node(old(self)@, i as int).value,
                    count: node(old(self)@, i as int).count,
                    next: link_view(l),
                },
            ),
        ));
    }

    /// Node `i` with its newer link set to `l`; nothing else changes.
    fn set_prev(&mut self, i: usize, l: Option<usize>)
        requires
            old(self).values_present(),
            live(old(self)@, i as int),
        ensures
            final(self).values_present(),
            final(self).nodes@.len() == old(self).nodes@.len(),
            final(self)@ == old(self)@.update(
                i as int,
                Some(
                    NodeView {
                        prev: link_view(l),
                        value: node(old(self)@, i as int).value,
                        count: node(old(self)@, i as int).count,
                        next: node(old(self)@, i as int).next,
                    },
                ),
            ),
    {
        let slot = &mut self.nodes[i];
        let n = slot.as_mut().unwrap();
        n.prev = l;
        assert(self@ =~= old(self)@.update(
            i as int,
            Some(
                NodeView {
                    prev: link_view(l),
                    value: node(old(self)@, i as int).value,
                    count: node(old(self)@, i as int).count,
                    next: node(old(self)@, i as int).next,
                },
            ),
        ));
    }

    /// Node `i` with one handle less, not the last one; nothing else changes.
    fn dec(&mut self, i: usize)
        requires
            old(self).values_present(),
            live(old(self)@, i as int),
            node(old(self)@, i as int).count > 1,
        ensures
            final(self).values_present(),
            final(self).nodes@.len() == old(self).nodes@.len(),
            final(self)@ == old(self)@.update(
                i as int,
                Some(with_count(node(old(self)@, i as int), (node(old(self)@, i as int).count - 1) as nat)),
            ),
    {
        assert(self@[i as int] == node_view(self.nodes@[i as int]));
        let slot = &mut self.nodes[i];
        let n = slot.as_mut().unwrap();
        n.dec_count();
        assert(self@ =~= old(self)@.update(
            i as int,
            Some(with_count(node(old(self)@, i as int), (node(old(self)@, i as int).count - 1) as nat)),
        ));
    }

    /// Frees node `i` and joins its neighbours to each other; gives back its value.
    ///
    /// Every node whose older link led to `i` now leads to `i`'s older
    /// neighbour, and that neighbour's newer link, if it led to `i`, now
    /// leads to `i`'s newer neighbour. No other count or link changes.
    fn splice(&mut self, i: usize) -> (r: T)
        requires
            old(self).wf(),
            live(old(self)@, i as int),
        ensures
            final(self).wf(),
            r == node(old(self)@, i as int).value,
            final(self)@ == splice_out(old(self)@, i as int),
    {
        let ghost s = self@;
        proof {
            lemma_splice_wf(s, i as int);
            assert(node_ok(s, i as int));
        }
        let slot = &mut self.nodes[i];
        let mut gone = slot.take().unwrap();
        let len = self.nodes.len();
        let mut k: usize = 0;
        while k < len
            invariant
                self.values_present(),
                len == self.nodes@.len() == s.len(),
                0 <= k <= len,
                live(s, i as int),
                gone.element@ is Some,
                node_view(Some(gone)) == s[i as int],
                forall|j: int|
                    #![trigger self@[j]]
                    0 <= j < len ==> self@[j] == if j == i || s[j] is None {
                        None
                    } else if j < k {
                        Some(
                            NodeView {
                                prev: node(s, j).prev,
                                value: node(s, j).value,
                                count: node(s, j).count,
                                next: relinked(s, i as int, j).next,
                            },
                        )
                    } else {
                        s[j]
                    },
            decreases len - k,
        {
            if k != i && self.nodes[k].is_some() {
                let points_here = match self.node_ref(k).next {
                    Some(x) => x == i,
                    None => false,
                };
                if points_here {
                    self.set_next(k, gone.next);
                }
            }
            k = k + 1;
        }
        match gone.next {
            Some(q) => {
                let back_here = match self.node_ref(q).prev {
                    Some(x) => x == i,
                    None => false,
                };
                if back_here {
                    self.set_prev(q, gone.prev);
                }
            },
            None => {},
        }
        assert(self@ =~= splice_out(s, i as int));
        gone.element.take()
    }

    /// One handle less to node `i`, which is spliced out with its last handle.
    pub(crate) fn release(&mut self, i: usize)
        requires
            old(self).wf(),
            live(old(self)@, i as int),
        ensures
            final(self).wf(),
            final(self)@ == chain_release(old(self)@, i as int),
    {
        proof {
            lemma_release_wf(self@, i as int);
            assert(node_ok(self@, i as int));
        }
        if self.count_of(i) > 1 {
            self.dec(i);
        } else {
            self.splice(i);
        }
    }

    /// A handle of shared node `i` moves to a new node holding `element`,
    /// whose older neighbour is `i`.
    pub(crate) fn push_over(&mut self, i: usize, element: T) -> (r: usize)
        requires
            old(self).wf(),
            live(old(self)@, i as int),
            node(old(self)@, i as int).count > 1,
        ensures
            final(self).wf(),
            r == old(self)@.len(),
            final(self)@ == push_over(old(self)@, i as int, element),
    {
        proof {
            lemma_push_wf(self@, i as int, element);
        }
        let r = self.nodes.len();
        self.set_prev(i, Some(r));
        self.dec(i);
        let ghost mid = self@;
        let fresh = Node { prev: None, element: Takeable::new(element), count: 1, next: Some(i) };
        self.nodes.push(Some(fresh));
        assert(self@ =~= mid.push(node_view(Some(fresh))));
        assert(self@ =~= push_over(old(self)@, i as int, element));
        r
    }

    /// One more handle to live node `i`.
    pub(crate) fn inc(&mut self, i: usize)
        requires
            old(self).wf(),
            live(old(self)@, i as int),
            node(old(self)@, i as int).count < usize::MAX,
        ensures
            final(self).wf(),
            final(self)@ == chain_inc(old(self)@, i as int),
    {
        proof {
            lemma_inc_wf(self@, i as int);
        }
        let slot = &mut self.nodes[i];
        let n = slot.as_mut().unwrap();
        n.inc_count();
        assert(self@ =~= chain_inc(old(self)@, i as int));
    }
}

/// A handle to one node of a version chain in an [`LrcArena`].
///
/// Cloning shares the node. Setting a value through a shared handle pushes
/// a new node, whose older neighbour is the shared one; the other handles
/// keep the old value and can later move along the chain to the new one.
///
/// A handle is given back with [`Lrc::release`]; one that is only dropped
/// keeps its node alive.
pub struct Lrc<T> {
    head: usize,
    marker: PhantomData<T>,
}

impl<T> Lrc<T> {
    /// The slot of the arena that this handle points at.
    pub closed spec fn id(&self) -> int {
        self.head as int
    }

    /// Whether this handle points at a live node of `arena`.
    pub open spec fn valid(&self, arena: &LrcArena<T>) -> bool {
        arena.wf() && live(arena@, self.id())
    }

    /// The node this handle points at.
    pub open spec fn node(&self, arena: &LrcArena<T>) -> NodeView<T> {
        node(arena@, self.id())
    }

    fn from_slot(head: usize) -> (r: Self)
        ensures
            r.id() == head,
    {
        Lrc { head, marker: PhantomData }
    }

    /// The slot of the arena that this handle points at.
    pub fn slot(&self) -> (r: usize)
        ensures
            r == self.id(),
    {
        self.head
    }

    /// Allocates a single node holding `element`, with count 1 and no neighbours.
    pub fn new(arena: &mut LrcArena<T>, element: T) -> (r: Self)
        requires
            old(arena).wf(),
        ensures
            final(arena).wf(),
            r.id() == old(arena)@.len(),
            final(arena)@ == chain_alloc(old(arena)@, element),
    {
        let head = arena.allocate(element);
        Lrc::from_slot(head)
    }

    /// A second handle to the same node, whose count goes up by one.
    pub fn clone(&self, arena: &mut LrcArena<T>) -> (r: Self)
        requires
            self.valid(old(arena)),
            self.node(old(arena)).count < usize::MAX,
        ensures
            final(arena).wf(),
            r.id() == self.id(),
            final(arena)@ == chain_inc(old(arena)@, self.id()),
    {
        arena.inc(self.head);
        Lrc::from_slot(self.head)
    }

    /// Drops this handle: the count goes down by one, and with the last
    /// handle the node is freed and its neighbours are joined.
    pub fn release(self, arena: &mut LrcArena<T>)
        requires
            self.valid(old(arena)),
        ensures
            final(arena).wf(),
            final(arena)@ == chain_release(old(arena)@, self.id()),
    {
        arena.release(self.head);
    }

    /// The value at this handle's node.
    pub fn as_ref<'a>(&self, arena: &'a LrcArena<T>) -> (r: &'a T)
        requires
            self.valid(arena),
        ensures
            *r == self.node(arena).value,
    {
        arena.value_of(self.head)
    }

    /// Sets a new value: in place when this is the only handle to its node,
    /// else on a new node pushed over the shared one, which keeps its value
    /// for the other handles.
    pub fn set(&mut self, arena: &mut LrcArena<T>, element: T)
        requires
            old(self).valid(old(arena)),
        ensures
            final(arena).wf(),
            (final(arena)@, final(self).id()) == chain_set(old(arena)@, old(self).id(), element),
    {
        proof {
            assert(node_ok(arena@, self.id()));
        }
        if self.is_exclusive(arena) {
            let slot = arena.value_mut(self.head);
            *slot = element;
        } else {
            self.head = arena.push_over(self.head, element);
        }
    }

    /// Sets the value that `f` computes from the current one.
    pub fn alter<F: Fn(&T) -> T>(&mut self, arena: &mut LrcArena<T>, f: F)
        requires
            old(self).valid(old(arena)),
            f.requires((&old(self).node(old(arena)).value,)),
        ensures
            final(arena).wf(),
            exists|v: T|
                {
                    &&& #[trigger] f.ensures((&old(self).node(old(arena)).value,), v)
                    &&& (final(arena)@, final(self).id()) == chain_set(old(arena)@, old(self).id(), v)
                },
    {
        let v = f(arena.value_of(self.head));
        self.set(arena, v);
    }

    /// Write access to the value, given only when this is the only handle to its node.
    pub fn get_mut<'a>(&self, arena: &'a mut LrcArena<T>) -> (r: Option<&'a mut T>)
        requires
            self.valid(old(arena)),
        ensures
            final(arena).wf(),
            self.node(old(arena)).count == 1 ==> {
                &&& r is Some
                &&& *r.unwrap() == self.node(old(arena)).value
                &&& final(arena)@ == chain_write(old(arena)@, self.id(), *final(r.unwrap()))
            },
            self.node(old(arena)).count != 1 ==> r is None && final(arena)@ == old(arena)@,
    {
        if self.is_exclusive(arena) {
            Some(arena.value_mut(self.head))
        } else {
            None
        }
    }

    /// Moves the value out when this is the only handle, freeing the node and
    /// joining its neighbours; otherwise hands this handle back untouched.
    pub fn try_unwrap(self, arena: &mut LrcArena<T>) -> (r: Result<T, Self>)
        requires
            self.valid(old(arena)),
        ensures
            final(arena).wf(),
            (r is Ok) == (self.node(old(arena)).count == 1),
            self.node(old(arena)).count == 1 ==> {
                &&& r == Ok::<T, Self>(self.node(old(arena)).value)
                &&& final(arena)@ == splice_out(old(arena)@, self.id())
            },
            self.node(old(arena)).count != 1 ==> {
                &&& r is Err
                &&& r->Err_0.id() == self.id()
                &&& final(arena)@ == old(arena)@
            },
    {
        if self.is_exclusive(arena) {
            Ok(arena.splice(self.head))
        } else {
            Err(self)
        }
    }

    /// Moves this handle to the older neighbour of its node. Says false, and
    /// changes nothing, when there is none.
    pub fn advance_next(&mut self, arena: &mut LrcArena<T>) -> (r: bool)
        requires
            old(self).valid(old(arena)),
            old(self).node(old(arena)).next is Some ==> node(
                old(arena)@,
                old(self).node(old(arena)).next.unwrap(),
            ).count < usize::MAX,
        ensures
            final(arena).wf(),
            live(final(arena)@, final(self).id()),
            r == (old(self).node(old(arena)).next is Some),
            (final(arena)@, final(self).id()) == step_next(old(arena)@, old(self).id()),
    {
        proof {
            lemma_step_next_wf(arena@, self.id());
            assert(node_ok(arena@, self.id()));
            lemma_release_wf(arena@, self.id());
        }
        match arena.next_of(self.head) {
            Some(next) => {
                arena.release(self.head);
                arena.inc(next);
                self.head = next;
                true
            },
            None => false,
        }
    }

    /// Moves this handle to the newer neighbour of its node. Says false, and
    /// changes nothing, when there is none.
    pub fn advance_back(&mut self, arena: &mut LrcArena<T>) -> (r: bool)
        requires
            old(self).valid(old(arena)),
            old(self).node(old(arena)).prev is Some ==> node(
                old(arena)@,
                old(self).node(old(arena)).prev.unwrap(),
            ).count < usize::MAX,
        ensures
            final(arena).wf(),
            live(final(arena)@, final(self).id()),
            r == (old(self).node(old(arena)).prev is Some),
            (final(arena)@, final(self).id()) == step_back(old(arena)@, old(self).id()),
    {
        proof {
            lemma_step_back_wf(arena@, self.id());
            assert(node_ok(arena@, self.id()));
            lemma_release_wf(arena@, self.id());
        }
        match arena.prev_of(self.head) {
            Some(prev) => {
                arena.release(self.head);
                arena.inc(prev);
                self.head = prev;
                true
            },
            None => false,
        }
    }

    /// Moves this handle along newer neighbours to the newest node of its
    /// lineage, the one with no newer neighbour.
    pub fn update(&mut self, arena: &mut LrcArena<T>)
        requires
            old(self).valid(old(arena)),
            counts_below_max(old(arena)@),
        ensures
            final(arena).wf(),
            live(final(arena)@, final(self).id()),
            node(final(arena)@, final(self).id()).prev is None,
            (final(arena)@, final(self).id()) == chain_update(old(arena)@, old(self).id()),
    {
        let ghost s0 = arena@;
        let ghost i0 = self.id();
        loop
            invariant
                arena.wf(),
                live(arena@, self.id()),
                arena@.len() == s0.len(),
                chain_update(arena@, self.id()) == chain_update(s0, i0),
                forall|k: int|
                    #![trigger live(arena@, k)]
                    live(arena@, k) && k > self.id() ==> node(arena@, k).count < usize::MAX,
            ensures
                arena.wf(),
                live(arena@, self.id()),
                node(arena@, self.id()).prev is None,
                (arena@, self.id()) == chain_update(s0, i0),
            decreases arena@.len() - self.id(),
        {
            let ghost s = arena@;
            let ghost i = self.id();
            proof {
                assert(node_ok(s, i));
                if node(s, i).prev is Some {
                    let j = node(s, i).prev.unwrap();
                    assert(live(s, j));
                    lemma_step_back_wf(s, i);
                    lemma_release_wf(s, i);
                }
            }
            let moved = self.advance_back(arena);
            if !moved {
                break;
            }
            proof {
                let t = arena@;
                assert forall|k: int| #![trigger live(t, k)] live(t, k) && k > self.id() implies node(t, k).count
                    < usize::MAX by {
                    assert(live(s, k));
                }
            }
        }
    }

    /// One step of iteration toward older versions: this handle moves to the
    /// older neighbour and a fresh handle to that node is given out. None,
    /// with nothing changed, when there is no older neighbour.
    pub fn next(&mut self, arena: &mut LrcArena<T>) -> (r: Option<Self>)
        requires
            old(self).valid(old(arena)),
            old(self).node(old(arena)).next is Some ==> node(
                old(arena)@,
                old(self).node(old(arena)).next.unwrap(),
            ).count + 1 < usize::MAX,
        ensures
            final(arena).wf(),
            old(self).node(old(arena)).next is None ==> {
                &&& r is None
                &&& final(self).id() == old(self).id()
                &&& final(arena)@ == old(arena)@
            },
            old(self).node(old(arena)).next is Some ==> {
                &&& r is Some
                &&& final(self).id() == old(self).node(old(arena)).next.unwrap()
                &&& r.unwrap().id() == final(self).id()
                &&& final(arena)@ == chain_inc(step_next(old(arena)@, old(self).id()).0, final(self).id())
            },
    {
        proof {
            assert(node_ok(arena@, self.id()));
            lemma_release_wf(arena@, self.id());
        }
        if self.advance_next(arena) {
            Some(self.clone(arena))
        } else {
            None
        }
    }

    /// One step of iteration toward newer versions: this handle moves to the
    /// newer neighbour and a fresh handle to that node is given out. None,
    /// with nothing changed, when there is no newer neighbour.
    pub fn next_back(&mut self, arena: &mut LrcArena<T>) -> (r: Option<Self>)
        requires
            old(self).valid(old(arena)),
            old(self).node(old(arena)).prev is Some ==> node(
                old(arena)@,
                old(self).node(old(arena)).prev.unwrap(),
            ).count + 1 < usize::MAX,
        ensures
            final(arena).wf(),
            old(self).node(old(arena)).prev is None ==> {
                &&& r is None
                &&& final(self).id() == old(self).id()
                &&& final(arena)@ == old(arena)@
            },
            old(self).node(old(arena)).prev is Some ==> {
                &&& r is Some
                &&& final(self).id() == old(self).node(old(arena)).prev.unwrap()
                &&& r.unwrap().id() == final(self).id()
                &&& final(arena)@ == chain_inc(step_back(old(arena)@, old(self).id()).0, final(self).id())
            },
    {
        proof {
            assert(node_ok(arena@, self.id()));
            lemma_release_wf(arena@, self.id());
        }
        if self.advance_back(arena) {
            Some(self.clone(arena))
        } else {
            None
        }
    }

    /// Whether two handles point at the same node.
    pub fn ptr_eq(lhs: &Self, rhs: &Self) -> (r: bool)
        ensures
            r == (lhs.id() == rhs.id()),
    {
        lhs.head == rhs.head
    }

    /// The number of handles to this handle's node.
    pub fn get_count(&self, arena: &LrcArena<T>) -> (r: usize)
        requires
            self.valid(arena),
        ensures
            r == self.node(arena).count,
    {
        arena.count_of(self.head)
    }

    /// Whether this is the only handle to its node.
    pub fn is_exclusive(&self, arena: &LrcArena<T>) -> (r: bool)
        requires
            self.valid(arena),
        ensures
            r == (self.node(arena).count == 1),
    {
        self.get_count(arena) == 1
    }

    /// The number of nodes from this handle's node to the oldest one.
    pub fn len(&self, arena: &LrcArena<T>) -> (r: usize)
        requires
            self.valid(arena),
        ensures
            r == chain_len(arena@, self.id()),
    {
        let ghost s = arena@;
        let mut count: usize = 1;
        let mut cur: usize = self.head;
        let allocated = arena.allocated();
        loop
            invariant
                arena.wf(),
                self.id() < usize::MAX,
                s == arena@,
                live(s, cur as int),
                cur <= self.id(),
                1 <= count <= self.id() - cur + 1,
                count + chain_len(s, cur as int) == chain_len(s, self.id()) + 1,
            ensures
                count == chain_len(s, self.id()),
            decreases cur,
        {
            proof {
                assert(node_ok(s, cur as int));
            }
            match arena.next_of(cur) {
                Some(next) => {
                    count = count + 1;
                    cur = next;
                },
                None => {
                    break;
                },
            }
        }
        count
    }
}

impl<T: PartialEq> Lrc<T> {
    /// Whether the values at the two handles' nodes are equal; where the two
    /// handles point does not matter.
    pub fn value_eq(&self, other: &Self, arena: &LrcArena<T>) -> (r: bool)
        requires
            self.valid(arena),
            other.valid(arena),
        ensures
            T::obeys_eq_spec() ==> r == self.node(arena).value.eq_spec(&other.node(arena).value),
    {
        *arena.value_of(self.head) == *arena.value_of(other.head)
    }
}

impl<T: PartialOrd> Lrc<T> {
    /// How the values at the two handles compare; where the two handles point
    /// does not matter.
    pub fn value_partial_cmp(&self, other: &Self, arena: &LrcArena<T>) -> (r: Option<core::cmp::Ordering>)
        requires
            self.valid(arena),
            other.valid(arena),
        ensures
            T::obeys_partial_cmp_spec() ==> r == self.node(arena).value.partial_cmp_spec(
                &other.node(arena).value,
            ),
    {
        arena.value_of(self.head).partial_cmp(arena.value_of(other.head))
    }
}

impl<T: Clone> Lrc<T> {
    /// Write access to the value. When the node is shared, its value is first
    /// copied onto a new node pushed over it, as [`Lrc::set`] does.
    pub fn make_mut<'a>(&mut self, arena: &'a mut LrcArena<T>) -> (r: &'a mut T)
        requires
            old(self).valid(old(arena)),
        ensures
            final(arena).wf(),
            old(self).node(old(arena)).count == 1 ==> {
                &&& final(self).id() == old(self).id()
                &&& *r == old(self).node(old(arena)).value
                &&& final(arena)@ == chain_write(old(arena)@, old(self).id(), *final(r))
            },
            old(self).node(old(arena)).count != 1 ==> {
                &&& final(self).id() == old(arena)@.len()
                &&& cloned(old(self).node(old(arena)).value, *r)
                &&& final(arena)@ == push_over(old(arena)@, old(self).id(), *final(r))
            },
    {
        proof {
            assert(node_ok(arena@, self.id()));
        }
        if !self.is_exclusive(arena) {
            let copy = arena.value_of(self.head).clone();
            self.head = arena.push_over(self.head, copy);
        }
        arena.value_mut(self.head)
    }
}

} // verus!

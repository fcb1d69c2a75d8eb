//! Reference-counted cells, held in an arena and addressed by index.
use vstd::prelude::*;

use crate::takeable::Takeable;

verus! {

/// What a live cell holds: its reference count and its value.
pub struct CellView<T> {
    pub count: nat,
    pub value: T,
}

/// Whether slot `i` of `s` holds a live cell.
pub open spec fn cell_live<T>(s: Seq<Option<CellView<T>>>, i: int) -> bool {
    0 <= i < s.len() && s[i] is Some
}

/// Every live cell is held by at least one handle.
pub open spec fn cells_wf<T>(s: Seq<Option<CellView<T>>>) -> bool {
    forall|i: int| #[trigger] cell_live(s, i) ==> s[i].unwrap().count >= 1
}

/// A fresh cell holding `value` with count 1, appended after the others.
pub open spec fn cell_alloc<T>(s: Seq<Option<CellView<T>>>, value: T) -> Seq<Option<CellView<T>>> {
    s.push(Some(CellView { count: 1, value }))
}

/// Cell `i` with one more handle.
pub open spec fn cell_inc<T>(s: Seq<Option<CellView<T>>>, i: int) -> Seq<Option<CellView<T>>> {
    s.update(i, Some(CellView { count: s[i].unwrap().count + 1, value: s[i].unwrap().value }))
}

/// Cell `i` with one handle less: freed when that was the last one.
pub open spec fn cell_release<T>(s: Seq<Option<CellView<T>>>, i: int) -> Seq<Option<CellView<T>>> {
    if s[i].unwrap().count > 1 {
        s.update(i, Some(CellView { count: (s[i].unwrap().count - 1) as nat, value: s[i].unwrap().value }))
    } else {
        s.update(i, None)
    }
}

/// Cell `i` holding `value` in place, with its count kept.
pub open spec fn cell_write<T>(s: Seq<Option<CellView<T>>>, i: int, value: T) -> Seq<Option<CellView<T>>> {
    s.update(i, Some(CellView { count: s[i].unwrap().count, value }))
}

/// A heap cell: a reference count next to a value that can be taken out once.
pub(crate) struct RcBox<T> {
    pub(crate) value: Takeable<T>,
    pub(crate) count: usize,
}

impl<T> RcBox<T> {
    pub(crate) fn new(value: T) -> (r: Self)
        ensures
            r.value@ == Some(value),
            r.count == 1,
    {
        RcBox { value: Takeable::new(value), count: 1 }
    }

    pub(crate) fn get_count(&self) -> (r: usize)
        ensures
            r == self.count,
    {
        self.count
    }

    pub(crate) fn inc_count(&mut self)
        requires
            old(self).count < usize::MAX,
        ensures
            final(self).count == old(self).count + 1,
            final(self).value == old(self).value,
    {
        self.count = self.count + 1;
    }

    /// Decrements the count and says whether it reached zero.
    pub(crate) fn dec_count(&mut self) -> (is_zero: bool)
        requires
            old(self).count >= 1,
        ensures
            final(self).count == old(self).count - 1,
            final(self).value == old(self).value,
            is_zero == (final(self).count == 0),
    {
        self.count = self.count - 1;
        self.count == 0
    }
}

/// The cells of a family of [`crate::Irc`] and [`crate::Mrc`] handles.
///
/// A freed slot stays empty and is never reused, so a handle to a freed cell
/// is never taken for a handle to another one.
pub struct RcArena<T> {
    cells: Vec<Option<RcBox<T>>>,
}

pub(crate) open spec fn box_view<T>(b: Option<RcBox<T>>) -> Option<CellView<T>> {
    match b {
        Some(b) => Some(CellView { count: b.count as nat, value: b.value@.unwrap() }),
        None => None,
    }
}

impl<T> View for RcArena<T> {
    type V = Seq<Option<CellView<T>>>;

    closed spec fn view(&self) -> Seq<Option<CellView<T>>> {
        Seq::new(self.cells@.len(), |i: int| box_view(self.cells@[i]))
    }
}

impl<T> RcArena<T> {
    /// Every live cell holds its value and a count of at least one.
    pub closed spec fn wf(&self) -> bool {
        forall|i: int|
            0 <= i < self.cells@.len() && #[trigger] self.cells@[i] is Some ==> {
                &&& self.cells@[i].unwrap().value@ is Some
                &&& self.cells@[i].unwrap().count >= 1
            }
    }

    /// A well-formed arena has a well-formed model.
    pub proof fn lemma_wf(&self)
        requires
            self.wf(),
        ensures
            cells_wf(self@),
    {
        assert forall|i: int| #[trigger] cell_live(self@, i) implies self@[i].unwrap().count >= 1 by {
            assert(self.cells@[i] is Some);
        }
    }

    /// An arena with no cells.
    pub fn new() -> (r: Self)
        ensures
            r.wf(),
            r@ == Seq::<Option<CellView<T>>>::empty(),
    {
        let r = RcArena { cells: Vec::new() };
        assert(r@ =~= Seq::<Option<CellView<T>>>::empty());
        r
    }

    /// The number of cells ever allocated, live or freed.
    pub fn allocated(&self) -> (r: usize)
        ensures
            r == self@.len(),
    {
        self.cells.len()
    }

    /// Whether slot `i` holds a live cell.
    pub fn is_live(&self, i: usize) -> (r: bool)
        ensures
            r == cell_live(self@, i as int),
    {
        i < self.cells.len() && self.cells[i].is_some()
    }

    /// The count of live cell `i`.
    pub(crate) fn count_of(&self, i: usize) -> (r: usize)
        requires
            self.wf(),
            cell_live(self@, i as int),
        ensures
            r == self@[i as int].unwrap().count,
    {
        self.cells[i].as_ref().unwrap().get_count()
    }

    /// The value of live cell `i`.
    pub(crate) fn value_of(&self, i: usize) -> (r: &T)
        requires
            self.wf(),
            cell_live(self@, i as int),
        ensures
            *r == self@[i as int].unwrap().value,
    {
        self.cells[i].as_ref().unwrap().value.as_ref()
    }

    /// Write access to the value of live cell `i`.
    pub(crate) fn value_mut(&mut self, i: usize) -> (r: &mut T)
        requires
            old(self).wf(),
            cell_live(old(self)@, i as int),
        ensures
            *r == old(self)@[i as int].unwrap().value,
            final(self).wf(),
            final(self)@ == cell_write(old(self)@, i as int, *final(r)),
    {
        let slot = &mut self.cells[i];
        let cell = slot.as_mut().unwrap();
        cell.value.as_mut()
    }

    /// One more handle to live cell `i`.
    pub(crate) fn inc(&mut self, i: usize)
        requires
            old(self).wf(),
            cell_live(old(self)@, i as int),
            old(self)@[i as int].unwrap().count < usize::MAX,
        ensures
            final(self).wf(),
            final(self)@ == cell_inc(old(self)@, i as int),
    {
        let slot = &mut self.cells[i];
        let cell = slot.as_mut().unwrap();
        cell.inc_count();
        assert(self@ =~= cell_inc(old(self)@, i as int));
    }

    /// One handle less to live cell `i`; the cell is freed with its last handle.
    pub(crate) fn release(&mut self, i: usize)
        requires
            old(self).wf(),
            cell_live(old(self)@, i as int),
        ensures
            final(self).wf(),
            final(self)@ == cell_release(old(self)@, i as int),
    {
        let slot = &mut self.cells[i];
        let cell = slot.as_mut().unwrap();
        let is_zero = cell.dec_count();
        if is_zero {
            self.cells[i].take();
        }
        assert(self@ =~= cell_release(old(self)@, i as int));
    }

    /// Moves the value out of live cell `i`, held by one handle alone, and frees the cell.
    pub(crate) fn take_value(&mut self, i: usize) -> (r: T)
        requires
            old(self).wf(),
            cell_live(old(self)@, i as int),
            old(self)@[i as int].unwrap().count == 1,
        ensures
            final(self).wf(),
            r == old(self)@[i as int].unwrap().value,
            final(self)@ == cell_release(old(self)@, i as int),
    {
        let slot = &mut self.cells[i];
        let mut cell = slot.take().unwrap();
        assert(self@ =~= cell_release(old(self)@, i as int));
        cell.value.take()
    }

    /// Appends a cell holding `value`, with count 1; gives its slot.
    pub(crate) fn allocate(&mut self, value: T) -> (i: usize)
        requires
            old(self).wf(),
        ensures
            final(self).wf(),
            i == old(self)@.len(),
            final(self)@ == cell_alloc(old(self)@, value),
    {
        let i = self.cells.len();
        let cell = RcBox::new(value);
        self.cells.push(Some(cell));
        assert(self@ =~= cell_alloc(old(self)@, value));
        i
    }
}

} // verus!

//! The immutable shared pointer.
use vstd::prelude::*;

use core::marker::PhantomData;

use vstd::std_specs::cmp::{PartialEqSpec, PartialOrdSpec};

use crate::rc_box::{cell_alloc, cell_inc, cell_live, cell_release, CellView, RcArena};

verus! {

/// A read-only handle to a reference-counted cell of an [`RcArena`].
///
/// Cloning shares the cell and never allocates; the cell is freed when its
/// last handle is released or unwrapped. No write access is ever given out.
///
/// A handle is given back with [`Irc::release`]; one that is only dropped
/// keeps its cell alive.
pub struct Irc<T> {
    pub(crate) ptr: usize,
    pub(crate) marker: PhantomData<T>,
}

impl<T> Irc<T> {
    /// The slot of the arena that this handle points at.
    pub closed spec fn id(&self) -> int {
        self.ptr as int
    }

    /// Whether this handle points at a live cell of `arena`.
    pub open spec fn valid(&self, arena: &RcArena<T>) -> bool {
        arena.wf() && cell_live(arena@, self.id())
    }

    /// The cell this handle points at.
    pub open spec fn cell(&self, arena: &RcArena<T>) -> CellView<T> {
        arena@[self.id()].unwrap()
    }

    /// A handle to slot `ptr`; the count is the caller's business.
    pub(crate) fn from_slot(ptr: usize) -> (r: Self)
        ensures
            r.id() == ptr,
    {
        Irc { ptr, marker: PhantomData }
    }

    /// Allocates a fresh cell holding `value`, with count 1.
    pub fn new(arena: &mut RcArena<T>, value: T) -> (r: Self)
        requires
            old(arena).wf(),
        ensures
            final(arena).wf(),
            r.id() == old(arena)@.len(),
            final(arena)@ == cell_alloc(old(arena)@, value),
    {
        let ptr = arena.allocate(value);
        Irc::from_slot(ptr)
    }

    /// A second handle to the same cell, whose count goes up by one.
    pub fn clone(&self, arena: &mut RcArena<T>) -> (r: Self)
        requires
            self.valid(old(arena)),
            self.cell(old(arena)).count < usize::MAX,
        ensures
            final(arena).wf(),
            r.id() == self.id(),
            final(arena)@ == cell_inc(old(arena)@, self.id()),
    {
        arena.inc(self.ptr);
        Irc::from_slot(self.ptr)
    }

    /// Drops this handle: the count goes down by one, and the cell is freed
    /// with its value when that was the last handle.
    pub fn release(self, arena: &mut RcArena<T>)
        requires
            self.valid(old(arena)),
        ensures
            final(arena).wf(),
            final(arena)@ == cell_release(old(arena)@, self.id()),
    {
        arena.release(self.ptr);
    }

    /// The value in the cell.
    pub fn as_ref<'a>(&self, arena: &'a RcArena<T>) -> (r: &'a T)
        requires
            self.valid(arena),
        ensures
            *r == self.cell(arena).value,
    {
        arena.value_of(self.ptr)
    }

    /// The number of handles to the cell.
    pub fn get_count(&self, arena: &RcArena<T>) -> (r: usize)
        requires
            self.valid(arena),
        ensures
            r == self.cell(arena).count,
    {
        arena.count_of(self.ptr)
    }

    /// Whether this is the only handle to the cell.
    pub fn is_exclusive(&self, arena: &RcArena<T>) -> (r: bool)
        requires
            self.valid(arena),
        ensures
            r == (self.cell(arena).count == 1),
    {
        self.get_count(arena) == 1
    }

    /// Whether two handles point at the same cell.
    pub fn ptr_eq(lhs: &Self, rhs: &Self) -> (r: bool)
        ensures
            r == (lhs.id() == rhs.id()),
    {
        lhs.ptr == rhs.ptr
    }

    /// Moves the value out when this is the only handle, freeing the cell;
    /// otherwise hands this handle back untouched.
    pub fn try_unwrap(self, arena: &mut RcArena<T>) -> (r: Result<T, Self>)
        requires
            self.valid(old(arena)),
        ensures
            final(arena).wf(),
            (r is Ok) == (self.cell(old(arena)).count == 1),
            self.cell(old(arena)).count == 1 ==> {
                &&& r == Ok::<T, Self>(self.cell(old(arena)).value)
                &&& final(arena)@ == cell_release(old(arena)@, self.id())
            },
            self.cell(old(arena)).count != 1 ==> {
                &&& r is Err
                &&& r->Err_0.id() == self.id()
                &&& final(arena)@ == old(arena)@
            },
    {
        if self.is_exclusive(arena) {
            Ok(arena.take_value(self.ptr))
        } else {
            Err(self)
        }
    }
}

impl<T: PartialEq> Irc<T> {
    /// Whether the values in the two handles' cells are equal; where the two
    /// handles point does not matter.
    pub fn value_eq(&self, other: &Self, arena: &RcArena<T>) -> (r: bool)
        requires
            self.valid(arena),
            other.valid(arena),
        ensures
            T::obeys_eq_spec() ==> r == self.cell(arena).value.eq_spec(&other.cell(arena).value),
    {
        *arena.value_of(self.ptr) == *arena.value_of(other.ptr)
    }
}

impl<T: PartialOrd> Irc<T> {
    /// How the values at the two handles compare; where the two handles point
    /// does not matter.
    pub fn value_partial_cmp(&self, other: &Self, arena: &RcArena<T>) -> (r: Option<core::cmp::Ordering>)
        requires
            self.valid(arena),
            other.valid(arena),
        ensures
            T::obeys_partial_cmp_spec() ==> r == self.cell(arena).value.partial_cmp_spec(
                &other.cell(arena).value,
            ),
    {
        arena.value_of(self.ptr).partial_cmp(arena.value_of(other.ptr))
    }
}

impl<T: Clone> Irc<T> {
    /// A copy of the value, whatever the sharing state.
    pub fn clone_inner(&self, arena: &RcArena<T>) -> (r: T)
        requires
            self.valid(arena),
        ensures
            cloned(self.cell(arena).value, r),
    {
        arena.value_of(self.ptr).clone()
    }

    /// The value itself when this is the only handle (freeing the cell);
    /// otherwise a copy of it, and this handle is released.
    pub fn unwrap_clone(self, arena: &mut RcArena<T>) -> (r: T)
        requires
            self.valid(old(arena)),
        ensures
            final(arena).wf(),
            final(arena)@ == cell_release(old(arena)@, self.id()),
            self.cell(old(arena)).count == 1 ==> r == self.cell(old(arena)).value,
            cloned(self.cell(old(arena)).value, r),
    {
        if self.is_exclusive(arena) {
            arena.take_value(self.ptr)
        } else {
            let r = self.clone_inner(arena);
            arena.release(self.ptr);
            r
        }
    }
}

} // verus!

//! A value that remembers the values it held before.
use vstd::prelude::*;

use std::collections::VecDeque;
use vstd::std_specs::cmp::PartialEqSpec;
use vstd::std_specs::iter::IteratorSpec;

verus! {

/// Keeps the values that were set, newest first, until `forget` or `reset`
/// drops them. There is always at least one: the current value; no
/// operation leaves a history empty.
pub struct History<T>(VecDeque<T>);

impl<T> View for History<T> {
    type V = Seq<T>;

    closed spec fn view(&self) -> Seq<T> {
        self.0@
    }
}

impl<T> History<T> {
    /// A history holding `value` alone.
    pub fn new(value: T) -> (r: Self)
        ensures
            r@ == seq![value],
    {
        let mut vec = VecDeque::new();
        vec.push_front(value);
        History(vec)
    }

    /// Makes `value` the current value; the one before becomes history.
    pub fn set(&mut self, value: T)
        ensures
            final(self)@ == seq![value] + old(self)@,
    {
        self.0.push_front(value);
    }

    /// Replaces the current value without keeping it as history.
    pub fn replace(&mut self, value: T)
        requires
            old(self)@.len() >= 1,
        ensures
            final(self)@ == old(self)@.update(0, value),
    {
        self.0.pop_front();
        self.0.push_front(value);
        assert(self@ =~= old(self)@.update(0, value));
    }

    /// Drops every value but the current one; says whether any was dropped.
    pub fn forget(&mut self) -> (r: bool)
        requires
            old(self)@.len() >= 1,
        ensures
            r == (old(self)@.len() > 1),
            final(self)@ == old(self)@.take(1),
    {
        if self.dirty() {
            self.0.truncate(1);
            true
        } else {
            assert(self@ =~= old(self)@.take(1));
            false
        }
    }

    /// Drops every value but the oldest, which becomes the current one; says
    /// whether any was dropped.
    pub fn reset(&mut self) -> (r: bool)
        requires
            old(self)@.len() >= 1,
        ensures
            r == (old(self)@.len() > 1),
            final(self)@ == seq![old(self)@.last()],
    {
        if self.dirty() {
            let oldest = self.0.pop_back().unwrap();
            self.0.clear();
            self.0.push_back(oldest);
            assert(self@ =~= seq![old(self)@.last()]);
            true
        } else {
            assert(self@ =~= seq![old(self)@.last()]);
            false
        }
    }

    /// Whether there is history beside the current value.
    pub fn dirty(&self) -> (r: bool)
        ensures
            r == (self@.len() > 1),
    {
        self.count() > 1
    }

    /// The number of values held, the current one included.
    pub fn count(&self) -> (r: usize)
        ensures
            r == self@.len(),
    {
        self.0.len()
    }

    /// The values held, newest first.
    pub fn iter(&self) -> (r: std::collections::vec_deque::Iter<'_, T>)
        ensures
            r.remaining() == self@.map_values(|v: T| &v),
    {
        let r = self.0.iter();
        assert(r.remaining() =~= self@.map_values(|v: T| &v));
        r
    }

    /// The current value.
    pub fn as_ref(&self) -> (r: &T)
        requires
            self@.len() >= 1,
        ensures
            *r == self@[0],
    {
        &self.0[0]
    }

    /// Gives up the history and keeps the current value.
    pub fn into_inner(self) -> (r: T)
        requires
            self@.len() >= 1,
        ensures
            r == self@[0],
    {
        let History(mut vec) = self;
        vec.pop_front().unwrap()
    }
}

impl<T: PartialEq> History<T> {
    /// Sets `value` when it differs from the current value; says whether it did.
    pub fn neq_set(&mut self, value: T) -> (r: bool)
        requires
            old(self)@.len() >= 1,
        ensures
            T::obeys_eq_spec() ==> r == !old(self)@[0].eq_spec(&value),
            r ==> final(self)@ == seq![value] + old(self)@,
            !r ==> final(self)@ == old(self)@,
    {
        if self.0[0] != value {
            self.set(value);
            true
        } else {
            false
        }
    }
}

} // verus!

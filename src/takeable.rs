//! A slot that holds one value until it is taken out.
use vstd::prelude::*;

verus! {

/// Holds exactly one value until [`Takeable::take`] moves it out.
///
/// After a take the slot is empty, and no read is allowed: the contracts
/// of `take`, `as_ref` and `as_mut` ask for a full slot.
pub struct Takeable<T>(Option<T>);

impl<T> View for Takeable<T> {
    type V = Option<T>;

    closed spec fn view(&self) -> Option<T> {
        self.0
    }
}

impl<T> Takeable<T> {
    /// A full slot holding `item`.
    pub fn new(item: T) -> (r: Self)
        ensures
            r@ == Some(item),
    {
        Takeable(Some(item))
    }

    /// Whether the value has already been taken out.
    pub fn is_taken(&self) -> (r: bool)
        ensures
            r == (self@ is None),
    {
        self.0.is_none()
    }

    /// Moves the value out, leaving the slot empty.
    pub fn take(&mut self) -> (r: T)
        requires
            old(self)@ is Some,
        ensures
            old(self)@ == Some(r),
            final(self)@ is None,
    {
        self.0.take().unwrap()
    }

    /// The value held, for writing in place.
    pub fn as_mut(&mut self) -> (r: &mut T)
        requires
            old(self)@ is Some,
        ensures
            old(self)@ == Some(*r),
            final(self)@ == Some(*final(r)),
    {
        self.0.as_mut().unwrap()
    }

    /// The value held.
    pub fn as_ref(&self) -> (r: &T)
        requires
            self@ is Some,
        ensures
            self@ == Some(*r),
    {
        self.0.as_ref().unwrap()
    }
}

} // verus!

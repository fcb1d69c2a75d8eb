//! Assignment that reports whether it changed anything.
use vstd::prelude::*;

use vstd::std_specs::cmp::PartialEqSpec;

verus! {

/// Assigns `new` to `assignee` when the two differ; says whether it did.
pub fn neq_assign<T: PartialEq>(assignee: &mut T, new: T) -> (assigned: bool)
    ensures
        T::obeys_eq_spec() ==> assigned == !(*old(assignee)).eq_spec(&new),
        assigned ==> *final(assignee) == new,
        !assigned ==> *final(assignee) == *old(assignee),
{
    if *assignee != new {
        *assignee = new;
        true
    } else {
        false
    }
}

} // verus!

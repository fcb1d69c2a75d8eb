//! Reference-counted pointers for single-threaded UI state.
//!
//! Three pointer families share one design: every allocation lives in an
//! arena owned by the caller, and a handle is an index into it.
//! - [`Irc`] and [`Mrc`] share cells of an [`RcArena`]: the first is
//!   read-only, the second mutates by copy-on-write.
//! - [`Lrc`] points into an [`LrcArena`], whose nodes form a linked chain
//!   of versions: a shared handle that is set pushes a new version, and the
//!   other handles can later move along the chain to it.
//!
//! A handle is given back with `release`, which frees its allocation with
//! the last handle; a freed slot is never reused. The models of the arenas,
//! and the laws that relate the operations, are in [`chain`], [`rc_box`]
//! and [`laws`]. Beside the pointers: [`History`], a value that remembers
//! its earlier values, and [`neq_assign`].
use vstd::prelude::*;

pub mod chain;
pub mod history;
pub mod irc;
pub mod laws;
pub mod lrc;
pub mod mrc;
pub mod neq_assign;
pub mod rc_box;
pub mod takeable;

pub use history::History;
pub use irc::Irc;
pub use lrc::{Lrc, LrcArena};
pub use mrc::Mrc;
pub use neq_assign::neq_assign;
pub use rc_box::{CellView, RcArena};
pub use takeable::Takeable;

verus! {

} // verus!

//! Building blocks for lock-free and concurrent programming: an exponential
//! back-off helper, a bounded registry of per-thread slots, per-thread
//! counters and a source of small dense thread identifiers.
use vstd::prelude::*;

pub mod backoff;
pub mod counter;
pub mod id;
pub mod local;

pub use crate::backoff::{BackOff, SeedSource};
pub use crate::id::{ThreadId, ThreadIds};
pub use crate::local::{
    BoundedThreadLocal, BoundsError, ConcurrentAccessErr, DropMode, IntoIter, InvalidCapacity, Iter,
    Local, Slot, Token,
};

verus! {

} // verus!

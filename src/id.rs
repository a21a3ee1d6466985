//! Small dense integers naming threads.
use vstd::prelude::*;

verus! {

/// A small integer that names one thread, assigned once and unique among the
/// identifiers handed out by one [`ThreadIds`] source.
#[derive(Debug, Hash, PartialEq, Eq, PartialOrd, Ord)]
pub struct ThreadId(usize);

impl ThreadId {
    /// The number that this identifier stands for.
    pub closed spec fn value(&self) -> nat {
        self.0 as nat
    }

    /// Returns the number that this identifier stands for.
    pub fn get(&self) -> (r: usize)
        ensures
            r == self.value(),
    {
        self.0
    }
}

/// A source of thread identifiers, handing out 0, 1, 2, ... in this order.
///
/// The largest `usize` is never handed out: once it would be next, the source
/// is exhausted.
pub struct ThreadIds {
    next: usize,
}

impl ThreadIds {
    /// How many identifiers this source has handed out so far.
    pub closed spec fn issued(&self) -> nat {
        self.next as nat
    }

    /// Creates a source that has handed out nothing yet.
    pub fn new() -> (r: Self)
        ensures
            r.issued() == 0,
    {
        ThreadIds { next: 0 }
    }

    /// Hands out the next identifier, or `None` once the source is exhausted.
    pub fn next_id(&mut self) -> (r: Option<ThreadId>)
        ensures
            old(self).issued() < usize::MAX ==> {
                &&& r matches Some(id)
                &&& id.value() == old(self).issued()
                &&& final(self).issued() == old(self).issued() + 1
            },
            old(self).issued() >= usize::MAX ==> r is None && final(self).issued() == old(self).issued(),
    {
        if self.next < usize::MAX {
            let id = self.next;
            self.next = id + 1;
            Some(ThreadId(id))
        } else {
            None
        }
    }
}

} // verus!

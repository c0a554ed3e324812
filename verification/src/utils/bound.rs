//! Dimensions split in two.
use vstd::prelude::*;

verus! {

/// A number of rows split in a head and a tail.
#[derive(Clone, Copy, Debug, PartialEq, Eq, Structural)]
pub struct Partition {
    /// The number of rows of the head.
    pub head: usize,
    /// The number of rows of the tail.
    pub tail: usize,
}

impl Partition {
    /// The partition of `nrows` rows whose head has `head` rows.
    pub fn head_partition(nrows: usize, head: usize) -> (r: Partition)
        requires
            head <= nrows,
        ensures
            r == (Partition { head, tail: (nrows - head) as usize }),
    {
        Partition { head, tail: nrows - head }
    }

    /// The row at which the tail starts.
    pub fn midpoint(&self) -> (r: usize)
        ensures
            r == self.head,
    {
        self.head
    }
}

} // verus!

//! A half-open range of indices.

use vstd::prelude::*;

verus! {

/// The indices from `start` up to, but not including, `end`.
#[derive(Clone, Copy, Debug, PartialEq, Eq, Structural)]
pub struct FluxRange {
    pub start: usize,
    pub end: usize,
}

impl FluxRange {
    /// The set of indices in the range.
    pub open spec fn indices(&self) -> Set<int> {
        Set::new(|i: int| self.start <= i < self.end)
    }

    /// Whether the range holds no index.
    pub fn is_empty(&self) -> (r: bool)
        ensures
            r == (self.start >= self.end),
            r == (self.indices() == Set::<int>::empty()),
    {
        proof {
            if self.start < self.end {
                assert(self.indices().contains(self.start as int));
            } else {
                assert(self.indices() =~= Set::<int>::empty());
            }
        }
        self.start >= self.end
    }

    /// Whether `item` lies in the range.
    pub fn contains(&self, item: &usize) -> (r: bool)
        ensures
            r == (self.start <= *item < self.end),
            r == self.indices().contains(*item as int),
    {
        self.start <= *item && *item < self.end
    }
}

} // verus!

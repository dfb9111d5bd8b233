//! Heap allocation counting.
//!
//! The process-wide allocator hook lives with the program; what it records, and
//! how two readings of the counters are compared, is decided here.
use vstd::prelude::*;

verus! {

/// A reading of the allocation counters.
#[derive(Debug, Clone, Copy)]
pub struct AllocCounts {
    /// Allocations requested so far.
    pub alloc_count: usize,
    /// Bytes requested so far.
    pub alloc_bytes: usize,
    /// Deallocations requested so far.
    pub dealloc_count: usize,
    /// Bytes released so far.
    pub dealloc_bytes: usize,
}

impl AllocCounts {
    /// No counter of `self` is above the same counter of `later`.
    pub open spec fn le(self, later: AllocCounts) -> bool {
        &&& self.alloc_count <= later.alloc_count
        &&& self.alloc_bytes <= later.alloc_bytes
        &&& self.dealloc_count <= later.dealloc_count
        &&& self.dealloc_bytes <= later.dealloc_bytes
    }

    /// What happened between the reading `earlier` and the reading `self`.
    pub open spec fn spec_since(self, earlier: AllocCounts) -> AllocCounts {
        AllocCounts {
            alloc_count: (self.alloc_count - earlier.alloc_count) as usize,
            alloc_bytes: (self.alloc_bytes - earlier.alloc_bytes) as usize,
            dealloc_count: (self.dealloc_count - earlier.dealloc_count) as usize,
            dealloc_bytes: (self.dealloc_bytes - earlier.dealloc_bytes) as usize,
        }
    }

    /// All counters at zero.
    pub fn zero() -> (r: Self)
        ensures
            r.alloc_count == 0,
            r.alloc_bytes == 0,
            r.dealloc_count == 0,
            r.dealloc_bytes == 0,
    {
        AllocCounts { alloc_count: 0, alloc_bytes: 0, dealloc_count: 0, dealloc_bytes: 0 }
    }

    /// What happened between the reading `earlier` and this reading, counter by counter.
    pub fn since(&self, earlier: &AllocCounts) -> (r: AllocCounts)
        requires
            earlier.le(*self),
        ensures
            r == self.spec_since(*earlier),
            r.alloc_count == self.alloc_count - earlier.alloc_count,
            r.alloc_bytes == self.alloc_bytes - earlier.alloc_bytes,
            r.dealloc_count == self.dealloc_count - earlier.dealloc_count,
            r.dealloc_bytes == self.dealloc_bytes - earlier.dealloc_bytes,
    {
        AllocCounts {
            alloc_count: self.alloc_count - earlier.alloc_count,
            alloc_bytes: self.alloc_bytes - earlier.alloc_bytes,
            dealloc_count: self.dealloc_count - earlier.dealloc_count,
            dealloc_bytes: self.dealloc_bytes - earlier.dealloc_bytes,
        }
    }
}

/// The state of the tracking allocator: every allocation and deallocation it
/// serves is counted, with its size in bytes.
#[derive(Debug, Clone, Copy)]
pub struct TrackingAllocator {
    counts: AllocCounts,
}

impl TrackingAllocator {
    /// The counters as they stand.
    pub closed spec fn spec_counts(self) -> AllocCounts {
        self.counts
    }

    /// A tracker that has counted nothing yet.
    pub fn new() -> (r: Self)
        ensures
            r.spec_counts() == (AllocCounts {
                alloc_count: 0,
                alloc_bytes: 0,
                dealloc_count: 0,
                dealloc_bytes: 0,
            }),
    {
        TrackingAllocator { counts: AllocCounts::zero() }
    }

    /// Counts one allocation of `size` bytes.
    pub fn record_alloc(&mut self, size: usize)
        requires
            old(self).spec_counts().alloc_count < usize::MAX,
            old(self).spec_counts().alloc_bytes + size <= usize::MAX,
        ensures
            final(self).spec_counts() == (AllocCounts {
                alloc_count: (old(self).spec_counts().alloc_count + 1) as usize,
                alloc_bytes: (old(self).spec_counts().alloc_bytes + size) as usize,
                ..old(self).spec_counts()
            }),
            old(self).spec_counts().le(final(self).spec_counts()),
    {
        self.counts.alloc_count = self.counts.alloc_count + 1;
        self.counts.alloc_bytes = self.counts.alloc_bytes + size;
    }

    /// Counts one deallocation of `size` bytes.
    pub fn record_dealloc(&mut self, size: usize)
        requires
            old(self).spec_counts().dealloc_count < usize::MAX,
            old(self).spec_counts().dealloc_bytes + size <= usize::MAX,
        ensures
            final(self).spec_counts() == (AllocCounts {
                dealloc_count: (old(self).spec_counts().dealloc_count + 1) as usize,
                dealloc_bytes: (old(self).spec_counts().dealloc_bytes + size) as usize,
                ..old(self).spec_counts()
            }),
            old(self).spec_counts().le(final(self).spec_counts()),
    {
        self.counts.dealloc_count = self.counts.dealloc_count + 1;
        self.counts.dealloc_bytes = self.counts.dealloc_bytes + size;
    }

    /// A reading of the counters.
    pub fn counts(&self) -> (r: AllocCounts)
        ensures
            r == self.spec_counts(),
    {
        self.counts
    }
}

/// Counters never go down: a reading taken later is never below one taken
/// earlier, so the difference of two readings is always defined.
pub proof fn law_readings_ordered(a: AllocCounts, b: AllocCounts, c: AllocCounts)
    requires
        a.le(b),
        b.le(c),
    ensures
        a.le(c),
        c.spec_since(a).alloc_count == c.spec_since(b).alloc_count + b.spec_since(a).alloc_count,
        c.spec_since(a).alloc_bytes == c.spec_since(b).alloc_bytes + b.spec_since(a).alloc_bytes,
        c.spec_since(a).dealloc_count == c.spec_since(b).dealloc_count + b.spec_since(
            a,
        ).dealloc_count,
        c.spec_since(a).dealloc_bytes == c.spec_since(b).dealloc_bytes + b.spec_since(
            a,
        ).dealloc_bytes,
{
}

} // verus!

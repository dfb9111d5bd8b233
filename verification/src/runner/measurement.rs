//! Data structures for storing benchmark results.
use vstd::prelude::*;

verus! {

/// Absolute measurement metrics extracted from a benchmark run for CPU and memory.
///
/// Besides execution time (cycles and nanoseconds) it records logical costs that do
/// not depend on the machine: hardware instructions and heap allocations.
#[derive(Debug, Clone, Copy)]
pub struct Measurement {
    /// The number of CPU cycles taken for execution (0 where no cycle counter is available).
    pub cycles: u64,
    /// The number of hardware instructions executed, where the counter is available.
    pub instructions: Option<u64>,
    /// The wall-clock execution time in nanoseconds, where it is recorded.
    pub time_ns: Option<u64>,
    /// The number of heap allocations requested.
    pub alloc_count: usize,
    /// The total number of heap bytes requested.
    pub alloc_bytes: usize,
    /// The number of heap deallocations requested.
    pub dealloc_count: usize,
    /// The total number of heap bytes released.
    pub dealloc_bytes: usize,
    /// Net memory increase: `alloc_bytes - dealloc_bytes`.
    pub net_bytes: isize,
}

/// `a - b`, both read as `isize` the way `as isize` reads them, fits in `isize`.
pub open spec fn signed_difference_fits(a: usize, b: usize) -> bool {
    isize::MIN <= (a as isize) - (b as isize) <= isize::MAX
}

impl Measurement {
    /// Creates a measurement; the net byte count is `alloc_bytes - dealloc_bytes`.
    pub fn new(
        cycles: u64,
        instructions: Option<u64>,
        time_ns: Option<u64>,
        alloc_count: usize,
        alloc_bytes: usize,
        dealloc_count: usize,
        dealloc_bytes: usize,
    ) -> (m: Self)
        requires
            signed_difference_fits(alloc_bytes, dealloc_bytes),
        ensures
            m.cycles == cycles,
            m.instructions == instructions,
            m.time_ns == time_ns,
            m.alloc_count == alloc_count,
            m.alloc_bytes == alloc_bytes,
            m.dealloc_count == dealloc_count,
            m.dealloc_bytes == dealloc_bytes,
            m.net_bytes == (alloc_bytes as isize) - (dealloc_bytes as isize),
            alloc_bytes <= isize::MAX && dealloc_bytes <= isize::MAX ==> m.net_bytes == alloc_bytes
                - dealloc_bytes,
    {
        Measurement {
            cycles,
            instructions,
            time_ns,
            alloc_count,
            alloc_bytes,
            dealloc_count,
            dealloc_bytes,
            net_bytes: (alloc_bytes as isize) - (dealloc_bytes as isize),
        }
    }

    /// The net number of allocations: allocations minus deallocations.
    pub fn net_allocs(&self) -> (r: isize)
        requires
            signed_difference_fits(self.alloc_count, self.dealloc_count),
        ensures
            r == (self.alloc_count as isize) - (self.dealloc_count as isize),
            self.alloc_count <= isize::MAX && self.dealloc_count <= isize::MAX ==> r
                == self.alloc_count - self.dealloc_count,
    {
        (self.alloc_count as isize) - (self.dealloc_count as isize)
    }
}

} // verus!

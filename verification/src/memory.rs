//! Memory-management basics: failure taxonomy, region descriptors, and
//! allocation statistics.

use vstd::prelude::*;

verus! {

/// Memory-management failures.
#[derive(Debug, Clone, Copy, PartialEq, Eq, Structural)]
pub enum MemoryError {
    /// The requested number of bytes cannot be served.
    OutOfMemory(usize),
    /// The requested alignment is not a power of two.
    InvalidAlignment(usize),
    /// The freed pointer does not name a live region.
    NullPointer,
    /// The device offers no unified memory.
    NotUnified,
}

/// A memory region: its placement and which sides can reach it.
#[derive(Debug, Clone, Copy, PartialEq, Eq, Structural)]
pub struct Region {
    pub ptr: usize,
    pub size: usize,
    pub device_accessible: bool,
    pub host_accessible: bool,
}

impl Region {
    /// A fresh region, reachable from both host and device.
    pub fn new(ptr: usize, size: usize) -> (r: Region)
        ensures
            r == (Region { ptr, size, device_accessible: true, host_accessible: true }),
    {
        Region { ptr, size, device_accessible: true, host_accessible: true }
    }

    /// Whether both host and device can reach the region.
    pub fn is_unified(&self) -> (r: bool)
        ensures
            r == (self.device_accessible && self.host_accessible),
    {
        self.device_accessible && self.host_accessible
    }
}

/// Allocation statistics: bytes currently held, the high-water mark, and
/// the operation counters.
#[derive(Debug, Clone, Copy, PartialEq, Eq, Structural)]
pub struct MemStats {
    pub allocated: usize,
    pub peak: usize,
    pub allocations: u64,
    pub deallocations: u64,
}

impl MemStats {
    /// Fresh statistics: everything at zero.
    pub fn new() -> (s: MemStats)
        ensures
            s == (MemStats { allocated: 0, peak: 0, allocations: 0, deallocations: 0 }),
    {
        MemStats { allocated: 0, peak: 0, allocations: 0, deallocations: 0 }
    }

    /// Record an allocation: the held total grows by the size, the
    /// counter by one, and the high-water mark follows the total.
    pub fn record_alloc(&mut self, size: usize)
        requires
            old(self).allocated + size <= usize::MAX,
            old(self).allocations < u64::MAX,
        ensures
            final(self).allocated == old(self).allocated + size,
            final(self).allocations == old(self).allocations + 1,
            final(self).peak == if old(self).allocated + size > old(self).peak {
                (old(self).allocated + size) as usize
            } else {
                old(self).peak
            },
            final(self).deallocations == old(self).deallocations,
    {
        self.allocated += size;
        self.allocations += 1;
        if self.allocated > self.peak {
            self.peak = self.allocated;
        }
    }

    /// Record a deallocation: the held total shrinks by the size,
    /// saturating at zero, and the counter grows by one.
    pub fn record_dealloc(&mut self, size: usize)
        requires
            old(self).deallocations < u64::MAX,
        ensures
            final(self).allocated == if old(self).allocated >= size {
                (old(self).allocated - size) as usize
            } else {
                0
            },
            final(self).deallocations == old(self).deallocations + 1,
            final(self).allocations == old(self).allocations,
            final(self).peak == old(self).peak,
    {
        self.allocated = self.allocated.saturating_sub(size);
        self.deallocations += 1;
    }
}

impl Default for MemStats {
    /// The default statistics are all zero.
    fn default() -> (s: MemStats)
        ensures
            s == (MemStats { allocated: 0, peak: 0, allocations: 0, deallocations: 0 }),
    {
        MemStats::new()
    }
}

} // verus!

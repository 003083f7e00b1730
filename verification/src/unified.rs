//! The unified-memory allocator: hands out regions reachable from both
//! CPU and GPU, tracked in a map keyed by region pointer, with running
//! statistics.  On hardware without unified memory every allocation is
//! refused.

use vstd::prelude::*;

verus! {

use crate::memory::{MemStats, MemoryError, Region};
use std::collections::HashMap;
use vstd::arithmetic::div_mod::{lemma_add_mod_noop, lemma_mod_bound, lemma_mod_self_0, lemma_small_mod};

/// Whether a count is a power of two.
pub open spec fn is_pow2(n: nat) -> bool
    decreases n,
{
    if n == 0 {
        false
    } else if n == 1 {
        true
    } else {
        n % 2 == 0 && is_pow2(n / 2)
    }
}

/// The smallest multiple of `a` that is at least `x`.
pub open spec fn spec_round_up(x: int, a: int) -> int {
    if x % a == 0 {
        x
    } else {
        x + a - x % a
    }
}

/// Whether a count is a power of two.
fn check_pow2(n: usize) -> (r: bool)
    ensures
        r == is_pow2(n as nat),
{
    if n == 0 {
        return false;
    }
    let mut m = n;
    while m % 2 == 0
        invariant
            m >= 1,
            is_pow2(n as nat) == is_pow2(m as nat),
        decreases m,
    {
        m = m / 2;
    }
    m == 1
}

/// The unified-memory allocator.
pub struct UnifiedAllocator {
    regions: HashMap<usize, Region>,
    stats: MemStats,
    is_unified: bool,
    next_ptr: usize,
}

impl UnifiedAllocator {
    /// The live regions, keyed by their pointer.
    pub closed spec fn spec_regions(&self) -> Map<usize, Region> {
        self.regions@
    }

    /// The running statistics.
    pub closed spec fn spec_stats(&self) -> MemStats {
        self.stats
    }

    /// Whether the device offers unified memory.
    pub closed spec fn spec_unified(&self) -> bool {
        self.is_unified
    }

    /// The pointer the next region will be carved from.
    pub closed spec fn spec_next_ptr(&self) -> usize {
        self.next_ptr
    }

    /// The allocator's invariant: the bytes held never exceed the bump
    /// pointer, so allocation arithmetic cannot overflow unnoticed.
    pub open spec fn inv(&self) -> bool {
        self.spec_stats().allocated <= self.spec_next_ptr()
    }

    /// A fresh allocator.  The first region is carved from 64 KiB up.
    pub fn new(is_unified: bool) -> (r: UnifiedAllocator)
        ensures
            r.spec_regions() == Map::<usize, Region>::empty(),
            r.spec_stats() == (MemStats { allocated: 0, peak: 0, allocations: 0, deallocations: 0 }),
            r.spec_unified() == is_unified,
            r.spec_next_ptr() == 0x10000,
            r.inv(),
    {
        UnifiedAllocator {
            regions: HashMap::new(),
            stats: MemStats::new(),
            is_unified,
            next_ptr: 0x10000,
        }
    }

    /// Allocate a region of `size` bytes at the given alignment.
    ///
    /// Fails with `NotUnified` when the device has no unified memory,
    /// with `InvalidAlignment` when the alignment is not a power of two,
    /// and with `OutOfMemory` when the aligned region would run past the
    /// address space or the counters are spent; each failure leaves the
    /// allocator unchanged.  On success the returned region starts at the
    /// bump pointer rounded up to the alignment, is recorded under its
    /// pointer, and the statistics and bump pointer advance.
    pub fn allocate(&mut self, size: usize, alignment: usize) -> (r: Result<Region, MemoryError>)
        requires
            old(self).inv(),
        ensures
            final(self).inv(),
            final(self).spec_unified() == old(self).spec_unified(),
            !old(self).spec_unified() ==> r == Err::<Region, MemoryError>(MemoryError::NotUnified)
                && *final(self) == *old(self),
            old(self).spec_unified() && !is_pow2(alignment as nat) ==> r == Err::<
                Region,
                MemoryError,
            >(MemoryError::InvalidAlignment(alignment)) && *final(self) == *old(self),
            old(self).spec_unified() && is_pow2(alignment as nat) ==> {
                let aligned = spec_round_up(old(self).spec_next_ptr() as int, alignment as int);
                if aligned + size <= usize::MAX && old(self).spec_stats().allocations < u64::MAX {
                    let region = Region {
                        ptr: aligned as usize,
                        size,
                        device_accessible: true,
                        host_accessible: true,
                    };
                    &&& r == Ok::<Region, MemoryError>(region)
                    &&& final(self).spec_regions() == old(self).spec_regions().insert(
                        aligned as usize,
                        region,
                    )
                    &&& final(self).spec_next_ptr() == aligned + size
                    &&& final(self).spec_stats().allocated == old(self).spec_stats().allocated
                        + size
                    &&& final(self).spec_stats().allocations == old(
                        self,
                    ).spec_stats().allocations + 1
                    &&& final(self).spec_stats().deallocations == old(
                        self,
                    ).spec_stats().deallocations
                    &&& final(self).spec_stats().peak == if old(self).spec_stats().allocated
                        + size > old(self).spec_stats().peak {
                        (old(self).spec_stats().allocated + size) as usize
                    } else {
                        old(self).spec_stats().peak
                    }
                    &&& aligned % (alignment as int) == 0
                } else {
                    &&& r == Err::<Region, MemoryError>(MemoryError::OutOfMemory(size))
                    &&& *final(self) == *old(self)
                }
            },
    {
        if !self.is_unified {
            return Err(MemoryError::NotUnified);
        }
        if !check_pow2(alignment) {
            return Err(MemoryError::InvalidAlignment(alignment));
        }
        proof {
            lemma_mod_bound(self.next_ptr as int, alignment as int);
        }
        let rem = self.next_ptr % alignment;
        let aligned: usize = if rem == 0 {
            self.next_ptr
        } else {
            if alignment - rem > usize::MAX - self.next_ptr {
                return Err(MemoryError::OutOfMemory(size));
            }
            self.next_ptr + (alignment - rem)
        };
        if size > usize::MAX - aligned || self.stats.allocations == u64::MAX {
            return Err(MemoryError::OutOfMemory(size));
        }
        proof {
            let a = alignment as int;
            let np = old(self).spec_next_ptr() as int;
            lemma_mod_self_0(a);
            if np % a != 0 {
                lemma_add_mod_noop(np, a - np % a, a);
                lemma_small_mod((a - np % a) as nat, a as nat);
            }
            assert(aligned as int % a == 0);
        }
        let region = Region { ptr: aligned, size, device_accessible: true, host_accessible: true };
        self.regions.insert(aligned, region);
        self.stats.record_alloc(size);
        self.next_ptr = aligned + size;
        Ok(region)
    }

    /// Free the region recorded under a pointer.  An unknown pointer is
    /// refused with `NullPointer` and nothing changes; otherwise the
    /// region is dropped and its size is returned to the statistics.
    pub fn free(&mut self, ptr: usize) -> (r: Result<(), MemoryError>)
        requires
            old(self).inv(),
            old(self).spec_stats().deallocations < u64::MAX,
        ensures
            final(self).inv(),
            if old(self).spec_regions().dom().contains(ptr) {
                let sz = old(self).spec_regions()[ptr].size;
                &&& r == Ok::<(), MemoryError>(())
                &&& final(self).spec_regions() == old(self).spec_regions().remove(ptr)
                &&& final(self).spec_stats().deallocations == old(
                    self,
                ).spec_stats().deallocations + 1
                &&& final(self).spec_stats().allocated == if old(self).spec_stats().allocated
                    >= sz {
                    (old(self).spec_stats().allocated - sz) as usize
                } else {
                    0
                }
                &&& final(self).spec_stats().allocations == old(self).spec_stats().allocations
                &&& final(self).spec_stats().peak == old(self).spec_stats().peak
            } else {
                &&& r == Err::<(), MemoryError>(MemoryError::NullPointer)
                &&& final(self).spec_regions() == old(self).spec_regions()
                &&& final(self).spec_stats() == old(self).spec_stats()
            },
            final(self).spec_next_ptr() == old(self).spec_next_ptr(),
            final(self).spec_unified() == old(self).spec_unified(),
    {
        match self.regions.remove(&ptr) {
            Some(region) => {
                self.stats.record_dealloc(region.size);
                Ok(())
            }
            None => {
                proof {
                    assert(self.regions@ =~= old(self).regions@);
                }
                Err(MemoryError::NullPointer)
            }
        }
    }

    /// Whether a pointer names a live region.
    pub fn is_valid(&self, ptr: usize) -> (r: bool)
        ensures
            r == self.spec_regions().dom().contains(ptr),
    {
        self.regions.contains_key(&ptr)
    }

    /// The region recorded under a pointer, if any.
    pub fn get_region(&self, ptr: usize) -> (r: Option<&Region>)
        ensures
            match r {
                Some(region) => self.spec_regions().dom().contains(ptr) && *region == self.spec_regions()[ptr],
                None => !self.spec_regions().dom().contains(ptr),
            },
    {
        self.regions.get(&ptr)
    }

    /// The running statistics.
    pub fn stats(&self) -> (r: &MemStats)
        ensures
            *r == self.spec_stats(),
    {
        &self.stats
    }

    /// Whether the device offers unified memory.
    pub fn is_unified(&self) -> (r: bool)
        ensures
            r == self.spec_unified(),
    {
        self.is_unified
    }

    /// Hint that a region will next be read from the device.  Placement
    /// hints have no observable effect here.
    pub fn prefetch_to_device(&self, _ptr: usize) -> (r: Result<(), MemoryError>)
        ensures
            r == Ok::<(), MemoryError>(()),
    {
        Ok(())
    }

    /// Hint that a region will next be read from the host.  Placement
    /// hints have no observable effect here.
    pub fn prefetch_to_host(&self, _ptr: usize) -> (r: Result<(), MemoryError>)
        ensures
            r == Ok::<(), MemoryError>(()),
    {
        Ok(())
    }

    /// Bytes currently held across all live regions.
    pub fn total_allocated(&self) -> (r: usize)
        ensures
            r == self.spec_stats().allocated,
    {
        self.stats.allocated
    }

    /// The high-water mark of bytes held.
    pub fn peak_usage(&self) -> (r: usize)
        ensures
            r == self.spec_stats().peak,
    {
        self.stats.peak
    }
}

} // verus!

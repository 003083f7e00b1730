//! Prefetch strategies and hints: placement advice for memory regions
//! shared between host and device, with a manager that counts accesses.

use vstd::prelude::*;

verus! {

use crate::memory::MemoryError;

/// When regions are prefetched.
#[derive(Debug, Clone, Copy, PartialEq, Eq, Structural)]
pub enum PrefetchStrategy {
    /// No prefetching.
    Off,
    /// Prefetch on first access.
    OnDemand,
    /// Prefetch the entire graph before execution.
    Eager,
    /// Adapt to observed access patterns.
    Adaptive,
}

/// The access a caller expects next on a region.
#[derive(Debug, Clone, Copy, PartialEq, Eq, Structural)]
pub enum PrefetchHint {
    /// The device will read.
    DeviceRead,
    /// The device will write.
    DeviceWrite,
    /// The host will read.
    HostRead,
    /// The host will write.
    HostWrite,
    /// Both sides will touch the region.
    Bidirectional,
}

/// Issues prefetch advice under one strategy and counts the accesses.
pub struct PrefetchManager {
    strategy: PrefetchStrategy,
    access_count: u64,
}

impl PrefetchManager {
    /// The strategy in force.
    pub closed spec fn spec_strategy(&self) -> PrefetchStrategy {
        self.strategy
    }

    /// How many hints have been issued.
    pub closed spec fn spec_access_count(&self) -> u64 {
        self.access_count
    }

    /// A fresh manager under the given strategy.
    pub fn new(strategy: PrefetchStrategy) -> (r: PrefetchManager)
        ensures
            r.spec_strategy() == strategy,
            r.spec_access_count() == 0,
    {
        PrefetchManager { strategy, access_count: 0 }
    }

    /// Issue a prefetch hint for a region.  The access is counted and the
    /// advice is dispatched under the strategy in force; advice never
    /// fails here.
    pub fn hint(&mut self, _ptr: usize, hint: PrefetchHint) -> (r: Result<(), MemoryError>)
        requires
            old(self).spec_access_count() < u64::MAX,
        ensures
            r == Ok::<(), MemoryError>(()),
            final(self).spec_access_count() == old(self).spec_access_count() + 1,
            final(self).spec_strategy() == old(self).spec_strategy(),
    {
        self.access_count += 1;
        match self.strategy {
            PrefetchStrategy::Off => Ok(()),
            PrefetchStrategy::OnDemand => self.prefetch_on_demand(hint),
            PrefetchStrategy::Eager => self.prefetch_eager(hint),
            PrefetchStrategy::Adaptive => self.prefetch_adaptive(hint),
        }
    }

    /// Advice for first-access prefetching; a platform layer outside this
    /// crate turns it into an instruction.
    fn prefetch_on_demand(&self, _hint: PrefetchHint) -> (r: Result<(), MemoryError>)
        ensures
            r == Ok::<(), MemoryError>(()),
    {
        Ok(())
    }

    /// Advice for whole-graph prefetching.
    fn prefetch_eager(&self, _hint: PrefetchHint) -> (r: Result<(), MemoryError>)
        ensures
            r == Ok::<(), MemoryError>(()),
    {
        Ok(())
    }

    /// Advice adapted to observed access patterns.
    fn prefetch_adaptive(&self, _hint: PrefetchHint) -> (r: Result<(), MemoryError>)
        ensures
            r == Ok::<(), MemoryError>(()),
    {
        Ok(())
    }

    /// The strategy in force.
    pub fn get_strategy(&self) -> (r: PrefetchStrategy)
        ensures
            r == self.spec_strategy(),
    {
        self.strategy
    }

    /// Change the strategy in force.
    pub fn set_strategy(&mut self, strategy: PrefetchStrategy)
        ensures
            final(self).spec_strategy() == strategy,
            final(self).spec_access_count() == old(self).spec_access_count(),
    {
        self.strategy = strategy;
    }

    /// How many hints have been issued.
    pub fn access_count(&self) -> (r: u64)
        ensures
            r == self.spec_access_count(),
    {
        self.access_count
    }
}

} // verus!

use hvmx::{
    MemStats, MemoryError, PrefetchHint, PrefetchManager, PrefetchStrategy, Region, TileConfig,
    UnifiedAllocator, linear_to_tiled, tiled_to_linear,
};

#[test]
fn test_region_creation() {
    let region = Region::new(0x1000, 4096);
    assert_eq!(region.ptr, 0x1000);
    assert_eq!(region.size, 4096);
    assert!(region.is_unified());
}

#[test]
fn test_region_unified() {
    let mut region = Region::new(0x2000, 8192);
    assert!(region.is_unified());

    region.host_accessible = false;
    assert!(!region.is_unified());
}

#[test]
fn test_memstats_alloc() {
    let mut stats = MemStats::new();
    stats.record_alloc(1024);

    assert_eq!(stats.allocated, 1024);
    assert_eq!(stats.peak, 1024);
    assert_eq!(stats.allocations, 1);
}

#[test]
fn test_memstats_peak() {
    let mut stats = MemStats::new();
    stats.record_alloc(1024);
    stats.record_alloc(2048);
    stats.record_dealloc(1024);

    assert_eq!(stats.allocated, 2048);
    assert_eq!(stats.peak, 3072);
}

#[test]
fn test_memstats_dealloc() {
    let mut stats = MemStats::new();
    stats.record_alloc(4096);
    stats.record_dealloc(2048);

    assert_eq!(stats.allocated, 2048);
    assert_eq!(stats.deallocations, 1);
}

#[test]
fn test_unified_alloc() {
    let mut alloc = UnifiedAllocator::new(true);
    let region = alloc.allocate(4096, 16).unwrap();

    assert_eq!(region.size, 4096);
    assert!(region.is_unified());
    assert!(alloc.is_valid(region.ptr));
}

#[test]
fn test_unified_alloc_alignment() {
    let mut alloc = UnifiedAllocator::new(true);
    let region = alloc.allocate(1024, 256).unwrap();

    assert_eq!(region.ptr % 256, 0);
}

#[test]
fn test_unified_alloc_not_unified() {
    let mut alloc = UnifiedAllocator::new(false);
    let result = alloc.allocate(1024, 16);

    assert!(result.is_err());
}

#[test]
fn test_unified_free() {
    let mut alloc = UnifiedAllocator::new(true);
    let region = alloc.allocate(2048, 16).unwrap();

    assert!(alloc.is_valid(region.ptr));
    alloc.free(region.ptr).unwrap();
    assert!(!alloc.is_valid(region.ptr));
}

#[test]
fn test_unified_stats() {
    let mut alloc = UnifiedAllocator::new(true);
    alloc.allocate(1024, 16).unwrap();
    alloc.allocate(2048, 16).unwrap();

    let stats = alloc.stats();
    assert_eq!(stats.allocated, 3072);
    assert_eq!(stats.allocations, 2);
}

#[test]
fn test_unified_peak() {
    let mut alloc = UnifiedAllocator::new(true);
    let r1 = alloc.allocate(4096, 16).unwrap();
    alloc.allocate(8192, 16).unwrap();
    alloc.free(r1.ptr).unwrap();

    assert_eq!(alloc.peak_usage(), 12288);
    assert_eq!(alloc.total_allocated(), 8192);
}

#[test]
fn test_unified_get_region() {
    let mut alloc = UnifiedAllocator::new(true);
    let region = alloc.allocate(1024, 16).unwrap();

    let retrieved = alloc.get_region(region.ptr).unwrap();
    assert_eq!(retrieved.size, 1024);
}

#[test]
fn test_unified_invalid_alignment() {
    let mut alloc = UnifiedAllocator::new(true);
    let result = alloc.allocate(1024, 15);

    assert!(result.is_err());
}

#[test]
fn test_unified_multiple_allocs() {
    let mut alloc = UnifiedAllocator::new(true);
    let r1 = alloc.allocate(512, 8).unwrap();
    let r2 = alloc.allocate(1024, 8).unwrap();
    let r3 = alloc.allocate(2048, 8).unwrap();

    assert!(r2.ptr > r1.ptr);
    assert!(r3.ptr > r2.ptr);
}

#[test]
fn test_unified_prefetch() {
    let mut alloc = UnifiedAllocator::new(true);
    let region = alloc.allocate(4096, 16).unwrap();

    assert!(alloc.prefetch_to_device(region.ptr).is_ok());
    assert!(alloc.prefetch_to_host(region.ptr).is_ok());
}

#[test]
fn test_unified_exhaustion_reported() {
    let mut alloc = UnifiedAllocator::new(true);
    let result = alloc.allocate(usize::MAX, 1);
    assert_eq!(result, Err(MemoryError::OutOfMemory(usize::MAX)));
}

#[test]
fn test_unified_free_unknown_pointer() {
    let mut alloc = UnifiedAllocator::new(true);
    assert_eq!(alloc.free(0xDEAD), Err(MemoryError::NullPointer));
}

#[test]
fn test_prefetch_manager_creation() {
    let mgr = PrefetchManager::new(PrefetchStrategy::Adaptive);
    assert_eq!(mgr.get_strategy(), PrefetchStrategy::Adaptive);
}

#[test]
fn test_prefetch_hint() {
    let mut mgr = PrefetchManager::new(PrefetchStrategy::OnDemand);
    let result = mgr.hint(0x1000, PrefetchHint::DeviceRead);

    assert!(result.is_ok());
    assert_eq!(mgr.access_count(), 1);
}

#[test]
fn test_prefetch_strategy_change() {
    let mut mgr = PrefetchManager::new(PrefetchStrategy::Off);
    mgr.set_strategy(PrefetchStrategy::Eager);

    assert_eq!(mgr.get_strategy(), PrefetchStrategy::Eager);
}

#[test]
fn test_prefetch_access_count() {
    let mut mgr = PrefetchManager::new(PrefetchStrategy::Adaptive);
    mgr.hint(0x1000, PrefetchHint::DeviceRead).unwrap();
    mgr.hint(0x2000, PrefetchHint::HostWrite).unwrap();

    assert_eq!(mgr.access_count(), 2);
}

#[test]
fn test_prefetch_hint_types() {
    let mut mgr = PrefetchManager::new(PrefetchStrategy::OnDemand);

    assert!(mgr.hint(0x1000, PrefetchHint::DeviceRead).is_ok());
    assert!(mgr.hint(0x2000, PrefetchHint::DeviceWrite).is_ok());
    assert!(mgr.hint(0x3000, PrefetchHint::HostRead).is_ok());
    assert!(mgr.hint(0x4000, PrefetchHint::HostWrite).is_ok());
    assert!(mgr.hint(0x5000, PrefetchHint::Bidirectional).is_ok());
}

#[test]
fn test_prefetch_strategies() {
    let strats = [
        PrefetchStrategy::Off,
        PrefetchStrategy::OnDemand,
        PrefetchStrategy::Eager,
        PrefetchStrategy::Adaptive,
    ];

    for strat in strats {
        let mgr = PrefetchManager::new(strat);
        assert_eq!(mgr.get_strategy(), strat);
    }
}

#[test]
fn test_tile_config() {
    let tile = TileConfig::new(16, 16);
    assert_eq!(tile.width, 16);
    assert_eq!(tile.height, 16);
    assert_eq!(tile.area(), 256);
    assert!(tile.is_square());
}

#[test]
fn test_tile_presets() {
    assert_eq!(TileConfig::tile_8x8().area(), 64);
    assert_eq!(TileConfig::tile_16x16().area(), 256);
    assert_eq!(TileConfig::tile_32x32().area(), 1024);
}

#[test]
fn test_linear_to_tiled() {
    let tile = TileConfig::tile_8x8();
    let (x, y) = linear_to_tiled(0, tile, 64);
    assert_eq!((x, y), (0, 0));
}

#[test]
fn test_linear_to_tiled_inside_tile() {
    // Index 100 in 8-by-8 tiles over a width of 64: second tile of the
    // first tile row, local cell (4, 4).
    let tile = TileConfig::tile_8x8();
    assert_eq!(linear_to_tiled(100, tile, 64), (12, 4));
    assert_eq!(tiled_to_linear(12, 4, tile, 64), 100);
}

#[test]
fn test_tiled_to_linear() {
    let tile = TileConfig::tile_8x8();
    let index = tiled_to_linear(0, 0, tile, 64);
    assert_eq!(index, 0);
}

#[test]
fn test_tile_roundtrip() {
    let tile = TileConfig::tile_16x16();
    let total_width = 128;

    for i in 0..256 {
        let (x, y) = linear_to_tiled(i, tile, total_width);
        let back = tiled_to_linear(x, y, tile, total_width);
        assert_eq!(i, back);
    }
}

#[test]
fn test_tile_not_square() {
    let tile = TileConfig::new(16, 8);
    assert!(!tile.is_square());
    assert_eq!(tile.area(), 128);
}

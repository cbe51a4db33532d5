use elios_core::memory::{BootInfoFrameAllocator, MemoryMap, MemoryRegion};

fn single_region_map(frames: u64) -> MemoryMap {
    MemoryMap::new(vec![MemoryRegion { start_frame: 0, end_frame: frames, usable: true }])
}

#[test]
fn sixteen_frames_then_exhaustion() {
    // One usable region of 16 frames; request 20: the first 16 are unique
    // and increasing, the 17th through 20th report exhaustion.
    let map = single_region_map(16);
    let mut alloc = BootInfoFrameAllocator::init(map);
    let mut seen: Vec<u64> = Vec::new();
    for _ in 0..16 {
        let f = alloc.allocate_frame().expect("usable frame owed");
        if let Some(last) = seen.last() {
            assert!(f > *last, "frames must increase");
        }
        assert!(!seen.contains(&f), "no frame is handed out twice");
        seen.push(f);
    }
    assert_eq!(seen.len(), 16);
    for _ in 0..4 {
        assert_eq!(alloc.allocate_frame(), None, "the sequence is spent");
    }
}

#[test]
fn unusable_regions_are_skipped() {
    let map = MemoryMap::new(vec![
        MemoryRegion { start_frame: 0, end_frame: 2, usable: true },
        MemoryRegion { start_frame: 2, end_frame: 4, usable: false },
        MemoryRegion { start_frame: 4, end_frame: 6, usable: true },
    ]);
    let mut alloc = BootInfoFrameAllocator::init(map);
    assert_eq!(alloc.allocate_frame(), Some(0));
    assert_eq!(alloc.allocate_frame(), Some(1));
    assert_eq!(alloc.allocate_frame(), Some(4));
    assert_eq!(alloc.allocate_frame(), Some(5));
    assert_eq!(alloc.allocate_frame(), None);
}

#[test]
fn empty_map_is_immediately_exhausted() {
    let map = MemoryMap::new(vec![]);
    let mut alloc = BootInfoFrameAllocator::init(map);
    assert_eq!(alloc.allocate_frame(), None);
}

#[test]
fn frame_to_addr_is_page_aligned() {
    assert_eq!(elios_core::frame_to_addr(0), 0);
    assert_eq!(elios_core::frame_to_addr(3), 3 * 4096);
    assert_eq!(elios_core::frame_to_addr(0x444444440) % 4096, 0);
}

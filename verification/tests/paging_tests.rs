use elios_core::memory::{BootInfoFrameAllocator, MemoryMap, MemoryRegion};
use elios_core::paging::{init_heap, MapError, PageMapping, PageTables};

fn map_of(frames: u64) -> MemoryMap {
    MemoryMap::new(vec![MemoryRegion { start_frame: 100, end_frame: 100 + frames, usable: true }])
}

#[test]
fn mapping_one_page_resolves_it_and_nothing_else() {
    let mut tables = PageTables::new();
    let mut alloc = BootInfoFrameAllocator::init(map_of(64));
    assert_eq!(tables.lookup_page(0x12345), None);
    tables.map_page(0x12345, 777, &mut alloc).unwrap();
    assert_eq!(
        tables.lookup_page(0x12345),
        Some(PageMapping { frame: 777, writable: true })
    );
    assert_eq!(tables.lookup_page(0x12344), None);
    assert_eq!(tables.lookup_page(0x12346), None);
    assert_eq!(tables.lookup_page(0), None);
}

#[test]
fn heap_range_fully_mapped_writable() {
    let mut tables = PageTables::new();
    let mut alloc = BootInfoFrameAllocator::init(map_of(64));
    init_heap(&mut tables, &mut alloc, 0x1000, 8).unwrap();
    for p in 0x1000..0x1008u64 {
        let m = tables.lookup_page(p).expect("every heap page resolves");
        assert!(m.writable);
    }
    // No page outside the range became present as a side effect.
    assert_eq!(tables.lookup_page(0xFFF), None);
    assert_eq!(tables.lookup_page(0x1008), None);
}

#[test]
fn heap_pages_are_backed_by_distinct_usable_frames() {
    let mut tables = PageTables::new();
    let mut alloc = BootInfoFrameAllocator::init(map_of(64));
    init_heap(&mut tables, &mut alloc, 0x2000, 4).unwrap();
    let mut frames: Vec<u64> = (0x2000..0x2004u64)
        .map(|p| tables.lookup_page(p).unwrap().frame)
        .collect();
    frames.sort();
    frames.dedup();
    assert_eq!(frames.len(), 4, "each page has its own frame");
    for f in frames {
        assert!((100..164).contains(&f), "frames come from the usable region");
    }
}

#[test]
fn frame_exhaustion_aborts_heap_mapping() {
    let mut tables = PageTables::new();
    let mut alloc = BootInfoFrameAllocator::init(map_of(2));
    let r = init_heap(&mut tables, &mut alloc, 0x3000, 8);
    assert_eq!(r, Err(MapError::FrameExhausted));
}

#[test]
fn boot_sequence_over_synthetic_map() {
    let map = MemoryMap::new(vec![MemoryRegion {
        start_frame: 0,
        end_frame: 200,
        usable: true,
    }]);
    let entries = elios_core::HandlerEntryPoints {
        fallback: 0x100,
        double_fault: 0x200,
        page_fault: 0x300,
        timer: 0x400,
        keyboard: 0x500,
    };
    let core = elios_core::init(map, entries, 0x8000, 0x9000).unwrap();
    assert!(core.pics.initialized);
    assert_eq!(core.heap.heap_start, elios_core::HEAP_START);
    assert_eq!(core.heap.heap_size, elios_core::HEAP_SIZE);
    let m = core
        .tables
        .lookup_page(elios_core::HEAP_START_PAGE)
        .expect("first heap page mapped");
    assert!(m.writable);
    assert_eq!(core.setup.idt.gates[32].handler, 0x400);
    assert_eq!(core.setup.idt.gates[8].stack_index, 1);
}

#[test]
fn boot_aborts_on_a_tiny_map() {
    let map = MemoryMap::new(vec![MemoryRegion {
        start_frame: 0,
        end_frame: 16,
        usable: true,
    }]);
    let entries = elios_core::HandlerEntryPoints {
        fallback: 1,
        double_fault: 2,
        page_fault: 3,
        timer: 4,
        keyboard: 5,
    };
    assert!(elios_core::init(map, entries, 0x8000, 0x9000).is_err());
}

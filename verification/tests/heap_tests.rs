use elios_core::heap::{alloc_error_handler, AllocError, HeapAllocator};

#[test]
fn round_trip_coalesces_fully() {
    // Allocate four blocks of 64 bytes, return them out of order, and the
    // coalesced heap serves one request for all 256 bytes again.
    let mut heap = HeapAllocator::new(0x1000, 256);
    let a = heap.allocate(64, 1).unwrap();
    let b = heap.allocate(64, 1).unwrap();
    let c = heap.allocate(64, 1).unwrap();
    let d = heap.allocate(64, 1).unwrap();
    assert_eq!(heap.allocate(64, 1), Err(AllocError::Exhausted));
    heap.deallocate(c, 64);
    heap.deallocate(a, 64);
    heap.deallocate(d, 64);
    heap.deallocate(b, 64);
    assert_eq!(heap.allocate(256, 1), Ok(0x1000));
}

#[test]
fn round_trip_in_reverse_order() {
    let mut heap = HeapAllocator::new(0, 4096);
    let mut addrs = Vec::new();
    for _ in 0..8 {
        addrs.push(heap.allocate(512, 1).unwrap());
    }
    for a in addrs.iter().rev() {
        heap.deallocate(*a, 512);
    }
    assert_eq!(heap.allocate(4096, 1), Ok(0));
}

#[test]
fn alignment_is_honored() {
    let mut heap = HeapAllocator::new(0x1001, 0x100);
    let a = heap.allocate(16, 16).unwrap();
    assert_eq!(a % 16, 0);
    assert!(a >= 0x1001);
}

#[test]
fn invalid_alignment_is_distinct_from_exhaustion() {
    let mut heap = HeapAllocator::new(0x1000, 64);
    assert_eq!(heap.allocate(8, 3), Err(AllocError::InvalidAlign));
    assert_eq!(heap.allocate(8, 0), Err(AllocError::InvalidAlign));
    assert_eq!(heap.allocate(128, 1), Err(AllocError::Exhausted));
    assert_eq!(heap.allocate(8, 8).map(|a| a % 8), Ok(0));
}

#[test]
fn splitting_keeps_remainder_usable() {
    let mut heap = HeapAllocator::new(0, 100);
    let a = heap.allocate(30, 1).unwrap();
    assert_eq!(a, 0);
    let b = heap.allocate(70, 1).unwrap();
    assert_eq!(b, 30);
    assert_eq!(heap.allocate(1, 1), Err(AllocError::Exhausted));
}

#[test]
fn alloc_error_report_carries_the_request() {
    let r = alloc_error_handler(4096, 8);
    assert_eq!(r.size, 4096);
    assert_eq!(r.align, 8);
}

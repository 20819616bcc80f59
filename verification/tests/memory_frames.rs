use feebos::allocator::{init_heap, HeapInitError, HEAP_PAGE_COUNT, HEAP_SIZE, HEAP_START};
use feebos::memory::{
    l4_table_address, MemoryRegion, MemoryRegionKind, MemoryRegionsFrameAllocator,
};

fn usable(start: u64, end: u64) -> MemoryRegion {
    MemoryRegion { start, end, kind: MemoryRegionKind::Usable }
}

fn reserved(start: u64, end: u64) -> MemoryRegion {
    MemoryRegion { start, end, kind: MemoryRegionKind::Reserved }
}

#[test]
fn frames_walk_usable_regions_in_order() {
    let map = vec![
        reserved(0, 0x10000),
        usable(0x10000, 0x13000),
        MemoryRegion { start: 0x13000, end: 0x20000, kind: MemoryRegionKind::Bootloader },
        usable(0x20000, 0x21000),
    ];
    let mut alloc = MemoryRegionsFrameAllocator::init(map);
    assert_eq!(alloc.allocate_frame(), Some(0x10000));
    assert_eq!(alloc.allocate_frame(), Some(0x11000));
    assert_eq!(alloc.allocate_frame(), Some(0x12000));
    assert_eq!(alloc.allocate_frame(), Some(0x20000));
    assert_eq!(alloc.allocate_frame(), None);
    assert_eq!(alloc.allocate_frame(), None);
}

#[test]
fn first_frames_are_distinct_aligned_and_usable() {
    let map = vec![usable(0x10000, 0x15000), usable(0x40000, 0x42000)];
    let regions = map.clone();
    let mut alloc = MemoryRegionsFrameAllocator::init(map);
    let mut seen: Vec<u64> = Vec::new();
    while let Some(frame) = alloc.allocate_frame() {
        assert_eq!(frame % 4096, 0);
        assert!(regions.iter().any(|r| {
            r.kind == MemoryRegionKind::Usable && r.start <= frame && frame < r.end
        }));
        assert!(!seen.contains(&frame));
        seen.push(frame);
    }
    assert_eq!(seen.len(), 7);
}

#[test]
fn unaligned_region_yields_containing_frames() {
    // stepping from an unaligned start rounds each step down to its frame
    let mut alloc = MemoryRegionsFrameAllocator::init(vec![usable(0x1800, 0x2800)]);
    assert_eq!(alloc.allocate_frame(), Some(0x1000));
    assert_eq!(alloc.allocate_frame(), None);
}

#[test]
fn empty_or_unusable_maps_give_no_frames() {
    let mut alloc = MemoryRegionsFrameAllocator::init(Vec::new());
    assert_eq!(alloc.allocate_frame(), None);
    let mut alloc = MemoryRegionsFrameAllocator::init(vec![reserved(0, 0x100000)]);
    assert_eq!(alloc.allocate_frame(), None);
}

#[test]
fn heap_plan_maps_every_page_to_a_fresh_frame() {
    assert_eq!(HEAP_PAGE_COUNT as u64 * 4096, HEAP_SIZE);
    let mut alloc = MemoryRegionsFrameAllocator::init(vec![usable(0x100000, 0x200000)]);
    let plan = init_heap(&mut alloc).expect("enough frames");
    assert_eq!(plan.len(), HEAP_PAGE_COUNT);
    for (i, mapping) in plan.iter().enumerate() {
        assert_eq!(mapping.page, HEAP_START + 4096 * i as u64);
        assert_eq!(mapping.frame, 0x100000 + 4096 * i as u64);
        assert_eq!(mapping.flags, 0b11);
    }
}

#[test]
fn heap_plan_fails_when_frames_run_out() {
    // ten frames cannot back twenty-five pages
    let mut alloc = MemoryRegionsFrameAllocator::init(vec![usable(0x100000, 0x10A000)]);
    assert_eq!(init_heap(&mut alloc), Err(HeapInitError::FrameAllocationFailed));
}

#[test]
fn l4_address_adds_the_window_offset() {
    assert_eq!(l4_table_address(0xFFFF_8000_0000_0000 >> 16, 0x1000), (0xFFFF_8000_0000_0000u64 >> 16) + 0x1000);
    assert_eq!(l4_table_address(0, 0x2000), 0x2000);
}

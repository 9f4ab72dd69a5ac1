use alien_domain::frame::FrameAllocator;
use alien_domain::heap::{RRef, SharedHeap};
use alien_domain::resource::{
    free_domain_resource, register_domain_resource, DomainResource, KernelMemory,
};

#[test]
fn first_fit_takes_pages_from_the_first_range_large_enough() {
    let mut frames = FrameAllocator::new(100, 4);
    frames.free_frames(200, 16);
    assert_eq!(frames.free_page_count(), Some(20));
    assert_eq!(frames.alloc_contiguous(8), Some(200));
    assert_eq!(frames.alloc_contiguous(3), Some(100));
    assert_eq!(frames.alloc_contiguous(2), Some(208));
    assert_eq!(frames.alloc_contiguous(7), None);
    assert_eq!(frames.free_page_count(), Some(7));
    assert_eq!(frames.alloc_contiguous(6), Some(210));
    assert_eq!(frames.alloc_contiguous(1), Some(103));
    assert_eq!(frames.free_page_count(), Some(0));
}

#[test]
fn free_page_count_reports_overflow() {
    let mut frames = FrameAllocator::new(0, usize::MAX);
    frames.free_frames(0, 1);
    assert_eq!(frames.free_page_count(), None);
}

#[test]
fn insert_page_map_appends_ranges_per_domain() {
    let mut ledger = DomainResource::new();
    assert!(ledger.page_entry(1).is_none());
    ledger.insert_page_map(1, (10, 2));
    ledger.insert_page_map(2, (20, 1));
    ledger.insert_page_map(1, (30, 4));
    assert_eq!(ledger.page_entry(1), Some(&vec![(10, 2), (30, 4)]));
    assert_eq!(ledger.page_entry(2), Some(&vec![(20, 1)]));
}

#[test]
fn free_page_map_drops_ranges_starting_at_page() {
    let mut ledger = DomainResource::new();
    ledger.insert_page_map(1, (10, 2));
    ledger.insert_page_map(1, (30, 4));
    ledger.insert_page_map(1, (10, 1));
    ledger.insert_page_map(2, (10, 5));
    ledger.free_page_map(1, 10);
    assert_eq!(ledger.page_entry(1), Some(&vec![(30, 4)]));
    assert_eq!(ledger.page_entry(2), Some(&vec![(10, 5)]));
    ledger.free_page_map(1, 99);
    assert_eq!(ledger.page_entry(1), Some(&vec![(30, 4)]));
    ledger.free_page_map(1, 30);
    assert_eq!(ledger.page_entry(1), Some(&vec![]));
}

#[test]
fn heap_state_is_replaced_not_stacked() {
    let mut ledger = DomainResource::new();
    ledger.insert_box_data(3, 0x1000);
    register_domain_resource(&mut ledger, 3, 0x2000);
    register_domain_resource(&mut ledger, 4, 0x3000);
    assert_eq!(ledger.heap_state_entry(3), Some(0x2000));
    assert_eq!(ledger.heap_state_entry(4), Some(0x3000));
    assert_eq!(ledger.heap_state_entry(5), None);
}

#[test]
fn free_domain_resource_returns_every_range_once() {
    let mut ledger = DomainResource::new();
    let mut frames = FrameAllocator::new(1000, 10);
    let mut heap = SharedHeap::new(4, 16);
    ledger.insert_page_map(7, (100, 3));
    ledger.insert_page_map(7, (200, 5));
    ledger.insert_page_map(8, (300, 1));
    register_domain_resource(&mut ledger, 7, 0xdead_0000);
    let mine = RRef::new(&mut heap, 7, 1, vec![1]).unwrap();
    let other = RRef::new(&mut heap, 8, 1, vec![2]).unwrap();

    let state = free_domain_resource(7, &mut ledger, &mut frames, &mut heap);
    assert_eq!(state, Some(0xdead_0000));
    assert!(ledger.page_entry(7).is_none());
    assert_eq!(ledger.heap_state_entry(7), None);
    assert_eq!(ledger.page_entry(8), Some(&vec![(300, 1)]));
    assert_eq!(frames.free_page_count(), Some(18));
    assert!(heap.read(&mine).is_err());
    assert_eq!(heap.read(&other).unwrap(), &vec![2u8]);

    let again = free_domain_resource(7, &mut ledger, &mut frames, &mut heap);
    assert_eq!(again, None);
    assert_eq!(frames.free_page_count(), Some(18));
    assert_eq!(frames.alloc_contiguous(5), Some(1000));
    assert_eq!(frames.alloc_contiguous(5), Some(1005));
    assert_eq!(frames.alloc_contiguous(5), Some(200));
}

#[test]
fn reclaim_detaches_the_heap_state() {
    let mut mem = KernelMemory {
        ledger: DomainResource::new(),
        frames: FrameAllocator::new(0, 0),
        heap: SharedHeap::new(1, 1),
        detached: Vec::new(),
    };
    mem.ledger.insert_page_map(2, (40, 2));
    register_domain_resource(&mut mem.ledger, 2, 0x4000);
    mem.reclaim(2);
    assert_eq!(mem.detached, vec![0x4000]);
    assert_eq!(mem.frames.free_page_count(), Some(2));
    mem.reclaim(2);
    assert_eq!(mem.detached, vec![0x4000]);
    assert_eq!(mem.frames.free_page_count(), Some(2));
}

#[test]
fn free_page_map_keeps_other_domains() {
    let mut r = DomainResource::new();
    r.insert_page_map(1, (10, 2));
    r.insert_page_map(1, (20, 3));
    r.insert_page_map(1, (10, 1));
    r.insert_page_map(2, (10, 4));
    r.free_page_map(1, 10);
    assert_eq!(r.page_entry(1), Some(&vec![(20, 3)]));
    assert_eq!(r.page_entry(2), Some(&vec![(10, 4)]));
    assert_eq!(r.heap_state_entry(1), None);
    assert_eq!(r.heap_state_entry(2), None);
}

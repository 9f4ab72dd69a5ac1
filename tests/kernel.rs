use alien_domain::frame::FrameAllocator;
use alien_domain::id::{DomainIdAllocator, NO_DOMAIN_ID};
use alien_domain::srcu::SrcuLock;
use alien_domain::stack::Stack;
use alien_domain::vm::{
    alloc_free_region, is_in_kernel_space, kernel_pgd, kernel_satp, map_region_to_kernel,
    query_kernel_space, unmap_region_from_kernel, KernelSpace,
};

#[test]
fn satp_selects_the_root_page_table() {
    let space = KernelSpace::new(0x8020_0000, 0x9000_0000);
    assert_eq!(kernel_pgd(&space), 0x8020_0000);
    assert_eq!(kernel_satp(&space), 0x8000_0000_0008_0200);
}

#[test]
fn free_regions_are_handed_out_in_order() {
    let mut space = KernelSpace::new(0, 0x9000_0000);
    assert_eq!(alloc_free_region(&mut space, 0x2000), Some(0x9000_0000));
    assert_eq!(alloc_free_region(&mut space, 0x1000), Some(0x9000_2000));
    assert_eq!(alloc_free_region(&mut space, 0x1000), Some(0x9000_3000));
}

#[test]
fn free_region_past_the_end_is_refused() {
    let mut space = KernelSpace::new(0, usize::MAX - 0xfff);
    assert_eq!(alloc_free_region(&mut space, 0x2000), None);
    assert_eq!(alloc_free_region(&mut space, 0x1000), None);
    let mut space = KernelSpace::new(0, usize::MAX - 0x1fff);
    assert_eq!(alloc_free_region(&mut space, 0x1000), Some(usize::MAX - 0x1fff));
}

#[test]
fn mapped_region_is_queried_and_unmapped() {
    let mut space = KernelSpace::new(0, 0);
    let mut frames = FrameAllocator::new(0x80, 8);
    assert!(!is_in_kernel_space(&space, 0x4000, 0x10));
    assert!(is_in_kernel_space(&space, 0x4000, 0));
    assert_eq!(map_region_to_kernel(&mut space, &mut frames, 0x4000, 0x3000), Ok(()));
    assert_eq!(frames.free_page_count(), Some(5));
    assert_eq!(query_kernel_space(&space, 0x4000), Some(0x80_000));
    assert_eq!(query_kernel_space(&space, 0x5123), Some(0x81_123));
    assert_eq!(query_kernel_space(&space, 0x6fff), Some(0x82_fff));
    assert_eq!(query_kernel_space(&space, 0x7000), None);
    assert_eq!(query_kernel_space(&space, 0x3fff), None);
    assert!(is_in_kernel_space(&space, 0x4000, 0x3000));
    assert!(is_in_kernel_space(&space, 0x4010, 0x2000));
    assert!(is_in_kernel_space(&space, 0x6ff0, 0x10));
    assert!(!is_in_kernel_space(&space, 0x6ff0, 0x11));
    assert!(!is_in_kernel_space(&space, 0x3fff, 0x2));
    assert_eq!(unmap_region_from_kernel(&mut space, &mut frames, 0x4000), Ok(()));
    assert_eq!(query_kernel_space(&space, 0x5000), None);
    assert!(!is_in_kernel_space(&space, 0x4000, 1));
    assert_eq!(frames.free_page_count(), Some(8));
}

#[test]
fn mapping_without_free_pages_fails() {
    let mut space = KernelSpace::new(0, 0);
    let mut frames = FrameAllocator::new(0x80, 2);
    assert_eq!(
        map_region_to_kernel(&mut space, &mut frames, 0x4000, 0x3000),
        Err(alien_domain::error::AlienError::NoMemory)
    );
    assert_eq!(query_kernel_space(&space, 0x4000), None);
    assert_eq!(frames.free_page_count(), Some(2));
}

#[test]
fn stack_top_is_the_end_of_its_last_page() {
    let mut frames = FrameAllocator::new(0x100, 16);
    let stack = Stack::new(4, &mut frames).unwrap();
    assert_eq!(stack.top(), 0x104 * 4096);
    assert_eq!(frames.free_page_count(), Some(12));
    let second = Stack::new(2, &mut frames).unwrap();
    assert_eq!(second.top(), 0x106 * 4096);
    assert!(Stack::new(11, &mut frames).is_none());
    assert_eq!(frames.free_page_count(), Some(10));
}

#[test]
fn domain_ids_are_fresh_and_increasing() {
    let mut ids = DomainIdAllocator::new(1);
    assert_eq!(ids.alloc_id(), Some(1));
    assert_eq!(ids.alloc_id(), Some(2));
    let mut last = DomainIdAllocator::new(NO_DOMAIN_ID - 1);
    assert_eq!(last.alloc_id(), Some(NO_DOMAIN_ID - 1));
    assert_eq!(last.alloc_id(), None);
    assert_eq!(last.alloc_id(), None);
}

#[test]
fn grace_period_waits_for_earlier_readers_only() {
    let mut lock = SrcuLock::new();
    let a = lock.read_lock();
    let b = lock.read_lock();
    lock.begin_synchronize();
    let c = lock.read_lock();
    assert!(!lock.grace_period_over());
    lock.read_unlock(a);
    assert!(!lock.grace_period_over());
    lock.read_unlock(b);
    assert!(lock.grace_period_over());
    lock.end_synchronize();
    lock.read_unlock(c);
    lock.begin_synchronize();
    assert!(lock.grace_period_over());
}

#[test]
fn stack_takes_the_first_fit() {
    let mut frames = FrameAllocator::new(0x10, 2);
    frames.free_frames(0x40, 8);
    let stack = Stack::new(3, &mut frames).unwrap();
    assert_eq!(stack.top(), 0x43 * 4096);
    let small = Stack::new(2, &mut frames).unwrap();
    assert_eq!(small.top(), 0x12 * 4096);
    assert_eq!(frames.free_page_count(), Some(5));
}

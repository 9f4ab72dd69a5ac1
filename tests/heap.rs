use alien_domain::error::AlienError;
use alien_domain::heap::{RRef, RRefVec, SharedHeap, BYTE_SEQ_TAG};

const BYTES: u64 = 7;

#[test]
fn allocate_gives_zeroed_payload_owned_by_caller() {
    let mut heap = SharedHeap::new(4, 64);
    let h = heap.allocate(3, 16, 8, BYTES).unwrap();
    assert_eq!(heap.read(&h).unwrap(), &vec![0u8; 16]);
    assert_eq!(heap.owner_of(&h), Ok(3));
    assert_eq!(heap.free_capacity(), 3);
}

#[test]
fn allocate_rejects_alignment_that_is_not_a_power_of_two() {
    let mut heap = SharedHeap::new(4, 64);
    assert!(matches!(heap.allocate(1, 8, 0, BYTES), Err(AlienError::InvalidLayout)));
    assert!(matches!(heap.allocate(1, 8, 3, BYTES), Err(AlienError::InvalidLayout)));
    assert!(matches!(heap.allocate(1, 100, 6, BYTES), Err(AlienError::InvalidLayout)));
    assert_eq!(heap.free_capacity(), 4);
}

#[test]
fn allocate_fails_with_no_memory_when_exhausted() {
    let mut heap = SharedHeap::new(2, 64);
    assert!(matches!(heap.allocate(1, 65, 1, BYTES), Err(AlienError::NoMemory)));
    let _a = heap.allocate(1, 64, 1, BYTES).unwrap();
    let _b = heap.allocate(1, 0, 1, BYTES).unwrap();
    assert!(matches!(heap.allocate(1, 1, 1, BYTES), Err(AlienError::NoMemory)));
    assert_eq!(heap.free_capacity(), 0);
}

#[test]
fn allocate_then_release_keeps_free_capacity() {
    let mut heap = SharedHeap::new(8, 32);
    let keep = heap.allocate(1, 4, 4, BYTES).unwrap();
    let before = heap.free_capacity();
    let h = heap.allocate(2, 32, 8, BYTES).unwrap();
    assert_eq!(heap.free_capacity(), before - 1);
    assert!(heap.release(h).is_ok());
    assert_eq!(heap.free_capacity(), before);
    assert_eq!(heap.read(&keep).unwrap(), &vec![0u8; 4]);
}

#[test]
fn transfer_keeps_payload_and_reports_new_owner() {
    let mut heap = SharedHeap::new(4, 64);
    let h = RRef::new(&mut heap, 10, BYTES, vec![1, 2, 3, 4]).unwrap();
    assert_eq!(heap.owner_of(&h), Ok(10));
    assert_eq!(h.move_to(&mut heap, 20), Ok(()));
    assert_eq!(heap.owner_of(&h), Ok(20));
    assert_eq!(heap.read(&h).unwrap(), &vec![1, 2, 3, 4]);
    assert_eq!(heap.transfer_ownership(&h, 30), Ok(()));
    assert_eq!(heap.owner_of(&h), Ok(30));
    assert_eq!(heap.read_as(&h, BYTES).unwrap(), &vec![1, 2, 3, 4]);
}

#[test]
fn new_aligned_checks_alignment() {
    let mut heap = SharedHeap::new(4, 64);
    assert!(matches!(
        RRef::new_aligned(&mut heap, 1, BYTES, vec![9; 8], 12),
        Err(AlienError::InvalidLayout)
    ));
    let h = RRef::new_aligned(&mut heap, 1, BYTES, vec![9; 8], 64).unwrap();
    assert_eq!(heap.read(&h).unwrap(), &vec![9u8; 8]);
    assert!(matches!(
        RRef::new(&mut heap, 1, BYTES, vec![0; 65]),
        Err(AlienError::NoMemory)
    ));
}

#[test]
fn read_as_rejects_other_type_tag() {
    let mut heap = SharedHeap::new(4, 64);
    let h = RRef::new(&mut heap, 1, BYTES, vec![5]).unwrap();
    assert!(matches!(heap.read_as(&h, BYTES + 1), Err(AlienError::TypeMismatch)));
    assert_eq!(heap.read_as(&h, BYTES).unwrap(), &vec![5u8]);
}

#[test]
fn write_updates_payload_in_place() {
    let mut heap = SharedHeap::new(4, 64);
    let h = heap.allocate(1, 6, 1, BYTES).unwrap();
    assert_eq!(heap.write(&h, 2, &vec![7, 8, 9]), Ok(()));
    assert_eq!(heap.read(&h).unwrap(), &vec![0, 0, 7, 8, 9, 0]);
    assert_eq!(heap.write(&h, 4, &vec![1, 2, 3]), Err(AlienError::OutOfRange));
    assert_eq!(heap.write(&h, 7, &vec![]), Err(AlienError::OutOfRange));
    assert_eq!(heap.write(&h, 6, &vec![]), Ok(()));
    assert_eq!(heap.read(&h).unwrap(), &vec![0, 0, 7, 8, 9, 0]);
}

#[test]
fn release_waits_for_borrows_to_end() {
    let mut heap = SharedHeap::new(4, 64);
    let h = heap.allocate(1, 4, 1, BYTES).unwrap();
    assert_eq!(heap.unborrow(&h), Err(AlienError::OutOfRange));
    assert_eq!(heap.borrow(&h), Ok(()));
    assert_eq!(heap.borrow(&h), Ok(()));
    let h = match heap.release(h) {
        Err((AlienError::Borrowed, h)) => h,
        _ => panic!("a borrowed payload was released"),
    };
    assert_eq!(heap.unborrow(&h), Ok(()));
    assert_eq!(heap.unborrow(&h), Ok(()));
    assert_eq!(heap.free_capacity(), 3);
    assert!(heap.release(h).is_ok());
    assert_eq!(heap.free_capacity(), 4);
}

#[test]
fn reclaiming_a_domain_releases_only_its_payloads() {
    let mut heap = SharedHeap::new(4, 64);
    let a = RRef::new(&mut heap, 1, BYTES, vec![1]).unwrap();
    let b = RRef::new(&mut heap, 2, BYTES, vec![2]).unwrap();
    let c = RRef::new(&mut heap, 1, BYTES, vec![3]).unwrap();
    assert_eq!(heap.borrow(&c), Ok(()));
    heap.free_domain_shared_data(1);
    assert_eq!(heap.free_capacity(), 3);
    assert_eq!(heap.read(&a), Err(AlienError::StaleHandle));
    assert_eq!(heap.read(&c), Err(AlienError::StaleHandle));
    assert_eq!(heap.owner_of(&a), Err(AlienError::StaleHandle));
    assert_eq!(heap.read(&b).unwrap(), &vec![2u8]);
    match heap.release(a) {
        Err((AlienError::StaleHandle, _)) => {}
        _ => panic!("a stale handle was released"),
    }
    assert_eq!(heap.free_capacity(), 3);
}

#[test]
fn stale_handle_does_not_reach_a_reused_slot() {
    let mut heap = SharedHeap::new(1, 8);
    let a = RRef::new(&mut heap, 1, BYTES, vec![1]).unwrap();
    heap.free_domain_shared_data(1);
    let b = RRef::new(&mut heap, 2, BYTES, vec![2]).unwrap();
    assert_eq!(heap.read(&a), Err(AlienError::StaleHandle));
    assert_eq!(a.move_to(&mut heap, 5), Err(AlienError::StaleHandle));
    assert_eq!(heap.owner_of(&b), Ok(2));
    assert_eq!(heap.read(&b).unwrap(), &vec![2u8]);
}

#[test]
fn byte_sequence_keeps_its_length_and_bytes() {
    let mut heap = SharedHeap::new(2, 16);
    let v = RRefVec::new(&mut heap, 4, vec![1, 2, 3]).unwrap();
    assert_eq!(v.len(), 3);
    assert_eq!(heap.read_as(v.as_rref(), BYTE_SEQ_TAG).unwrap(), &vec![1, 2, 3]);
    assert_eq!(v.as_rref().move_to(&mut heap, 6), Ok(()));
    assert_eq!(heap.owner_of(v.as_rref()), Ok(6));
    assert!(matches!(RRefVec::new(&mut heap, 4, vec![0; 17]), Err(AlienError::NoMemory)));
    assert!(heap.release(v.into_rref()).is_ok());
    assert_eq!(heap.free_capacity(), 2);
}

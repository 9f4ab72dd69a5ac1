//! The shared heap: an arena of slots from which every domain allocates
//! ownership-tagged, type-stamped byte payloads, reached through single-owner
//! handles that cross domain boundaries without copying the payload.
use vstd::prelude::*;

use crate::error::AlienError;

verus! {

/// One slot of the arena.
struct Slot {
    used: bool,
    stamp: u64,
    owner: u64,
    borrows: u64,
    type_tag: u64,
    align: usize,
    data: Vec<u8>,
}

impl Slot {
    /// An unused slot.
    fn vacant() -> (r: Slot)
        ensures
            !r.used,
    {
        Slot { used: false, stamp: 0, owner: 0, borrows: 0, type_tag: 0, align: 1, data: Vec::new() }
    }
}

/// A handle to a payload in the shared heap. It cannot be duplicated: the
/// payload is released exactly once, by giving the handle back to the heap.
pub struct RRef {
    index: usize,
    stamp: u64,
}

impl RRef {
    /// The arena slot the handle points to.
    pub closed spec fn index(&self) -> int {
        self.index as int
    }

    /// The allocation stamp the slot must still carry for the handle to be live.
    pub closed spec fn stamp(&self) -> u64 {
        self.stamp
    }

    /// Moves `value` into the shared heap as a payload of domain `domain_id`
    /// stamped `type_tag`, with byte alignment. Fails as `SharedHeap::allocate`.
    pub fn new(heap: &mut SharedHeap, domain_id: u64, type_tag: u64, value: Vec<u8>) -> (r: Result<
        RRef,
        AlienError,
    >)
        requires
            old(heap).wf(),
        ensures
            final(heap).wf(),
            r.is_ok() == (value@.len() <= old(heap).slot_bytes() && old(heap).free_slots() > 0
                && old(heap).next_stamp() < u64::MAX),
            r.is_err() ==> r == Err::<RRef, AlienError>(AlienError::NoMemory) && *final(heap) == *old(heap),
            r matches Ok(h) ==> final(heap).allocated(*old(heap), h, domain_id, value@, 1, type_tag),
    {
        assert(1usize & 0usize == 0) by (bit_vector);
        heap.install(domain_id, value, 1, type_tag)
    }

    /// Moves `value` into the shared heap as `new` does, aligned to `align`.
    pub fn new_aligned(
        heap: &mut SharedHeap,
        domain_id: u64,
        type_tag: u64,
        value: Vec<u8>,
        align: usize,
    ) -> (r: Result<RRef, AlienError>)
        requires
            old(heap).wf(),
        ensures
            final(heap).wf(),
            r.is_ok() == (valid_align(align) && value@.len() <= old(heap).slot_bytes()
                && old(heap).free_slots() > 0 && old(heap).next_stamp() < u64::MAX),
            r.is_err() ==> *final(heap) == *old(heap),
            !valid_align(align) ==> r == Err::<RRef, AlienError>(AlienError::InvalidLayout),
            valid_align(align) && r.is_err() ==> r == Err::<RRef, AlienError>(AlienError::NoMemory),
            r matches Ok(h) ==> final(heap).allocated(*old(heap), h, domain_id, value@, align, type_tag),
    {
        heap.install(domain_id, value, align, type_tag)
    }

    /// Hands the payload over to domain `new_domain_id`, in place.
    pub fn move_to(&self, heap: &mut SharedHeap, new_domain_id: u64) -> (r: Result<(), AlienError>)
        requires
            old(heap).wf(),
        ensures
            final(heap).wf(),
            r.is_ok() == old(heap).live(*self),
            r.is_err() ==> r == Err::<(), AlienError>(AlienError::StaleHandle) && *final(heap) == *old(heap),
            r.is_ok() ==> final(heap).transferred(*old(heap), *self, new_domain_id),
    {
        heap.transfer_ownership(self, new_domain_id)
    }
}

/// Whether `a` is a power of two.
pub open spec fn valid_align(a: usize) -> bool {
    a > 0 && a & ((a - 1) as usize) == 0
}

/// Number of free slots in `s`.
spec fn free_in(s: Seq<Slot>) -> nat
    decreases s.len(),
{
    if s.len() == 0 {
        0
    } else {
        free_in(s.drop_last()) + if s.last().used {
            0nat
        } else {
            1nat
        }
    }
}

/// Replacing one slot swaps its share of the free count for the new one's.
proof fn lemma_free_in_update(s: Seq<Slot>, i: int, x: Slot)
    requires
        0 <= i < s.len(),
    ensures
        free_in(s.update(i, x)) + (if s[i].used { 0nat } else { 1nat }) == free_in(s) + (if x.used {
            0nat
        } else {
            1nat
        }),
    decreases s.len(),
{
    if i == s.len() - 1 {
        assert(s.update(i, x).drop_last() =~= s.drop_last());
    } else {
        lemma_free_in_update(s.drop_last(), i, x);
        assert(s.update(i, x).drop_last() =~= s.drop_last().update(i, x));
    }
}

/// Pushing a free slot adds one to the free count.
proof fn lemma_free_in_push(s: Seq<Slot>, x: Slot)
    requires
        !x.used,
    ensures
        free_in(s.push(x)) == free_in(s) + 1,
{
    assert(s.push(x).drop_last() =~= s);
}

/// Where every slot is used, none is free.
proof fn lemma_free_in_zero(s: Seq<Slot>)
    requires
        forall|i: int| 0 <= i < s.len() ==> (#[trigger] s[i]).used,
    ensures
        free_in(s) == 0,
    decreases s.len(),
{
    if s.len() > 0 {
        lemma_free_in_zero(s.drop_last());
    }
}

/// The process-wide shared heap.
pub struct SharedHeap {
    slots: Vec<Slot>,
    slot_bytes: usize,
    next_stamp: u64,
}

impl SharedHeap {
    /// Number of slots in the arena.
    pub closed spec fn capacity(&self) -> nat {
        self.slots@.len()
    }

    /// Largest payload one slot holds, in bytes.
    pub closed spec fn slot_bytes(&self) -> usize {
        self.slot_bytes
    }

    /// Stamp of the next allocation; every handle ever issued has a smaller one.
    pub closed spec fn next_stamp(&self) -> u64 {
        self.next_stamp
    }

    /// Number of slots free for allocation.
    pub closed spec fn free_slots(&self) -> nat {
        free_in(self.slots@)
    }

    /// Whether `h` still refers to an allocated payload.
    pub closed spec fn live(&self, h: RRef) -> bool {
        &&& 0 <= h.index < self.slots@.len()
        &&& self.slots@[h.index as int].used
        &&& self.slots@[h.index as int].stamp == h.stamp
    }

    /// The domain that owns the payload of `h`.
    pub closed spec fn owner(&self, h: RRef) -> u64 {
        self.slots@[h.index as int].owner
    }

    /// Number of direct accesses to the payload of `h` still counted.
    pub closed spec fn borrows(&self, h: RRef) -> u64 {
        self.slots@[h.index as int].borrows
    }

    /// The type tag the payload of `h` was allocated with.
    pub closed spec fn type_tag(&self, h: RRef) -> u64 {
        self.slots@[h.index as int].type_tag
    }

    /// The alignment the payload of `h` was allocated with.
    pub closed spec fn align(&self, h: RRef) -> usize {
        self.slots@[h.index as int].align
    }

    /// The payload bytes of `h`.
    pub closed spec fn payload(&self, h: RRef) -> Seq<u8> {
        self.slots@[h.index as int].data@
    }

    /// Every used slot carries a stamp below the next one.
    pub closed spec fn wf(&self) -> bool {
        forall|i: int|
            0 <= i < self.slots@.len() && (#[trigger] self.slots@[i]).used ==> self.slots@[i].stamp
                < self.next_stamp
    }

    /// `self` and `other` agree on all that can be observed through `h`.
    pub open spec fn agrees(&self, other: SharedHeap, h: RRef) -> bool {
        &&& self.live(h) == other.live(h)
        &&& self.live(h) ==> {
            &&& self.owner(h) == other.owner(h)
            &&& self.borrows(h) == other.borrows(h)
            &&& self.type_tag(h) == other.type_tag(h)
            &&& self.align(h) == other.align(h)
            &&& self.payload(h) == other.payload(h)
        }
    }

    /// `self` is `old` with only the slot of `h` possibly changed, and nothing
    /// else about the arena.
    pub open spec fn only_touches(&self, old: SharedHeap, h: RRef) -> bool {
        &&& self.capacity() == old.capacity()
        &&& self.slot_bytes() == old.slot_bytes()
        &&& forall|g: RRef| g.index() != h.index() ==> #[trigger] self.agrees(old, g)
    }

    /// `self` is `old` with the payload of `h` still live, now owned by `owner`,
    /// with `borrows` counted accesses and bytes `payload`; tag, alignment,
    /// free slots and stamps stay.
    pub open spec fn updated(
        &self,
        old: SharedHeap,
        h: RRef,
        owner: u64,
        borrows: u64,
        payload: Seq<u8>,
    ) -> bool {
        &&& self.only_touches(old, h)
        &&& old.live(h)
        &&& self.live(h)
        &&& self.owner(h) == owner
        &&& self.borrows(h) == borrows
        &&& self.type_tag(h) == old.type_tag(h)
        &&& self.align(h) == old.align(h)
        &&& self.payload(h) == payload
        &&& self.free_slots() == old.free_slots()
        &&& self.next_stamp() == old.next_stamp()
    }

    /// `self` is `old` after the payload of `h` went to domain `to`.
    pub open spec fn transferred(&self, old: SharedHeap, h: RRef, to: u64) -> bool {
        self.updated(old, h, to, old.borrows(h), old.payload(h))
    }

    /// `self` is `old` after a free slot took the payload `data` of domain
    /// `domain_id`, stamped `type_tag`, aligned to `align`, reached through `h`.
    pub open spec fn allocated(
        &self,
        old: SharedHeap,
        h: RRef,
        domain_id: u64,
        data: Seq<u8>,
        align: usize,
        type_tag: u64,
    ) -> bool {
        &&& self.only_touches(old, h)
        &&& forall|g: RRef| g.index() == h.index() ==> !#[trigger] old.live(g)
        &&& self.live(h)
        &&& h.stamp() == old.next_stamp()
        &&& self.next_stamp() == old.next_stamp() + 1
        &&& self.owner(h) == domain_id
        &&& self.borrows(h) == 0
        &&& self.type_tag(h) == type_tag
        &&& self.align(h) == align
        &&& self.payload(h) == data
        &&& self.free_slots() + 1 == old.free_slots()
    }

    /// `self` is `old` after the payload of `h` was torn down and its slot
    /// went back to the free pool.
    pub open spec fn released(&self, old: SharedHeap, h: RRef) -> bool {
        &&& self.only_touches(old, h)
        &&& forall|g: RRef| g.index() == h.index() ==> !#[trigger] self.live(g)
        &&& self.next_stamp() == old.next_stamp()
        &&& self.free_slots() == old.free_slots() + 1
    }

    /// An arena of `slots` free slots of `slot_bytes` bytes each.
    pub fn new(slots: usize, slot_bytes: usize) -> (r: Self)
        ensures
            r.wf(),
            r.capacity() == slots,
            r.slot_bytes() == slot_bytes,
            r.free_slots() == slots,
            r.next_stamp() == 0,
            forall|h: RRef| !r.live(h),
    {
        let mut v: Vec<Slot> = Vec::new();
        let mut i: usize = 0;
        while i < slots
            invariant
                i <= slots,
                v@.len() == i,
                free_in(v@) == i,
                forall|j: int| 0 <= j < v@.len() ==> !(#[trigger] v@[j]).used,
            decreases slots - i,
        {
            let s = Slot::vacant();
            proof {
                lemma_free_in_push(v@, s);
            }
            v.push(s);
            i = i + 1;
        }
        SharedHeap { slots: v, slot_bytes, next_stamp: 0 }
    }

    /// Number of slots free for allocation.
    pub fn free_capacity(&self) -> (r: usize)
        ensures
            r == self.free_slots(),
    {
        let mut count: usize = 0;
        let mut i: usize = 0;
        while i < self.slots.len()
            invariant
                i <= self.slots@.len(),
                count <= i,
                count == free_in(self.slots@.subrange(0, i as int)),
            decreases self.slots@.len() - i,
        {
            assert(self.slots@.subrange(0, i + 1).drop_last() =~= self.slots@.subrange(0, i as int));
            if !self.slots[i].used {
                count = count + 1;
            }
            i = i + 1;
        }
        assert(self.slots@.subrange(0, self.slots@.len() as int) =~= self.slots@);
        count
    }

    /// Index of the first free slot, if any.
    fn find_free(&self) -> (r: Option<usize>)
        ensures
            match r {
                Some(i) => i < self.slots@.len() && !self.slots@[i as int].used,
                None => self.free_slots() == 0,
            },
    {
        let mut i: usize = 0;
        while i < self.slots.len()
            invariant
                i <= self.slots@.len(),
                forall|j: int| 0 <= j < i ==> (#[trigger] self.slots@[j]).used,
            decreases self.slots@.len() - i,
        {
            if !self.slots[i].used {
                return Some(i);
            }
            i = i + 1;
        }
        proof {
            lemma_free_in_zero(self.slots@);
        }
        None
    }

    /// Places `data` in a free slot for domain `domain_id`.
    fn install(&mut self, domain_id: u64, data: Vec<u8>, align: usize, type_tag: u64) -> (r:
        Result<RRef, AlienError>)
        requires
            old(self).wf(),
        ensures
            final(self).wf(),
            r.is_ok() == (valid_align(align) && data@.len() <= old(self).slot_bytes()
                && old(self).free_slots() > 0 && old(self).next_stamp() < u64::MAX),
            r.is_err() ==> *final(self) == *old(self),
            !valid_align(align) ==> r == Err::<RRef, AlienError>(AlienError::InvalidLayout),
            valid_align(align) && r.is_err() ==> r == Err::<RRef, AlienError>(AlienError::NoMemory),
            r matches Ok(h) ==> final(self).allocated(*old(self), h, domain_id, data@, align, type_tag),
    {
        if !(align > 0 && align & (align - 1) == 0) {
            return Err(AlienError::InvalidLayout);
        }
        if data.len() > self.slot_bytes || self.next_stamp == u64::MAX {
            return Err(AlienError::NoMemory);
        }
        let found = self.find_free();
        match found {
            None => Err(AlienError::NoMemory),
            Some(i) => {
                let stamp = self.next_stamp;
                let ghost before = self.slots@;
                let slot = Slot { used: true, stamp, owner: domain_id, borrows: 0, type_tag, align, data };
                self.slots.set(i, slot);
                self.next_stamp = stamp + 1;
                let h = RRef { index: i, stamp };
                proof {
                    lemma_free_in_update(before, i as int, self.slots@[i as int]);
                    assert forall|g: RRef| g.index() != h.index() implies #[trigger] self.agrees(
                        *old(self),
                        g,
                    ) by {
                        if 0 <= g.index < self.slots@.len() {
                            assert(self.slots@[g.index as int] == before[g.index as int]);
                        }
                    }
                }
                Ok(h)
            },
        }
    }

    /// Reserves a zero-filled payload of `size` bytes with alignment `align`,
    /// stamped with `type_tag` and owned by domain `domain_id`.
    /// Fails with `InvalidLayout` on a bad alignment, and with `NoMemory` where
    /// the payload exceeds a slot, no slot is free, or the stamps are used up.
    pub fn allocate(&mut self, domain_id: u64, size: usize, align: usize, type_tag: u64) -> (r:
        Result<RRef, AlienError>)
        requires
            old(self).wf(),
        ensures
            final(self).wf(),
            r.is_ok() == (valid_align(align) && size <= old(self).slot_bytes()
                && old(self).free_slots() > 0 && old(self).next_stamp() < u64::MAX),
            r.is_err() ==> *final(self) == *old(self),
            !valid_align(align) ==> r == Err::<RRef, AlienError>(AlienError::InvalidLayout),
            valid_align(align) && r.is_err() ==> r == Err::<RRef, AlienError>(AlienError::NoMemory),
            r matches Ok(h) ==> final(self).allocated(
                *old(self),
                h,
                domain_id,
                Seq::new(size as nat, |_i: int| 0u8),
                align,
                type_tag,
            ),
    {
        if size > self.slot_bytes {
            if !(align > 0 && align & (align - 1) == 0) {
                return Err(AlienError::InvalidLayout);
            }
            return Err(AlienError::NoMemory);
        }
        let mut data: Vec<u8> = Vec::new();
        let mut i: usize = 0;
        while i < size
            invariant
                i <= size,
                data@ == Seq::new(i as nat, |_i: int| 0u8),
            decreases size - i,
        {
            data.push(0u8);
            i = i + 1;
            assert(data@ =~= Seq::new(i as nat, |_i: int| 0u8));
        }
        self.install(domain_id, data, align, type_tag)
    }

    /// Gives the slot of `h` back to the free pool after tearing its payload
    /// down. Fails, handing `h` back, with `StaleHandle` where `h` is not live
    /// and with `Borrowed` while accesses to it are still counted.
    pub fn release(&mut self, h: RRef) -> (r: Result<(), (AlienError, RRef)>)
        requires
            old(self).wf(),
        ensures
            final(self).wf(),
            r.is_ok() == (old(self).live(h) && old(self).borrows(h) == 0),
            r matches Err((e, g)) ==> {
                &&& g == h
                &&& *final(self) == *old(self)
                &&& e == (if old(self).live(h) {
                    AlienError::Borrowed
                } else {
                    AlienError::StaleHandle
                })
            },
            r.is_ok() ==> final(self).released(*old(self), h),
    {
        if !(h.index < self.slots.len() && self.slots[h.index].used
            && self.slots[h.index].stamp == h.stamp) {
            return Err((AlienError::StaleHandle, h));
        }
        if self.slots[h.index].borrows != 0 {
            return Err((AlienError::Borrowed, h));
        }
        self.vacate(h.index);
        Ok(())
    }

    /// Tears down the payload of slot `i` and frees the slot.
    fn vacate(&mut self, i: usize)
        requires
            old(self).wf(),
            i < old(self).slots@.len(),
            old(self).slots@[i as int].used,
        ensures
            final(self).wf(),
            final(self).slots@ == old(self).slots@.update(i as int, final(self).slots@[i as int]),
            !final(self).slots@[i as int].used,
            final(self).slot_bytes == old(self).slot_bytes,
            final(self).next_stamp == old(self).next_stamp,
            final(self).free_slots() == old(self).free_slots() + 1,
    {
        let ghost before = self.slots@;
        self.slots.set(i, Slot::vacant());
        proof {
            lemma_free_in_update(before, i as int, self.slots@[i as int]);
        }
    }

    /// Locates the slot of `h`, failing with `StaleHandle` where it is not live.
    fn locate(&self, h: &RRef) -> (r: Result<usize, AlienError>)
        ensures
            r.is_ok() == self.live(*h),
            r.is_err() ==> r == Err::<usize, AlienError>(AlienError::StaleHandle),
            r matches Ok(i) ==> i == h.index(),
    {
        if h.index < self.slots.len() && self.slots[h.index].used && self.slots[h.index].stamp
            == h.stamp {
            Ok(h.index)
        } else {
            Err(AlienError::StaleHandle)
        }
    }

    /// Rewrites the owning domain of `h` in place; payload and borrow count
    /// stay as they are.
    pub fn transfer_ownership(&mut self, h: &RRef, new_domain_id: u64) -> (r: Result<
        (),
        AlienError,
    >)
        requires
            old(self).wf(),
        ensures
            final(self).wf(),
            r.is_ok() == old(self).live(*h),
            r.is_err() ==> r == Err::<(), AlienError>(AlienError::StaleHandle) && *final(self) == *old(self),
            r.is_ok() ==> final(self).transferred(*old(self), *h, new_domain_id),
    {
        let i = self.locate(h)?;
        let ghost before = self.slots@;
        self.slots[i].owner = new_domain_id;
        proof {
            lemma_free_in_update(before, i as int, self.slots@[i as int]);
            assert(self.slots@ =~= before.update(i as int, self.slots@[i as int]));
            assert forall|g: RRef| g.index() != h.index() implies #[trigger] self.agrees(
                *old(self),
                g,
            ) by {
                if 0 <= g.index < self.slots@.len() {
                    assert(self.slots@[g.index as int] == before[g.index as int]);
                }
            }
        }
        Ok(())
    }

    /// The domain that owns the payload of `h`.
    pub fn owner_of(&self, h: &RRef) -> (r: Result<u64, AlienError>)
        ensures
            r.is_ok() == self.live(*h),
            r.is_err() ==> r == Err::<u64, AlienError>(AlienError::StaleHandle),
            r matches Ok(d) ==> d == self.owner(*h),
    {
        let i = self.locate(h)?;
        Ok(self.slots[i].owner)
    }

    /// The payload of `h`, read in place.
    pub fn read(&self, h: &RRef) -> (r: Result<&Vec<u8>, AlienError>)
        ensures
            r.is_ok() == self.live(*h),
            r.is_err() ==> r == Err::<&Vec<u8>, AlienError>(AlienError::StaleHandle),
            r matches Ok(d) ==> d@ == self.payload(*h),
    {
        let i = self.locate(h)?;
        Ok(&self.slots[i].data)
    }

    /// The payload of `h`, read in place as a value of type `type_tag`; fails
    /// with `TypeMismatch` where the payload was stamped with another tag.
    pub fn read_as(&self, h: &RRef, type_tag: u64) -> (r: Result<&Vec<u8>, AlienError>)
        ensures
            r.is_ok() == (self.live(*h) && self.type_tag(*h) == type_tag),
            !self.live(*h) ==> r == Err::<&Vec<u8>, AlienError>(AlienError::StaleHandle),
            self.live(*h) && self.type_tag(*h) != type_tag ==> r == Err::<&Vec<u8>, AlienError>(
                AlienError::TypeMismatch,
            ),
            r matches Ok(d) ==> d@ == self.payload(*h),
    {
        let i = self.locate(h)?;
        if self.slots[i].type_tag != type_tag {
            return Err(AlienError::TypeMismatch);
        }
        Ok(&self.slots[i].data)
    }

    /// Counts one more direct access to the payload of `h`. Fails with
    /// `StaleHandle` where `h` is not live and with `OutOfRange` where the
    /// count is at its maximum.
    pub fn borrow(&mut self, h: &RRef) -> (r: Result<(), AlienError>)
        requires
            old(self).wf(),
        ensures
            final(self).wf(),
            r.is_ok() == (old(self).live(*h) && old(self).borrows(*h) < u64::MAX),
            !old(self).live(*h) ==> r == Err::<(), AlienError>(AlienError::StaleHandle),
            old(self).live(*h) && r.is_err() ==> r == Err::<(), AlienError>(AlienError::OutOfRange),
            r.is_err() ==> *final(self) == *old(self),
            r.is_ok() ==> final(self).updated(
                *old(self),
                *h,
                old(self).owner(*h),
                (old(self).borrows(*h) + 1) as u64,
                old(self).payload(*h),
            ),
    {
        let i = self.locate(h)?;
        if self.slots[i].borrows == u64::MAX {
            return Err(AlienError::OutOfRange);
        }
        self.slots[i].borrows = self.slots[i].borrows + 1;
        proof {
            self.lemma_slot_rewritten(*old(self), i as int);
        }
        Ok(())
    }

    /// Ends one counted access to the payload of `h`. Fails with `StaleHandle`
    /// where `h` is not live and with `OutOfRange` where none is counted.
    pub fn unborrow(&mut self, h: &RRef) -> (r: Result<(), AlienError>)
        requires
            old(self).wf(),
        ensures
            final(self).wf(),
            r.is_ok() == (old(self).live(*h) && old(self).borrows(*h) > 0),
            !old(self).live(*h) ==> r == Err::<(), AlienError>(AlienError::StaleHandle),
            old(self).live(*h) && r.is_err() ==> r == Err::<(), AlienError>(AlienError::OutOfRange),
            r.is_err() ==> *final(self) == *old(self),
            r.is_ok() ==> final(self).updated(
                *old(self),
                *h,
                old(self).owner(*h),
                (old(self).borrows(*h) - 1) as u64,
                old(self).payload(*h),
            ),
    {
        let i = self.locate(h)?;
        if self.slots[i].borrows == 0 {
            return Err(AlienError::OutOfRange);
        }
        self.slots[i].borrows = self.slots[i].borrows - 1;
        proof {
            self.lemma_slot_rewritten(*old(self), i as int);
        }
        Ok(())
    }

    /// Writes `bytes` into the payload of `h` from byte `offset` on, in place.
    /// Fails with `StaleHandle` where `h` is not live and with `OutOfRange`
    /// where the bytes do not fit in the payload.
    pub fn write(&mut self, h: &RRef, offset: usize, bytes: &Vec<u8>) -> (r: Result<(), AlienError>)
        requires
            old(self).wf(),
        ensures
            final(self).wf(),
            r.is_ok() == (old(self).live(*h) && offset + bytes@.len() <= old(self).payload(
                *h,
            ).len()),
            !old(self).live(*h) ==> r == Err::<(), AlienError>(AlienError::StaleHandle),
            old(self).live(*h) && r.is_err() ==> r == Err::<(), AlienError>(AlienError::OutOfRange),
            r.is_err() ==> *final(self) == *old(self),
            r.is_ok() ==> final(self).updated(
                *old(self),
                *h,
                old(self).owner(*h),
                old(self).borrows(*h),
                old(self).payload(*h).subrange(0, offset as int) + bytes@ + old(self).payload(
                    *h,
                ).subrange(offset + bytes@.len(), old(self).payload(*h).len() as int),
            ),
    {
        let i = self.locate(h)?;
        let n = bytes.len();
        if offset > self.slots[i].data.len() || n > self.slots[i].data.len() - offset {
            return Err(AlienError::OutOfRange);
        }
        let ghost p = self.slots@[i as int].data@;
        let mut data: Vec<u8> = Vec::new();
        std::mem::swap(&mut data, &mut self.slots[i].data);
        let mut k: usize = 0;
        while k < n
            invariant
                k <= n,
                n == bytes@.len(),
                offset + n <= p.len(),
                p.len() <= usize::MAX,
                data@.len() == p.len(),
                data@ == p.subrange(0, offset as int) + bytes@.subrange(0, k as int) + p.subrange(
                    offset + k,
                    p.len() as int,
                ),
            decreases n - k,
        {
            data.set(offset + k, bytes[k]);
            k = k + 1;
            assert(data@ =~= p.subrange(0, offset as int) + bytes@.subrange(0, k as int)
                + p.subrange(offset + k, p.len() as int));
        }
        assert(bytes@.subrange(0, n as int) =~= bytes@);
        std::mem::swap(&mut data, &mut self.slots[i].data);
        proof {
            self.lemma_slot_rewritten(*old(self), i as int);
        }
        Ok(())
    }

    /// After rewriting fields of the used slot `i` but its use and stamp,
    /// every other slot agrees with `old`, and the free count and stamps stay.
    proof fn lemma_slot_rewritten(&self, old: SharedHeap, i: int)
        requires
            old.wf(),
            0 <= i < old.slots@.len(),
            old.slots@[i].used,
            self.slots@.len() == old.slots@.len(),
            self.slots@[i].used,
            self.slots@[i].stamp == old.slots@[i].stamp,
            forall|j: int| 0 <= j < self.slots@.len() && j != i ==> self.slots@[j] == old.slots@[j],
            self.slot_bytes == old.slot_bytes,
            self.next_stamp == old.next_stamp,
        ensures
            self.wf(),
            self.free_slots() == old.free_slots(),
            forall|g: RRef| g.index() != i ==> #[trigger] self.agrees(old, g),
    {
        assert(self.slots@ =~= old.slots@.update(i, self.slots@[i]));
        lemma_free_in_update(old.slots@, i, self.slots@[i]);
        assert forall|g: RRef| g.index() != i implies #[trigger] self.agrees(old, g) by {
            if 0 <= g.index < self.slots@.len() {
                assert(self.slots@[g.index as int] == old.slots@[g.index as int]);
            }
        }
        assert forall|j: int| 0 <= j < self.slots@.len() && (#[trigger] self.slots@[j]).used implies self.slots@[j].stamp
            < self.next_stamp by {
            assert(old.slots@[j].used);
        }
    }

    /// Releases every payload owned by domain `domain_id`, whatever its borrow
    /// count: the reclamation of a domain that is gone.
    pub fn free_domain_shared_data(&mut self, domain_id: u64)
        requires
            old(self).wf(),
        ensures
            final(self).wf(),
            final(self).capacity() == old(self).capacity(),
            final(self).slot_bytes() == old(self).slot_bytes(),
            final(self).next_stamp() == old(self).next_stamp(),
            final(self).free_slots() >= old(self).free_slots(),
            forall|g: RRef|
                #![trigger final(self).live(g)]
                #![trigger final(self).agrees(*old(self), g)]
                if old(self).live(g) && old(self).owner(g) == domain_id {
                    !final(self).live(g)
                } else {
                    final(self).agrees(*old(self), g)
                },
    {
        let ghost before = self.slots@;
        let mut i: usize = 0;
        while i < self.slots.len()
            invariant
                i <= self.slots@.len(),
                self.slots@.len() == before.len(),
                self.slot_bytes == old(self).slot_bytes,
                self.next_stamp == old(self).next_stamp,
                before == old(self).slots@,
                self.wf(),
                free_in(self.slots@) >= free_in(before),
                forall|j: int|
                    0 <= j < i ==> if (#[trigger] before[j]).used && before[j].owner == domain_id {
                        !self.slots@[j].used
                    } else {
                        self.slots@[j] == before[j]
                    },
                forall|j: int| i <= j < self.slots@.len() ==> #[trigger] self.slots@[j] == before[j],
            decreases self.slots@.len() - i,
        {
            if self.slots[i].used && self.slots[i].owner == domain_id {
                self.vacate(i);
            }
            i = i + 1;
        }
        proof {
            assert forall|g: RRef|
                #![trigger self.live(g)]
                #![trigger self.agrees(*old(self), g)]
                if old(self).live(g) && old(self).owner(g) == domain_id {
                    !self.live(g)
                } else {
                    self.agrees(*old(self), g)
                } by {
                if 0 <= g.index < self.slots@.len() {
                    assert(before[g.index as int] == old(self).slots@[g.index as int]);
                }
            }
        }
    }
}

/// The type tag of byte sequences.
pub const BYTE_SEQ_TAG: u64 = 0x6279_7465_7365_7100;

/// A handle to a variable-length byte sequence in the shared heap: a handle
/// together with the length of the sequence.
pub struct RRefVec {
    handle: RRef,
    len: usize,
}

impl RRefVec {
    /// The handle of the sequence.
    pub closed spec fn handle(&self) -> RRef {
        self.handle
    }

    /// The length of the sequence.
    pub closed spec fn spec_len(&self) -> usize {
        self.len
    }

    /// Moves `data` into the shared heap as a byte sequence of domain
    /// `domain_id`. Fails as `RRef::new`.
    pub fn new(heap: &mut SharedHeap, domain_id: u64, data: Vec<u8>) -> (r: Result<
        RRefVec,
        AlienError,
    >)
        requires
            old(heap).wf(),
        ensures
            final(heap).wf(),
            r.is_ok() == (data@.len() <= old(heap).slot_bytes() && old(heap).free_slots() > 0
                && old(heap).next_stamp() < u64::MAX),
            r.is_err() ==> r == Err::<RRefVec, AlienError>(AlienError::NoMemory) && *final(heap)
                == *old(heap),
            r matches Ok(v) ==> {
                &&& v.spec_len() == data@.len()
                &&& final(heap).allocated(*old(heap), v.handle(), domain_id, data@, 1, BYTE_SEQ_TAG)
            },
    {
        let len = data.len();
        let handle = RRef::new(heap, domain_id, BYTE_SEQ_TAG, data)?;
        Ok(RRefVec { handle, len })
    }

    /// The length of the sequence.
    pub fn len(&self) -> (r: usize)
        ensures
            r == self.spec_len(),
    {
        self.len
    }

    /// The handle of the sequence, to read, write or hand over its bytes.
    pub fn as_rref(&self) -> (r: &RRef)
        ensures
            *r == self.handle(),
    {
        &self.handle
    }

    /// The handle of the sequence, to release it.
    pub fn into_rref(self) -> (r: RRef)
        ensures
            r == self.handle(),
    {
        self.handle
    }
}

/// Allocating a payload and releasing it at once leaves the shared heap's free
/// capacity as it was, and every handle reads as it did before.
pub proof fn lemma_allocate_release_round_trip(
    h0: SharedHeap,
    h1: SharedHeap,
    h2: SharedHeap,
    h: RRef,
    domain_id: u64,
    data: Seq<u8>,
    align: usize,
    type_tag: u64,
)
    requires
        h1.allocated(h0, h, domain_id, data, align, type_tag),
        h2.released(h1, h),
    ensures
        h2.free_slots() == h0.free_slots(),
        h2.capacity() == h0.capacity(),
        forall|g: RRef| #[trigger] h2.agrees(h0, g),
{
    assert forall|g: RRef| #[trigger] h2.agrees(h0, g) by {
        if g.index() != h.index() {
            assert(h2.agrees(h1, g));
            assert(h1.agrees(h0, g));
        } else {
            assert(!h0.live(g));
            assert(!h2.live(g));
        }
    }
}

/// A payload allocated by one domain and handed to another stays live with
/// the same bytes and type tag, and its owner is the new domain.
pub proof fn lemma_transfer_keeps_payload(
    h0: SharedHeap,
    h1: SharedHeap,
    h2: SharedHeap,
    h: RRef,
    from: u64,
    to: u64,
    data: Seq<u8>,
    align: usize,
    type_tag: u64,
)
    requires
        h1.allocated(h0, h, from, data, align, type_tag),
        h2.transferred(h1, h, to),
    ensures
        h2.live(h),
        h2.payload(h) == data,
        h2.type_tag(h) == type_tag,
        h2.owner(h) == to,
{
}

} // verus!

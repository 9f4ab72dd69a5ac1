//! The resource ledger: for each domain, the page ranges it was given and its
//! heap-boxed auxiliary state, reclaimed as one unit when the domain goes.
use std::collections::BTreeMap;

use vstd::prelude::*;

use crate::frame::{lemma_pages_in_concat, lemma_pages_in_push, pages_in, range_fits, FrameAllocator};
use crate::heap::{RRef, SharedHeap};

verus! {

broadcast use {vstd::std_specs::btree::group_btree_axioms, vstd::laws_cmp::group_laws_cmp};

/// Whether a ledger entry is kept by a release of the pages starting at `page`.
pub open spec fn keeps(page: usize) -> spec_fn((usize, usize)) -> bool {
    |r: (usize, usize)| r.0 != page
}

/// Per-domain record of raw memory resources.
pub struct DomainResource {
    page_map: BTreeMap<u64, Vec<(usize, usize)>>,
    box_data: BTreeMap<u64, usize>,
}

impl DomainResource {
    /// Whether domain `id` has a page entry, possibly empty.
    pub closed spec fn has_pages(&self, id: u64) -> bool {
        self.page_map@.contains_key(id)
    }

    /// The page ranges recorded for domain `id`, as `(first page, page count)`.
    pub closed spec fn pages(&self, id: u64) -> Seq<(usize, usize)> {
        if self.page_map@.contains_key(id) {
            self.page_map@[id]@
        } else {
            Seq::empty()
        }
    }

    /// The heap-boxed state recorded for domain `id`.
    pub closed spec fn heap_state(&self, id: u64) -> Option<usize> {
        if self.box_data@.contains_key(id) {
            Some(self.box_data@[id])
        } else {
            None
        }
    }

    /// Every recorded range ends within the page numbers.
    pub open spec fn wf(&self) -> bool {
        forall|id: u64, i: int|
            0 <= i < self.pages(id).len() ==> range_fits(#[trigger] self.pages(id)[i])
    }

    /// `self` and `old` record the same for every domain but `id`.
    pub open spec fn same_except(&self, old: DomainResource, id: u64) -> bool {
        forall|d: u64|
            d != id ==> {
                &&& #[trigger] self.has_pages(d) == old.has_pages(d)
                &&& self.pages(d) == old.pages(d)
                &&& self.heap_state(d) == old.heap_state(d)
            }
    }

    /// `self` and `old` record the same page ranges for every domain.
    pub open spec fn same_pages(&self, old: DomainResource) -> bool {
        forall|d: u64|
            #![trigger self.has_pages(d)]
            #![trigger self.pages(d)]
            self.has_pages(d) == old.has_pages(d) && self.pages(d) == old.pages(d)
    }

    /// An empty ledger.
    pub fn new() -> (r: Self)
        ensures
            r.wf(),
            forall|id: u64|
                !r.has_pages(id) && r.pages(id) == Seq::<(usize, usize)>::empty() && r.heap_state(
                    id,
                ).is_none(),
    {
        DomainResource { page_map: BTreeMap::new(), box_data: BTreeMap::new() }
    }

    /// The page ranges recorded for domain `domain_id`, if it has an entry.
    pub fn page_entry(&self, domain_id: u64) -> (r: Option<&Vec<(usize, usize)>>)
        ensures
            r.is_some() == self.has_pages(domain_id),
            r matches Some(v) ==> v@ == self.pages(domain_id),
    {
        self.page_map.get(&domain_id)
    }

    /// The heap-boxed state recorded for domain `domain_id`.
    pub fn heap_state_entry(&self, domain_id: u64) -> (r: Option<usize>)
        ensures
            r == self.heap_state(domain_id),
    {
        match self.box_data.get(&domain_id) {
            Some(p) => Some(*p),
            None => None,
        }
    }

    /// Appends the page range `page` to the entry of domain `domain_id`.
    pub fn insert_page_map(&mut self, domain_id: u64, page: (usize, usize))
        requires
            old(self).wf(),
            range_fits(page),
        ensures
            final(self).wf(),
            final(self).has_pages(domain_id),
            final(self).pages(domain_id) == old(self).pages(domain_id).push(page),
            final(self).heap_state(domain_id) == old(self).heap_state(domain_id),
            final(self).same_except(*old(self), domain_id),
    {
        let mut v = match self.page_map.remove(&domain_id) {
            Some(v) => v,
            None => Vec::new(),
        };
        assert(v@ == old(self).pages(domain_id));
        v.push(page);
        self.page_map.insert(domain_id, v);
        proof {
            assert forall|id: u64, i: int|
                0 <= i < self.pages(id).len() implies range_fits(#[trigger] self.pages(id)[i]) by {
                if id != domain_id || i < old(self).pages(domain_id).len() {
                    assert(range_fits(old(self).pages(id)[i]));
                }
            }
        }
    }

    /// Drops from the entry of domain `domain_id` every range that starts at
    /// page `page`. The entry must exist.
    pub fn free_page_map(&mut self, domain_id: u64, page: usize)
        requires
            old(self).wf(),
            old(self).has_pages(domain_id),
        ensures
            final(self).wf(),
            final(self).has_pages(domain_id),
            final(self).pages(domain_id) == old(self).pages(domain_id).filter(keeps(page)),
            final(self).heap_state(domain_id) == old(self).heap_state(domain_id),
            final(self).same_except(*old(self), domain_id),
    {
        let v = match self.page_map.remove(&domain_id) {
            Some(v) => v,
            None => Vec::new(),
        };
        let ghost s = v@;
        assert forall|j: int| 0 <= j < s.len() implies range_fits(#[trigger] s[j]) by {
            assert(range_fits(old(self).pages(domain_id)[j]));
        }
        let mut kept: Vec<(usize, usize)> = Vec::new();
        let mut k: usize = 0;
        while k < v.len()
            invariant
                k <= v@.len(),
                v@ == s,
                kept@ == s.subrange(0, k as int).filter(keeps(page)),
                forall|j: int| 0 <= j < s.len() ==> range_fits(#[trigger] s[j]),
                forall|j: int| 0 <= j < kept@.len() ==> range_fits(#[trigger] kept@[j]),
            decreases v@.len() - k,
        {
            let r = v[k];
            proof {
                reveal(Seq::filter);
                assert(s.subrange(0, k + 1).drop_last() =~= s.subrange(0, k as int));
            }
            if r.0 != page {
                kept.push(r);
            }
            k = k + 1;
        }
        assert(s.subrange(0, s.len() as int) =~= s);
        self.page_map.insert(domain_id, kept);
        proof {
            assert forall|id: u64, i: int|
                0 <= i < self.pages(id).len() implies range_fits(#[trigger] self.pages(id)[i]) by {
                if id != domain_id {
                    assert(range_fits(old(self).pages(id)[i]));
                }
            }
        }
    }

    /// Records `data` as the heap-boxed state of domain `domain_id`, in place
    /// of any earlier one.
    pub fn insert_box_data(&mut self, domain_id: u64, data: usize)
        requires
            old(self).wf(),
        ensures
            final(self).wf(),
            final(self).heap_state(domain_id) == Some(data),
            final(self).same_pages(*old(self)),
            final(self).same_except(*old(self), domain_id),
    {
        self.box_data.insert(domain_id, data);
        proof {
            assert forall|id: u64, i: int|
                0 <= i < self.pages(id).len() implies range_fits(#[trigger] self.pages(id)[i]) by {
                assert(range_fits(old(self).pages(id)[i]));
            }
        }
    }

    /// Removes every entry of domain `domain_id` and returns its page ranges
    /// and its heap-boxed state.
    pub fn remove_domain(&mut self, domain_id: u64) -> (r: (Vec<(usize, usize)>, Option<usize>))
        requires
            old(self).wf(),
        ensures
            final(self).wf(),
            r.0@ == old(self).pages(domain_id),
            r.1 == old(self).heap_state(domain_id),
            !final(self).has_pages(domain_id),
            final(self).pages(domain_id) == Seq::<(usize, usize)>::empty(),
            final(self).heap_state(domain_id).is_none(),
            final(self).same_except(*old(self), domain_id),
    {
        let pages = match self.page_map.remove(&domain_id) {
            Some(v) => v,
            None => Vec::new(),
        };
        let state = self.box_data.remove(&domain_id);
        proof {
            assert forall|id: u64, i: int|
                0 <= i < self.pages(id).len() implies range_fits(#[trigger] self.pages(id)[i]) by {
                assert(range_fits(old(self).pages(id)[i]));
            }
        }
        (pages, state)
    }
}

/// Records `box_ptr` as the heap-boxed state of domain `domain_id`.
pub fn register_domain_resource(ledger: &mut DomainResource, domain_id: u64, box_ptr: usize)
    requires
        old(ledger).wf(),
    ensures
        final(ledger).wf(),
        final(ledger).heap_state(domain_id) == Some(box_ptr),
        final(ledger).same_pages(*old(ledger)),
        final(ledger).same_except(*old(ledger), domain_id),
{
    ledger.insert_box_data(domain_id, box_ptr);
}

/// Tears domain `domain_id` down: releases every shared-heap payload it owns,
/// removes its ledger entries, hands each of its page ranges back to the page
/// allocator once, and returns its heap-boxed state, now detached, for teardown.
pub fn free_domain_resource(
    domain_id: u64,
    ledger: &mut DomainResource,
    frames: &mut FrameAllocator,
    heap: &mut SharedHeap,
) -> (r: Option<usize>)
    requires
        old(ledger).wf(),
        old(frames).wf(),
        old(heap).wf(),
    ensures
        final(ledger).wf(),
        final(frames).wf(),
        final(heap).wf(),
        r == old(ledger).heap_state(domain_id),
        !final(ledger).has_pages(domain_id),
        final(ledger).pages(domain_id) == Seq::<(usize, usize)>::empty(),
        final(ledger).heap_state(domain_id).is_none(),
        final(ledger).same_except(*old(ledger), domain_id),
        final(frames).ranges() == old(frames).ranges() + old(ledger).pages(domain_id),
        final(frames).free_count() == old(frames).free_count() + pages_in(
            old(ledger).pages(domain_id),
        ),
        final(heap).capacity() == old(heap).capacity(),
        final(heap).slot_bytes() == old(heap).slot_bytes(),
        final(heap).next_stamp() == old(heap).next_stamp(),
        final(heap).free_slots() >= old(heap).free_slots(),
        forall|g: RRef|
            #![trigger final(heap).live(g)]
            #![trigger final(heap).agrees(*old(heap), g)]
            if old(heap).live(g) && old(heap).owner(g) == domain_id {
                !final(heap).live(g)
            } else {
                final(heap).agrees(*old(heap), g)
            },
{
    heap.free_domain_shared_data(domain_id);
    let (pages, state) = ledger.remove_domain(domain_id);
    let ghost base = frames.ranges();
    let mut k: usize = 0;
    while k < pages.len()
        invariant
            k <= pages@.len(),
            pages@ == old(ledger).pages(domain_id),
            old(ledger).wf(),
            frames.wf(),
            frames.ranges() == base + pages@.subrange(0, k as int),
            frames.free_count() == pages_in(base) + pages_in(pages@.subrange(0, k as int)),
        decreases pages@.len() - k,
    {
        let (start, n) = pages[k];
        assert(range_fits(old(ledger).pages(domain_id)[k as int]));
        proof {
            lemma_pages_in_push(pages@.subrange(0, k as int), (start, n));
            assert(pages@.subrange(0, k + 1) =~= pages@.subrange(0, k as int).push((start, n)));
        }
        frames.free_frames(start, n);
        assert(frames.ranges() =~= base + pages@.subrange(0, k + 1));
        k = k + 1;
    }
    proof {
        assert(pages@.subrange(0, pages@.len() as int) =~= pages@);
        lemma_pages_in_concat(base, pages@);
    }
    state
}

/// The memory a domain can hold: its ledger, the page allocator, the shared
/// heap, and the heap-boxed states detached from torn-down domains, in the
/// order they were detached, awaiting their teardown.
pub struct KernelMemory {
    pub ledger: DomainResource,
    pub frames: FrameAllocator,
    pub heap: SharedHeap,
    pub detached: Vec<usize>,
}

impl KernelMemory {
    pub open spec fn wf(&self) -> bool {
        &&& self.ledger.wf()
        &&& self.frames.wf()
        &&& self.heap.wf()
    }

    /// `self` is `old` after domain `id` was torn down: its ledger entries are
    /// gone, each of its page ranges went back to the page allocator once, its
    /// shared-heap payloads are released, and its heap-boxed state, if any,
    /// was detached once.
    pub open spec fn reclaimed(&self, old: KernelMemory, id: u64) -> bool {
        &&& self.wf()
        &&& !self.ledger.has_pages(id)
        &&& self.ledger.pages(id) == Seq::<(usize, usize)>::empty()
        &&& self.ledger.heap_state(id).is_none()
        &&& self.ledger.same_except(old.ledger, id)
        &&& self.frames.ranges() == old.frames.ranges() + old.ledger.pages(id)
        &&& self.frames.free_count() == old.frames.free_count() + pages_in(old.ledger.pages(id))
        &&& self.detached@ == match old.ledger.heap_state(id) {
            Some(p) => old.detached@.push(p),
            None => old.detached@,
        }
        &&& self.heap.capacity() == old.heap.capacity()
        &&& self.heap.slot_bytes() == old.heap.slot_bytes()
        &&& self.heap.next_stamp() == old.heap.next_stamp()
        &&& self.heap.free_slots() >= old.heap.free_slots()
        &&& forall|g: RRef|
            #![trigger self.heap.live(g)]
            #![trigger self.heap.agrees(old.heap, g)]
            if old.heap.live(g) && old.heap.owner(g) == id {
                !self.heap.live(g)
            } else {
                self.heap.agrees(old.heap, g)
            }
    }

    /// Tears domain `domain_id` down through `free_domain_resource`.
    pub fn reclaim(&mut self, domain_id: u64)
        requires
            old(self).wf(),
        ensures
            final(self).reclaimed(*old(self), domain_id),
    {
        let state = free_domain_resource(domain_id, &mut self.ledger, &mut self.frames, &mut self.heap);
        match state {
            Some(p) => self.detached.push(p),
            None => {},
        }
    }
}

/// Tearing the same domain down twice frees its resources once: the second
/// teardown returns no page and detaches no state.
pub proof fn lemma_teardown_frees_once(m0: KernelMemory, m1: KernelMemory, m2: KernelMemory, id: u64)
    requires
        m1.reclaimed(m0, id),
        m2.reclaimed(m1, id),
    ensures
        m2.frames.free_count() == m1.frames.free_count(),
        m2.frames.free_count() == m0.frames.free_count() + pages_in(m0.ledger.pages(id)),
        m2.detached@ == m1.detached@,
        m2.frames.ranges() == m0.frames.ranges() + m0.ledger.pages(id),
{
    assert(m1.ledger.pages(id) =~= Seq::<(usize, usize)>::empty());
    assert(pages_in(m1.ledger.pages(id)) == 0);
    assert(m1.frames.ranges() + m1.ledger.pages(id) =~= m1.frames.ranges());
}

} // verus!
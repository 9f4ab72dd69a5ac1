//! Physical page allocator: a first-fit allocator over free page ranges.
use vstd::prelude::*;

verus! {

/// log2 of the page size.
pub const FRAME_BITS: usize = 12;

/// Size of one page in bytes.
pub const FRAME_SIZE: usize = 4096;

/// Number of pages held by a sequence of `(first page, page count)` ranges.
pub open spec fn pages_in(s: Seq<(usize, usize)>) -> nat
    decreases s.len(),
{
    if s.len() == 0 {
        0
    } else {
        pages_in(s.drop_last()) + s.last().1 as nat
    }
}

/// A range whose last page number still fits in a `usize`.
pub open spec fn range_fits(r: (usize, usize)) -> bool {
    r.0 + r.1 <= usize::MAX
}

/// Whether the range at index `i` of `s` can serve a request of `n` pages.
pub open spec fn can_serve(s: Seq<(usize, usize)>, i: int, n: usize) -> bool {
    s[i].1 >= n
}

/// Index of the first range of `s` that serves `n` pages, if any.
pub open spec fn is_first_fit(s: Seq<(usize, usize)>, i: int, n: usize) -> bool {
    &&& 0 <= i < s.len()
    &&& can_serve(s, i, n)
    &&& forall|j: int| 0 <= j < i ==> !can_serve(s, j, n)
}

/// A request has at most one first fit.
pub proof fn lemma_first_fit_unique(s: Seq<(usize, usize)>, i: int, j: int, n: usize)
    requires
        is_first_fit(s, i, n),
        is_first_fit(s, j, n),
    ensures
        i == j,
{
    if i < j {
        assert(!can_serve(s, i, n));
    } else if j < i {
        assert(!can_serve(s, j, n));
    }
}

/// Pushing a range adds its page count.
pub proof fn lemma_pages_in_push(s: Seq<(usize, usize)>, r: (usize, usize))
    ensures
        pages_in(s.push(r)) == pages_in(s) + r.1,
{
    assert(s.push(r).drop_last() =~= s);
}

/// The pages of two sequences of ranges, one after the other, add up.
pub proof fn lemma_pages_in_concat(s: Seq<(usize, usize)>, t: Seq<(usize, usize)>)
    ensures
        pages_in(s + t) == pages_in(s) + pages_in(t),
    decreases t.len(),
{
    if t.len() == 0 {
        assert(s + t =~= s);
    } else {
        lemma_pages_in_concat(s, t.drop_last());
        assert((s + t).drop_last() =~= s + t.drop_last());
    }
}

/// Replacing one range swaps its page count for the new one's.
pub proof fn lemma_pages_in_update(s: Seq<(usize, usize)>, i: int, r: (usize, usize))
    requires
        0 <= i < s.len(),
    ensures
        pages_in(s.update(i, r)) == pages_in(s) - s[i].1 + r.1,
    decreases s.len(),
{
    if i == s.len() - 1 {
        assert(s.update(i, r).drop_last() =~= s.drop_last());
    } else {
        lemma_pages_in_update(s.drop_last(), i, r);
        assert(s.update(i, r).drop_last() =~= s.drop_last().update(i, r));
    }
}

/// The allocator of physical pages. Its state is the list of free ranges,
/// in the order in which they were handed back.
pub struct FrameAllocator {
    free: Vec<(usize, usize)>,
}

impl FrameAllocator {
    /// The free ranges, as `(first page, page count)`.
    pub closed spec fn ranges(&self) -> Seq<(usize, usize)> {
        self.free@
    }

    /// Number of free pages.
    pub open spec fn free_count(&self) -> nat {
        pages_in(self.ranges())
    }

    /// Every free range ends within the page numbers.
    pub open spec fn wf(&self) -> bool {
        forall|i: int| 0 <= i < self.ranges().len() ==> range_fits(#[trigger] self.ranges()[i])
    }

    /// An allocator whose free pages are `count` pages from page `first` on.
    pub fn new(first: usize, count: usize) -> (r: Self)
        requires
            first + count <= usize::MAX,
        ensures
            r.wf(),
            r.ranges() == seq![(first, count)],
            r.free_count() == count,
    {
        let mut free: Vec<(usize, usize)> = Vec::new();
        free.push((first, count));
        let r = FrameAllocator { free };
        proof {
            lemma_pages_in_push(Seq::<(usize, usize)>::empty(), (first, count));
            assert(r.ranges() =~= Seq::<(usize, usize)>::empty().push((first, count)));
        }
        r
    }

    /// Number of free pages; `None` where it does not fit in a `usize`.
    pub fn free_page_count(&self) -> (r: Option<usize>)
        ensures
            match r {
                Some(n) => n == self.free_count(),
                None => self.free_count() > usize::MAX,
            },
    {
        let mut total: usize = 0;
        let mut i: usize = 0;
        while i < self.free.len()
            invariant
                i <= self.free@.len(),
                total == pages_in(self.free@.subrange(0, i as int)),
            decreases self.free@.len() - i,
        {
            let ghost prefix = self.free@.subrange(0, i + 1);
            assert(prefix.drop_last() =~= self.free@.subrange(0, i as int));
            match total.checked_add(self.free[i].1) {
                Some(t) => total = t,
                None => {
                    proof {
                        lemma_pages_in_concat(prefix, self.free@.subrange(i + 1, self.free@.len() as int));
                        assert(prefix + self.free@.subrange(i + 1, self.free@.len() as int) =~= self.free@);
                    }
                    return None;
                },
            }
            i = i + 1;
        }
        assert(self.free@.subrange(0, self.free@.len() as int) =~= self.free@);
        Some(total)
    }

    /// Takes `n` contiguous pages from the first free range large enough and
    /// returns the number of the first page; `None` where no free range holds
    /// `n` pages, and then nothing changes.
    pub fn alloc_contiguous(&mut self, n: usize) -> (r: Option<usize>)
        requires
            old(self).wf(),
        ensures
            final(self).wf(),
            r matches Some(p) ==> p + n <= usize::MAX,
            match r {
                Some(p) => exists|i: int|
                    {
                        &&& #[trigger] is_first_fit(old(self).ranges(), i, n)
                        &&& p == old(self).ranges()[i].0
                        &&& final(self).ranges() == old(self).ranges().update(
                            i,
                            ((p + n) as usize, (old(self).ranges()[i].1 - n) as usize),
                        )
                        &&& final(self).free_count() == old(self).free_count() - n
                    },
                None => {
                    &&& forall|i: int|
                        0 <= i < old(self).ranges().len() ==> !can_serve(
                            old(self).ranges(),
                            i,
                            n,
                        )
                    &&& final(self).ranges() == old(self).ranges()
                },
            },
    {
        let mut i: usize = 0;
        while i < self.free.len()
            invariant
                i <= self.free.len(),
                self.free@ == old(self).free@,
                old(self).wf(),
                forall|j: int| 0 <= j < i ==> !can_serve(self.free@, j, n),
            decreases self.free.len() - i,
        {
            let (start, count) = self.free[i];
            if count >= n {
                let ghost before = self.free@;
                assert(range_fits(before[i as int]));
                self.free.set(i, (start + n, count - n));
                proof {
                    lemma_pages_in_update(before, i as int, ((start + n) as usize, (count - n) as usize));
                    assert(is_first_fit(before, i as int, n));
                    assert forall|j: int| 0 <= j < self.ranges().len() implies range_fits(
                        #[trigger] self.ranges()[j],
                    ) by {
                        if j != i {
                            assert(range_fits(before[j]));
                        }
                    }
                }
                return Some(start);
            }
            i = i + 1;
        }
        None
    }

    /// Hands `n` pages from page `start` on back to the allocator.
    pub fn free_frames(&mut self, start: usize, n: usize)
        requires
            old(self).wf(),
            start + n <= usize::MAX,
        ensures
            final(self).wf(),
            final(self).ranges() == old(self).ranges().push((start, n)),
            final(self).free_count() == old(self).free_count() + n,
    {
        self.free.push((start, n));
        proof {
            lemma_pages_in_push(old(self).ranges(), (start, n));
            assert forall|j: int| 0 <= j < self.ranges().len() implies range_fits(
                #[trigger] self.ranges()[j],
            ) by {
                if j < old(self).ranges().len() {
                    assert(range_fits(old(self).ranges()[j]));
                }
            }
        }
    }
}

} // verus!

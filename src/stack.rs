//! Kernel stacks: runs of contiguous physical pages.
use vstd::prelude::*;

use crate::frame::{can_serve, is_first_fit, lemma_first_fit_unique, FrameAllocator, FRAME_SIZE};

verus! {

/// A kernel stack, as the numbers of its pages, lowest first.
#[derive(Debug)]
pub struct Stack {
    frames: Vec<usize>,
}

impl Stack {
    /// The page numbers of the stack, lowest first.
    pub closed spec fn pages(&self) -> Seq<usize> {
        self.frames@
    }

    /// Every page of the stack ends within the byte addresses.
    pub open spec fn wf(&self) -> bool {
        forall|i: int| 0 <= i < self.pages().len() ==> #[trigger] self.pages()[i] < usize::MAX / FRAME_SIZE
    }

    /// A stack of `pages` contiguous pages: the first free range of `frames`
    /// that holds them, from its start on. `None`, with the free page count
    /// kept, where no free range holds them or their addresses do not fit in
    /// a `usize`.
    pub fn new(pages: usize, frames: &mut FrameAllocator) -> (r: Option<Stack>)
        requires
            old(frames).wf(),
        ensures
            final(frames).wf(),
            r.is_none() ==> final(frames).free_count() == old(frames).free_count(),
            r.is_some() == exists|i: int|
                #[trigger] is_first_fit(old(frames).ranges(), i, pages) && old(frames).ranges()[i].0
                    + pages <= usize::MAX / FRAME_SIZE,
            r matches Some(s) ==> forall|i: int| #[trigger]
                is_first_fit(old(frames).ranges(), i, pages) ==> forall|j: int|
                    0 <= j < pages ==> #[trigger] s.pages()[j] == old(frames).ranges()[i].0 + j,
            r matches Some(s) ==> {
                &&& s.wf()
                &&& s.pages().len() == pages
                &&& forall|i: int| 0 <= i < pages ==> #[trigger] s.pages()[i] == s.pages()[0] + i
                &&& final(frames).free_count() + pages == old(frames).free_count()
            },
    {
        let ghost ranges = frames.ranges();
        let first = match frames.alloc_contiguous(pages) {
            Some(p) => p,
            None => {
                proof {
                    assert forall|i: int| !#[trigger] is_first_fit(ranges, i, pages) by {
                        if 0 <= i < ranges.len() {
                            assert(!can_serve(ranges, i, pages));
                        }
                    }
                }
                return None;
            },
        };
        let ghost fit = choose|i: int|
            #[trigger] is_first_fit(ranges, i, pages) && first == ranges[i].0;
        proof {
            assert forall|i: int| #[trigger] is_first_fit(ranges, i, pages) implies i == fit by {
                lemma_first_fit_unique(ranges, i, fit, pages);
            }
        }
        let limit = usize::MAX / FRAME_SIZE;
        if first > limit || pages > limit - first {
            frames.free_frames(first, pages);
            return None;
        }
        let mut v: Vec<usize> = Vec::new();
        let mut i: usize = 0;
        while i < pages
            invariant
                i <= pages,
                first + pages <= usize::MAX / FRAME_SIZE,
                v@.len() == i,
                forall|j: int| 0 <= j < i ==> #[trigger] v@[j] == first + j,
            decreases pages - i,
        {
            v.push(first + i);
            i = i + 1;
        }
        Some(Stack { frames: v })
    }

    /// The stack top: the address just past the highest page.
    pub fn top(&self) -> (r: usize)
        requires
            self.wf(),
            self.pages().len() > 0,
        ensures
            r == (self.pages().last() + 1) * FRAME_SIZE,
    {
        let last = self.frames[self.frames.len() - 1];
        assert((last + 1) * 4096 <= usize::MAX) by (nonlinear_arith)
            requires
                last < usize::MAX / 4096,
        {
        }
        (last + 1) * FRAME_SIZE
    }
}

} // verus!

//! The kernel address space: which virtual pages are mapped to which physical
//! pages, the areas they were mapped in, the root page table, and the cursor
//! of free virtual regions.
use std::collections::BTreeMap;

use vstd::prelude::*;

use crate::error::AlienError;
use crate::frame::{
    can_serve, is_first_fit, lemma_first_fit_unique, FrameAllocator, FRAME_BITS, FRAME_SIZE,
};

verus! {

broadcast use {vstd::std_specs::btree::group_btree_axioms, vstd::laws_cmp::group_laws_cmp};

/// The paging mode written into the top bits of `satp`.
pub const SATP_MODE: u64 = 8;

/// The `satp` value that selects the root page table at `pgd`.
pub open spec fn satp_of(pgd: usize) -> u64 {
    (SATP_MODE << 60u64) | ((pgd >> FRAME_BITS) as u64)
}

/// Whether every byte address of physical page `ppn` fits in a `usize`.
pub open spec fn ppn_fits(ppn: usize) -> bool {
    ppn <= usize::MAX / FRAME_SIZE
}

/// The virtual page that holds byte address `addr`.
pub open spec fn page_of(addr: usize) -> u64 {
    (addr / FRAME_SIZE) as u64
}

/// The mapping of `n` virtual pages from `vpn` on to physical pages from `ppn` on.
pub open spec fn region_map(vpn: u64, ppn: usize, n: usize) -> Map<u64, usize> {
    Map::new(|k: u64| vpn <= k < vpn + n, |k: u64| (ppn + (k - vpn)) as usize)
}

/// The virtual pages `vpn .. vpn + n`.
pub open spec fn region_pages(vpn: u64, n: usize) -> Set<u64> {
    Set::new(|k: u64| vpn <= k < vpn + n)
}

/// The kernel address space.
pub struct KernelSpace {
    root_paddr: usize,
    map_max: usize,
    pages: BTreeMap<u64, usize>,
    areas: BTreeMap<u64, (usize, usize)>,
}

impl KernelSpace {
    /// Physical address of the root page table.
    pub closed spec fn root(&self) -> usize {
        self.root_paddr
    }

    /// Start of the next free virtual region.
    pub closed spec fn map_max(&self) -> usize {
        self.map_max
    }

    /// Virtual page number to physical page number.
    pub closed spec fn mapping(&self) -> Map<u64, usize> {
        self.pages@
    }

    /// First virtual page of each mapped area, to its page count and first
    /// physical page.
    pub closed spec fn areas(&self) -> Map<u64, (usize, usize)> {
        self.areas@
    }

    /// Every mapped physical page has byte addresses that fit in a `usize`,
    /// and every area's pages stay within the page numbers.
    pub open spec fn wf(&self) -> bool {
        &&& forall|v: u64| #[trigger]
            self.mapping().contains_key(v) ==> ppn_fits(self.mapping()[v])
        &&& forall|a: u64| #[trigger]
            self.areas().contains_key(a) ==> {
                &&& self.areas()[a].0 > 0
                &&& self.areas()[a].1 + self.areas()[a].0 <= usize::MAX
                &&& a + self.areas()[a].0 <= u64::MAX
            }
    }

    /// An address space with nothing mapped, whose root page table is at
    /// `root_paddr` and whose free virtual regions start at `map_max`.
    pub fn new(root_paddr: usize, map_max: usize) -> (r: Self)
        ensures
            r.wf(),
            r.root() == root_paddr,
            r.map_max() == map_max,
            r.mapping() == Map::<u64, usize>::empty(),
            r.areas() == Map::<u64, (usize, usize)>::empty(),
    {
        KernelSpace { root_paddr, map_max, pages: BTreeMap::new(), areas: BTreeMap::new() }
    }
}

/// Physical address of the root page table of the kernel space.
pub fn kernel_pgd(space: &KernelSpace) -> (r: usize)
    ensures
        r == space.root(),
{
    space.root_paddr
}

/// The `satp` value that selects the kernel space.
pub fn kernel_satp(space: &KernelSpace) -> (r: u64)
    ensures
        r == satp_of(space.root()),
{
    (SATP_MODE << 60u64) | ((kernel_pgd(space) >> FRAME_BITS) as u64)
}

/// Reserves a free virtual region of `size` bytes and returns its start;
/// `None`, with nothing reserved, where the region would pass the end of the
/// address space.
pub fn alloc_free_region(space: &mut KernelSpace, size: usize) -> (r: Option<usize>)
    requires
        size > 0,
        size % FRAME_SIZE == 0,
    ensures
        old(space).map_max() + size <= usize::MAX ==> r == Some(old(space).map_max())
            && final(space).map_max() == old(space).map_max() + size,
        old(space).map_max() + size > usize::MAX ==> r.is_none() && final(space).map_max()
            == old(space).map_max(),
        final(space).root() == old(space).root(),
        final(space).mapping() == old(space).mapping(),
        final(space).areas() == old(space).areas(),
{
    match space.map_max.checked_add(size) {
        Some(end) => {
            let start = space.map_max;
            space.map_max = end;
            Some(start)
        },
        None => None,
    }
}

/// Maps `size` bytes from virtual address `vaddr` on to freshly allocated
/// physical pages, as one area: the first free range of the page allocator
/// that holds them. Fails with `NoMemory`, mapping nothing and keeping the
/// free page count, where no free range holds them or the addresses of the
/// pages it would give do not fit in a `usize`.
pub fn map_region_to_kernel(
    space: &mut KernelSpace,
    frames: &mut FrameAllocator,
    vaddr: usize,
    size: usize,
) -> (r: Result<(), AlienError>)
    requires
        old(space).wf(),
        old(frames).wf(),
        size > 0,
        size % FRAME_SIZE == 0,
        vaddr % FRAME_SIZE == 0,
        forall|k: u64|
            region_pages(page_of(vaddr), size / FRAME_SIZE).contains(k)
                ==> !#[trigger] old(space).mapping().contains_key(k),
        vaddr + size <= usize::MAX,
    ensures
        final(space).wf(),
        final(frames).wf(),
        final(space).root() == old(space).root(),
        final(space).map_max() == old(space).map_max(),
        r.is_ok() == exists|i: int|
            #[trigger] is_first_fit(old(frames).ranges(), i, size / FRAME_SIZE) && old(
                frames,
            ).ranges()[i].0 + size / FRAME_SIZE - 1 <= usize::MAX / FRAME_SIZE,
        r.is_ok() ==> forall|i: int| #[trigger]
            is_first_fit(old(frames).ranges(), i, size / FRAME_SIZE) ==> final(space).areas()[page_of(
                vaddr,
            )].1 == old(frames).ranges()[i].0,
        r.is_err() ==> r == Err::<(), AlienError>(AlienError::NoMemory)
            && final(space).mapping() == old(space).mapping() && final(space).areas() == old(
            space,
        ).areas() && final(frames).free_count() == old(frames).free_count(),
        r.is_ok() ==> {
            let vpn = page_of(vaddr);
            let n = size / FRAME_SIZE;
            &&& final(space).areas().contains_key(vpn)
            &&& final(space).areas()[vpn].0 == n
            &&& final(space).areas() == old(space).areas().insert(vpn, final(space).areas()[vpn])
            &&& final(space).mapping() == old(space).mapping().union_prefer_right(
                region_map(vpn, final(space).areas()[vpn].1, n),
            )
            &&& final(frames).free_count() + n == old(frames).free_count()
        },
{
    let n = size / FRAME_SIZE;
    let vpn = (vaddr / FRAME_SIZE) as u64;
    let ghost ranges = frames.ranges();
    let ppn = match frames.alloc_contiguous(n) {
        Some(p) => p,
        None => {
            proof {
                assert forall|i: int| !#[trigger] is_first_fit(ranges, i, n) by {
                    if 0 <= i < ranges.len() {
                        assert(!can_serve(ranges, i, n));
                    }
                }
            }
            return Err(AlienError::NoMemory);
        },
    };
    let ghost fit = choose|i: int| #[trigger] is_first_fit(ranges, i, n) && ppn == ranges[i].0;
    proof {
        assert forall|i: int| #[trigger] is_first_fit(ranges, i, n) implies i == fit by {
            lemma_first_fit_unique(ranges, i, fit, n);
        }
    }
    let limit = usize::MAX / FRAME_SIZE;
    if ppn > limit || n - 1 > limit - ppn {
        frames.free_frames(ppn, n);
        return Err(AlienError::NoMemory);
    }
    assert(n > 0 && vpn + n <= u64::MAX) by (nonlinear_arith)
        requires
            vpn == vaddr / 4096,
            n == size / 4096,
            size % 4096 == 0,
            vaddr + size <= usize::MAX,
            usize::MAX <= u64::MAX,
            size > 0,
    {
    }
    let mut j: usize = 0;
    while j < n
        invariant
            j <= n,
            vpn + n <= u64::MAX,
            ppn + n - 1 <= usize::MAX / FRAME_SIZE,
            space.wf(),
            space.root() == old(space).root(),
            space.map_max() == old(space).map_max(),
            space.areas() == old(space).areas(),
            space.mapping() == old(space).mapping().union_prefer_right(region_map(vpn, ppn, j)),
        decreases n - j,
    {
        space.pages.insert(vpn + j as u64, ppn + j);
        assert(space.mapping() =~= old(space).mapping().union_prefer_right(
            region_map(vpn, ppn, (j + 1) as usize),
        ));
        j = j + 1;
    }
    space.areas.insert(vpn, (n, ppn));
    proof {
        assert(space.mapping() =~= old(space).mapping().union_prefer_right(
            region_map(vpn, ppn, n),
        ));
    }
    Ok(())
}

/// Unmaps the area that starts at `addr` and hands its physical pages back
/// to `frames`.
pub fn unmap_region_from_kernel(
    space: &mut KernelSpace,
    frames: &mut FrameAllocator,
    addr: usize,
) -> (r: Result<(), &'static str>)
    requires
        old(space).wf(),
        old(frames).wf(),
        addr % FRAME_SIZE == 0,
        old(space).areas().contains_key(page_of(addr)),
    ensures
        r.is_ok(),
        final(space).wf(),
        final(frames).wf(),
        final(space).root() == old(space).root(),
        final(space).map_max() == old(space).map_max(),
        final(space).areas() == old(space).areas().remove(page_of(addr)),
        final(space).mapping() == old(space).mapping().remove_keys(
            region_pages(page_of(addr), old(space).areas()[page_of(addr)].0),
        ),
        final(frames).ranges() == old(frames).ranges().push(
            (old(space).areas()[page_of(addr)].1, old(space).areas()[page_of(addr)].0),
        ),
{
    let vpn = (addr / FRAME_SIZE) as u64;
    let (n, ppn) = match space.areas.remove(&vpn) {
        Some(a) => a,
        None => (0, 0),
    };
    assert(old(space).areas().contains_key(vpn));
    let mut j: usize = 0;
    while j < n
        invariant
            j <= n,
            vpn + n <= u64::MAX,
            old(space).wf(),
            space.root() == old(space).root(),
            space.map_max() == old(space).map_max(),
            space.areas() == old(space).areas().remove(vpn),
            space.mapping() == old(space).mapping().remove_keys(region_pages(vpn, j)),
        decreases n - j,
    {
        space.pages.remove(&(vpn + j as u64));
        assert(space.mapping() =~= old(space).mapping().remove_keys(
            region_pages(vpn, (j + 1) as usize),
        ));
        j = j + 1;
    }
    frames.free_frames(ppn, n);
    proof {
        assert forall|v: u64| #[trigger] space.mapping().contains_key(v) implies ppn_fits(
            space.mapping()[v],
        ) by {
            assert(old(space).mapping().contains_key(v));
        }
        assert forall|a: u64| #[trigger] space.areas().contains_key(a) implies {
            &&& space.areas()[a].1 + space.areas()[a].0 <= usize::MAX
            &&& a + space.areas()[a].0 <= u64::MAX
        } by {
            assert(old(space).areas().contains_key(a));
        }
    }
    Ok(())
}

/// The physical address that virtual address `addr` maps to, if its page is
/// mapped.
pub fn query_kernel_space(space: &KernelSpace, addr: usize) -> (r: Option<usize>)
    requires
        space.wf(),
    ensures
        space.mapping().contains_key(page_of(addr)) ==> r == Some(
            (space.mapping()[page_of(addr)] * FRAME_SIZE + addr % FRAME_SIZE) as usize,
        ),
        !space.mapping().contains_key(page_of(addr)) ==> r.is_none(),
{
    let vpn = (addr / FRAME_SIZE) as u64;
    match space.pages.get(&vpn) {
        Some(ppn) => {
            let p = *ppn;
            assert(space.mapping().contains_key(vpn));
            assert(ppn_fits(p));
            assert(p * 4096 + 4095 <= usize::MAX) by (nonlinear_arith)
                requires
                    p <= usize::MAX / 4096,
                    usize::MAX % 4096 == 4095,
            {
            }
            Some(p * FRAME_SIZE + addr % FRAME_SIZE)
        },
        None => None,
    }
}

/// Whether every page that the `size` bytes from `vaddr` on touch is mapped.
pub fn is_in_kernel_space(space: &KernelSpace, vaddr: usize, size: usize) -> (r: bool)
    requires
        vaddr + size <= usize::MAX,
    ensures
        size == 0 ==> r,
        size > 0 ==> r == forall|k: u64|
            page_of(vaddr) <= k <= page_of((vaddr + size - 1) as usize) ==> #[trigger]
                space.mapping().contains_key(k),
{
    if size == 0 {
        return true;
    }
    let first = (vaddr / FRAME_SIZE) as u64;
    let last = ((vaddr + size - 1) / FRAME_SIZE) as u64;
    let mut k: u64 = first;
    while k <= last
        invariant
            first <= k,
            k <= last + 1,
            size > 0,
            vaddr + size <= usize::MAX,
            last < u64::MAX,
            first == page_of(vaddr),
            last == page_of((vaddr + size - 1) as usize),
            forall|i: u64| first <= i < k ==> #[trigger] space.mapping().contains_key(i),
        decreases last + 1 - k,
    {
        if !space.pages.contains_key(&k) {
            assert(!space.mapping().contains_key(k));
            return false;
        }
        k = k + 1;
    }
    true
}

} // verus!

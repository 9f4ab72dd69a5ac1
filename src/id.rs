//! Issuing of domain identifiers.
use vstd::prelude::*;

verus! {

/// The identifier that no live domain carries; a placeholder proxy reports it.
pub const NO_DOMAIN_ID: u64 = 0xffff_ffff_ffff_ffff;

/// Hands out unique, strictly increasing domain identifiers.
pub struct DomainIdAllocator {
    next: u64,
}

impl DomainIdAllocator {
    /// The identifier the next successful `alloc_id` returns.
    pub closed spec fn next_id(&self) -> u64 {
        self.next
    }

    /// An allocator whose first identifier is `first`.
    pub fn new(first: u64) -> (r: Self)
        ensures
            r.next_id() == first,
    {
        DomainIdAllocator { next: first }
    }

    /// Issues a fresh identifier. Every identifier below `next_id()` was issued
    /// already, so the one returned was never handed out before; `None` once
    /// the identifier space is used up (the reserved `NO_DOMAIN_ID` is never issued).
    pub fn alloc_id(&mut self) -> (r: Option<u64>)
        ensures
            old(self).next_id() < NO_DOMAIN_ID ==> {
                &&& r == Some(old(self).next_id())
                &&& final(self).next_id() == old(self).next_id() + 1
            },
            old(self).next_id() == NO_DOMAIN_ID ==> {
                &&& r.is_none()
                &&& *final(self) == *old(self)
            },
    {
        if self.next == NO_DOMAIN_ID {
            None
        } else {
            let id = self.next;
            self.next = self.next + 1;
            Some(id)
        }
    }
}

} // verus!

//! The domain proxy: the stable front of one domain. It checks liveness before
//! every call, forwards calls under the read-side barrier, and swaps in a
//! replacement domain, reclaiming the old one's memory only after every call
//! that could still see it has left.
use vstd::prelude::*;

use crate::error::{AlienError, AlienResult};
use crate::id::{DomainIdAllocator, NO_DOMAIN_ID};
use crate::resource::KernelMemory;
use crate::srcu::{ReadToken, SrcuLock};

verus! {

/// What every domain exposes: its identifier and whether it is alive.
pub trait Basic {
    /// The identifier of the domain.
    spec fn spec_domain_id(&self) -> u64;

    /// Whether the domain's state is still consistent.
    spec fn spec_is_active(&self) -> bool;

    /// The identifier of the domain.
    fn domain_id(&self) -> (r: u64)
        ensures
            r == self.spec_domain_id(),
    ;

    /// Whether the domain is alive; a proxy fails every call to a domain
    /// that is not.
    fn is_active(&self) -> (r: bool)
        ensures
            r == self.spec_is_active(),
    ;
}

/// The configuration a domain was last initialised with, kept to initialise
/// a replacement.
pub enum InitResource {
    /// The domain takes no configuration.
    Nothing,
    /// A device's register window, as a byte range.
    Range { start: usize, end: usize },
    /// The name of another domain the domain works on top of.
    Name(String),
}

/// A domain that can be initialised from an `InitResource`.
pub trait Domain: Basic {
    /// Initialises the domain with its configuration.
    fn init(&self, resource: &InitResource) -> AlienResult<()>;
}

/// Builds fresh instances of a domain from its backing image.
pub trait DomainLoader<D> {
    /// Prepares the image; fails where it cannot be loaded.
    fn load(&mut self) -> AlienResult<()>;

    /// A fresh instance of the domain, identified by `domain_id`.
    fn call(&mut self, domain_id: u64) -> D;
}

/// Why a `replace` did not end normally.
pub enum ReplaceError<D, L> {
    /// Another swap is pending: the new domain and loader come back untouched.
    SwapInProgress(D, L),
    /// The swap completed, but the new domain's `init` failed with this error.
    Init(AlienError),
}

/// The proxy of one domain of type `D`, rebuilt by a loader of type `L`.
pub struct Proxy<D, L> {
    domain: Option<D>,
    retired: Option<D>,
    retired_id: u64,
    loader: L,
    srcu: SrcuLock,
    resource: InitResource,
}

impl<D: Domain, L> Proxy<D, L> {
    /// The installed domain; `None` for a placeholder.
    pub closed spec fn current(&self) -> Option<D> {
        self.domain
    }

    /// The domain swapped out and not yet reclaimed.
    pub closed spec fn retired(&self) -> Option<D> {
        self.retired
    }

    /// The identifier of the domain being swapped out.
    pub closed spec fn retired_id(&self) -> u64 {
        self.retired_id
    }

    /// The loader that rebuilds the domain.
    pub closed spec fn loader(&self) -> L {
        self.loader
    }

    /// The saved configuration.
    pub closed spec fn resource(&self) -> InitResource {
        self.resource
    }

    /// The read-side barrier of the proxy.
    pub closed spec fn barrier(&self) -> SrcuLock {
        self.srcu
    }

    /// Whether a swap is in flight: a domain was swapped out and its grace
    /// period is not over.
    pub open spec fn swapping(&self) -> bool {
        self.barrier().syncing()
    }

    /// Whether the installed domain reports itself alive; never for a placeholder.
    pub open spec fn live(&self) -> bool {
        match self.current() {
            Some(d) => d.spec_is_active(),
            None => false,
        }
    }

    /// The identifier of the installed domain; `NO_DOMAIN_ID` for a placeholder.
    pub open spec fn current_id(&self) -> u64 {
        match self.current() {
            Some(d) => d.spec_domain_id(),
            None => NO_DOMAIN_ID,
        }
    }

    /// The domain a call registered with `t` works on: the one that was
    /// installed when it registered.
    pub open spec fn sees(&self, t: ReadToken) -> Option<D> {
        if self.swapping() && t.epoch() == self.barrier().old_epoch() {
            self.retired()
        } else {
            self.current()
        }
    }

    /// Whether the call registered with `t` is still in flight.
    pub open spec fn holds(&self, t: ReadToken) -> bool {
        self.barrier().holds(t)
    }

    /// Room for one more call in flight.
    pub open spec fn call_room(&self) -> bool {
        self.barrier().reader_room()
    }

    /// The barrier is consistent, and a swapped-out domain is kept only
    /// while its grace period runs.
    pub open spec fn wf(&self) -> bool {
        &&& self.barrier().wf()
        &&& !self.swapping() ==> self.retired().is_none()
    }

    /// Every call in flight in `old`, but the one numbered `except`, is still
    /// in flight in `self` and works on the same domain.
    pub open spec fn keeps_calls(&self, old: Self, except: Option<nat>) -> bool {
        forall|t: ReadToken|
            #![trigger self.holds(t)]
            #![trigger old.holds(t)]
            old.holds(t) && except != Some(t.id()) ==> self.holds(t) && self.sees(t) == old.sees(t)
    }

    /// Keeping the calls in flight from `a` to `b` and from `b` to `c` keeps
    /// them from `a` to `c`.
    pub proof fn lemma_keeps_calls_trans(a: Self, b: Self, c: Self)
        requires
            b.keeps_calls(a, None),
            c.keeps_calls(b, None),
        ensures
            c.keeps_calls(a, None),
    {
        assert forall|t: ReadToken| a.holds(t) && None::<nat> != Some(t.id()) implies c.holds(t)
            && c.sees(t) == a.sees(t) by {
            assert(b.holds(t));
        }
    }

    /// `self` is `old` but for the numbering of calls.
    pub open spec fn same_but_calls(&self, old: Self) -> bool {
        &&& self.wf()
        &&& self.current() == old.current()
        &&& self.retired() == old.retired()
        &&& self.retired_id() == old.retired_id()
        &&& self.loader() == old.loader()
        &&& self.resource() == old.resource()
        &&& self.barrier().same_state(old.barrier())
    }

    /// A proxy in front of `domain`.
    pub fn build(domain: D, domain_loader: L) -> (r: Self)
        ensures
            r.wf(),
            r.current() == Some(domain),
            r.loader() == domain_loader,
            r.resource() == InitResource::Nothing,
            !r.swapping(),
            r.barrier().active().is_empty(),
    {
        Proxy {
            domain: Some(domain),
            retired: None,
            retired_id: NO_DOMAIN_ID,
            loader: domain_loader,
            srcu: SrcuLock::new(),
            resource: InitResource::Nothing,
        }
    }

    /// A placeholder proxy: it reports itself inactive and fails every call
    /// until a domain is swapped in.
    pub fn build_empty(domain_loader: L) -> (r: Self)
        ensures
            r.wf(),
            r.current().is_none(),
            !r.live(),
            r.current_id() == NO_DOMAIN_ID,
            r.loader() == domain_loader,
            r.resource() == InitResource::Nothing,
            !r.swapping(),
            r.barrier().active().is_empty(),
    {
        Proxy {
            domain: None,
            retired: None,
            retired_id: NO_DOMAIN_ID,
            loader: domain_loader,
            srcu: SrcuLock::new(),
            resource: InitResource::Nothing,
        }
    }

    /// Whether a swap is in flight.
    pub fn is_swapping(&self) -> (r: bool)
        ensures
            r == self.swapping(),
    {
        self.srcu.in_grace_period()
    }

    /// A reader registered in `mid` and deregistered in `self` leaves `old`
    /// as it was but for the numbering of calls.
    proof fn lemma_lock_unlock(&self, mid: Self, old: Self, t: ReadToken)
        requires
            old.wf(),
            self.barrier().wf(),
            t.id() == old.barrier().next_id(),
            !old.barrier().active().contains(t.id()),
            t.epoch() == old.barrier().epoch(),
            t.epoch() < 2,
            mid.barrier().readers_of(t.epoch()) == old.barrier().readers_of(t.epoch()).insert(
                t.id(),
            ),
            mid.barrier().readers_of(old.barrier().old_epoch()) == old.barrier().readers_of(
                old.barrier().old_epoch(),
            ),
            self.barrier().readers_of(t.epoch()) == mid.barrier().readers_of(t.epoch()).remove(
                t.id(),
            ),
            self.barrier().readers_of((1 - t.epoch()) as usize) == mid.barrier().readers_of(
                (1 - t.epoch()) as usize,
            ),
            self.barrier().epoch() == old.barrier().epoch(),
            self.barrier().syncing() == old.barrier().syncing(),
            self.barrier().sync_start() == old.barrier().sync_start(),
            self.current() == old.current(),
            self.retired() == old.retired(),
            self.retired_id() == old.retired_id(),
            self.loader() == old.loader(),
            self.resource() == old.resource(),
        ensures
            self.same_but_calls(old),
    {
        assert(old.barrier().active().contains(t.id()) == false);
        assert(!old.barrier().readers_of(t.epoch()).contains(t.id()));
        assert(self.barrier().readers_of(t.epoch()) =~= old.barrier().readers_of(t.epoch()));
        assert(self.barrier().readers_of(0) =~= old.barrier().readers_of(0));
        assert(self.barrier().readers_of(1) =~= old.barrier().readers_of(1));
    }

    /// The identifier of the installed domain, read under the barrier.
    pub fn domain_id(&mut self) -> (r: u64)
        requires
            old(self).wf(),
            old(self).call_room(),
        ensures
            r == old(self).current_id(),
            final(self).same_but_calls(*old(self)),
    {
        let ghost before = *self;
        let t = self.srcu.read_lock();
        let ghost mid = *self;
        let ghost tt = t;
        let r = match &self.domain {
            Some(d) => d.domain_id(),
            None => NO_DOMAIN_ID,
        };
        self.srcu.read_unlock(t);
        proof {
            self.lemma_lock_unlock(mid, before, tt);
        }
        r
    }

    /// Whether the installed domain reports itself alive, read under the barrier.
    pub fn is_active(&mut self) -> (r: bool)
        requires
            old(self).wf(),
            old(self).call_room(),
        ensures
            r == old(self).live(),
            final(self).same_but_calls(*old(self)),
    {
        let ghost before = *self;
        let t = self.srcu.read_lock();
        let ghost mid = *self;
        let ghost tt = t;
        let r = match &self.domain {
            Some(d) => d.is_active(),
            None => false,
        };
        self.srcu.read_unlock(t);
        proof {
            self.lemma_lock_unlock(mid, before, tt);
        }
        r
    }

    /// Forwards `op` to the installed domain under the barrier. Where the
    /// domain is not alive the call fails with `DomainCrash` and `op` is never
    /// run; otherwise whatever `op` returns comes back unchanged.
    pub fn call<R, F: FnOnce(&D) -> AlienResult<R>>(&mut self, op: F) -> (r: AlienResult<R>)
        requires
            old(self).wf(),
            old(self).call_room(),
            forall|d: &D| op.requires((d,)),
        ensures
            !old(self).live() ==> r == Err::<R, AlienError>(AlienError::DomainCrash),
            old(self).live() ==> (old(self).current() matches Some(d) && op.ensures((&d,), r)),
            final(self).same_but_calls(*old(self)),
    {
        if !self.is_active() {
            return Err(AlienError::DomainCrash);
        }
        let ghost before = *self;
        let t = self.srcu.read_lock();
        let ghost mid = *self;
        let ghost tt = t;
        let r = match &self.domain {
            Some(d) => op(d),
            None => Err(AlienError::DomainCrash),
        };
        self.srcu.read_unlock(t);
        proof {
            self.lemma_lock_unlock(mid, before, tt);
        }
        r
    }

    /// Starts a call that stays in flight until `end_call`: checks liveness,
    /// then registers with the barrier. Fails with `DomainCrash`, registering
    /// nothing, where the domain is not alive.
    pub fn begin_call(&mut self) -> (r: AlienResult<ReadToken>)
        requires
            old(self).wf(),
            old(self).call_room(),
        ensures
            final(self).wf(),
            r.is_ok() == old(self).live(),
            !old(self).live() ==> r == Err::<ReadToken, AlienError>(AlienError::DomainCrash)
                && final(self).same_but_calls(*old(self)),
            r matches Ok(t) ==> {
                &&& final(self).holds(t)
                &&& final(self).sees(t) == old(self).current()
                &&& t.id() == final(self).barrier().next_id() - 1
                &&& final(self).barrier().active() == old(self).barrier().active().insert(t.id())
                &&& !old(self).barrier().active().contains(t.id())
                &&& final(self).current() == old(self).current()
                &&& final(self).retired() == old(self).retired()
                &&& final(self).retired_id() == old(self).retired_id()
                &&& final(self).loader() == old(self).loader()
                &&& final(self).resource() == old(self).resource()
                &&& final(self).barrier().epoch() == old(self).barrier().epoch()
                &&& final(self).swapping() == old(self).swapping()
                &&& final(self).barrier().sync_start() == old(self).barrier().sync_start()
                &&& final(self).keeps_calls(*old(self), None)
            },
    {
        if !self.is_active() {
            return Err(AlienError::DomainCrash);
        }
        let ghost before = *self;
        let t = self.srcu.read_lock();
        proof {
            assert forall|u: ReadToken| before.holds(u) implies self.holds(u) && self.sees(u)
                == before.sees(u) by {
                if u.epoch() == t.epoch() {
                    assert(self.barrier().readers_of(u.epoch()) == before.barrier().readers_of(
                        u.epoch(),
                    ).insert(t.id()));
                } else {
                    assert(u.epoch() == before.barrier().old_epoch());
                }
            }
        }
        Ok(t)
    }

    /// Runs `op` for the call in flight `t`, on the domain it registered
    /// against; fails with `DomainCrash` where that is a placeholder.
    pub fn call_in<R, F: FnOnce(&D) -> AlienResult<R>>(&self, t: &ReadToken, op: F) -> (r:
        AlienResult<R>)
        requires
            self.wf(),
            self.holds(*t),
            forall|d: &D| op.requires((d,)),
        ensures
            self.sees(*t).is_none() ==> r == Err::<R, AlienError>(AlienError::DomainCrash),
            self.sees(*t) matches Some(d) ==> op.ensures((&d,), r),
    {
        let old_reader = self.srcu.registered_before_sync(t);
        let seen = if old_reader {
            &self.retired
        } else {
            &self.domain
        };
        match seen {
            Some(d) => op(d),
            None => Err(AlienError::DomainCrash),
        }
    }

    /// Ends the call in flight `t`.
    pub fn end_call(&mut self, t: ReadToken)
        requires
            old(self).wf(),
            old(self).holds(t),
        ensures
            final(self).wf(),
            final(self).barrier().active() == old(self).barrier().active().remove(t.id()),
            final(self).current() == old(self).current(),
            final(self).retired() == old(self).retired(),
            final(self).retired_id() == old(self).retired_id(),
            final(self).loader() == old(self).loader(),
            final(self).resource() == old(self).resource(),
            final(self).swapping() == old(self).swapping(),
            final(self).barrier().epoch() == old(self).barrier().epoch(),
            final(self).barrier().sync_start() == old(self).barrier().sync_start(),
            final(self).barrier().next_id() == old(self).barrier().next_id(),
            final(self).keeps_calls(*old(self), Some(t.id())),
    {
        let ghost tt = t;
        self.srcu.read_unlock(t);
        proof {
            assert forall|u: ReadToken|
                old(self).holds(u) && Some(tt.id()) != Some(u.id()) implies self.holds(u) && self.sees(
                u,
            ) == old(self).sees(u) by {
                if u.epoch() != tt.epoch() {
                    assert(u.epoch() == (1 - tt.epoch()) as usize);
                }
            }
        }
    }

    /// Saves `resource` as the configuration of the domain and of every
    /// replacement, and initialises the installed domain with it. Fails with
    /// `DomainCrash`, the resource still saved, where the domain is not alive;
    /// otherwise returns what the domain's `init` returns.
    pub fn init_by_resource(&mut self, resource: InitResource) -> (r: AlienResult<()>)
        requires
            old(self).wf(),
        ensures
            final(self).wf(),
            final(self).resource() == resource,
            !old(self).live() ==> r == Err::<(), AlienError>(AlienError::DomainCrash),
            final(self).current() == old(self).current(),
            final(self).retired() == old(self).retired(),
            final(self).retired_id() == old(self).retired_id(),
            final(self).loader() == old(self).loader(),
            final(self).barrier() == old(self).barrier(),
    {
        self.resource = resource;
        match &self.domain {
            Some(d) => {
                if d.is_active() {
                    d.init(&self.resource)
                } else {
                    Err(AlienError::DomainCrash)
                }
            },
            None => Err(AlienError::DomainCrash),
        }
    }

    /// Installs `new_domain`, retires the installed one and starts its grace
    /// period.
    fn swap_in(&mut self, new_domain: D)
        requires
            old(self).wf(),
            !old(self).swapping(),
        ensures
            final(self).wf(),
            final(self).swapping(),
            final(self).current() == Some(new_domain),
            final(self).retired() == old(self).current(),
            final(self).retired_id() == old(self).current_id(),
            final(self).loader() == old(self).loader(),
            final(self).resource() == old(self).resource(),
            final(self).barrier().active() == old(self).barrier().active(),
            final(self).barrier().sync_start() == old(self).barrier().next_id(),
            final(self).barrier().pre_sync_readers_gone() == old(self).barrier().active().is_empty(),
            final(self).keeps_calls(*old(self), None),
    {
        let old_id = match &self.domain {
            Some(d) => d.domain_id(),
            None => NO_DOMAIN_ID,
        };
        let mut slot = Some(new_domain);
        std::mem::swap(&mut self.domain, &mut slot);
        self.retired = slot;
        self.retired_id = old_id;
        self.srcu.begin_synchronize();
        proof {
            assert(self.barrier().active() =~= old(self).barrier().active());
            old(self).barrier().lemma_active_below_next();
            if !old(self).barrier().active().is_empty() {
                let id = choose|id: nat| old(self).barrier().active().contains(id);
                assert(self.barrier().active().contains(id));
            }
            assert forall|t: ReadToken| old(self).holds(t) implies self.holds(t) && self.sees(t)
                == old(self).sees(t) by {
                old(self).barrier().lemma_token_epoch(t);
            }
        }
    }

    /// Completes the swap in flight once its grace period is over: the
    /// swapped-out domain is detached, its memory reclaimed through the
    /// ledger, and the new domain initialised with the saved resource.
    /// Returns `Ok(false)` while calls that began before the swap are still
    /// in flight, and `Ok(true)` where no swap is pending; where the new
    /// domain's `init` fails, its error comes back after the swap completed.
    pub fn poll_replace(&mut self, mem: &mut KernelMemory) -> (r: AlienResult<bool>)
        requires
            old(self).wf(),
            old(mem).wf(),
        ensures
            final(self).wf(),
            final(mem).wf(),
            !old(self).swapping() ==> r == Ok::<bool, AlienError>(true) && *final(self)
                == *old(self) && *final(mem) == *old(mem),
            old(self).swapping() && !old(self).barrier().pre_sync_readers_gone() ==> r == Ok::<
                bool,
                AlienError,
            >(false) && *final(self) == *old(self) && *final(mem) == *old(mem),
            old(self).swapping() && old(self).barrier().pre_sync_readers_gone() ==> {
                &&& !final(self).swapping()
                &&& final(self).retired().is_none()
                &&& final(self).current() == old(self).current()
                &&& final(self).loader() == old(self).loader()
                &&& final(self).resource() == old(self).resource()
                &&& final(self).barrier().active() == old(self).barrier().active()
                &&& r != Ok::<bool, AlienError>(false)
                &&& final(mem).reclaimed(*old(mem), old(self).retired_id())
                &&& final(self).keeps_calls(*old(self), None)
            },
    {
        if !self.srcu.in_grace_period() {
            return Ok(true);
        }
        if !self.srcu.grace_period_over() {
            return Ok(false);
        }
        self.srcu.end_synchronize();
        self.retired = None;
        mem.reclaim(self.retired_id);
        proof {
            assert(self.barrier().active() =~= old(self).barrier().active());
            assert forall|t: ReadToken| old(self).holds(t) implies self.holds(t) && self.sees(t)
                == old(self).sees(t) by {
                old(self).barrier().lemma_token_epoch(t);
                assert(old(self).barrier().active().contains(t.id()));
            }
        }
        match &self.domain {
            Some(d) => match d.init(&self.resource) {
                Ok(()) => Ok(true),
                Err(e) => Err(e),
            },
            None => Ok(true),
        }
    }

    /// Swaps `new_domain` in for the installed domain and `domain_loader` in
    /// for the loader, then completes the swap as `poll_replace` does where no
    /// call is in flight; otherwise the swap stays pending (`Ok(false)`) until
    /// `poll_replace` completes it. While another swap is pending nothing
    /// changes and `new_domain` and `domain_loader` come back in the error.
    pub fn replace(&mut self, new_domain: D, domain_loader: L, mem: &mut KernelMemory) -> (r:
        Result<bool, ReplaceError<D, L>>)
        requires
            old(self).wf(),
            old(mem).wf(),
        ensures
            final(self).wf(),
            final(mem).wf(),
            old(self).swapping() ==> {
                &&& r matches Err(ReplaceError::SwapInProgress(d, l)) && d == new_domain && l
                    == domain_loader
                &&& *final(self) == *old(self)
                &&& *final(mem) == *old(mem)
            },
            !old(self).swapping() ==> {
                &&& !(r matches Err(ReplaceError::SwapInProgress(_, _)))
                &&& final(self).swapped(
                    *old(self),
                    *old(mem),
                    *final(mem),
                    r == Ok::<bool, ReplaceError<D, L>>(false),
                )
                &&& final(self).current() == Some(new_domain)
                &&& final(self).loader() == domain_loader
            },
    {
        if self.srcu.in_grace_period() {
            return Err(ReplaceError::SwapInProgress(new_domain, domain_loader));
        }
        self.loader = domain_loader;
        let ghost before = *self;
        self.swap_in(new_domain);
        let ghost mid = *self;
        let r = self.poll_replace(mem);
        proof {
            assert(before.keeps_calls(*old(self), None));
            Self::lemma_keeps_calls_trans(before, mid, *self);
            Self::lemma_keeps_calls_trans(*old(self), before, *self);
        }
        match r {
            Ok(done) => Ok(done),
            Err(e) => Err(ReplaceError::Init(e)),
        }
    }

    /// `self` and `mem` are `old` and `old_mem` after a new domain was swapped
    /// in for the one installed in `old`: complete where no call was in
    /// flight, pending (as `pending` says) otherwise. Every call in flight
    /// keeps working on the domain it began on.
    pub open spec fn swapped(
        &self,
        old: Self,
        old_mem: KernelMemory,
        mem: KernelMemory,
        pending: bool,
    ) -> bool {
        &&& self.current().is_some()
        &&& self.resource() == old.resource()
        &&& self.barrier().active() == old.barrier().active()
        &&& self.keeps_calls(old, None)
        &&& old.barrier().active().is_empty() ==> {
            &&& !self.swapping()
            &&& self.retired().is_none()
            &&& !pending
            &&& mem.reclaimed(old_mem, old.current_id())
        }
        &&& !old.barrier().active().is_empty() ==> {
            &&& pending
            &&& self.swapping()
            &&& self.retired() == old.current()
            &&& self.retired_id() == old.current_id()
            &&& self.barrier().sync_start() == old.barrier().next_id()
            &&& mem == old_mem
        }
    }

    /// A call in flight works on the domain that was installed when it began.
    /// Outside a swap that is the installed domain. During a swap, a call that
    /// began before the swap works on the swapped-out domain, which is still
    /// there, and a call that began after it works on the new one.
    pub proof fn lemma_calls_see_their_domain(p: Self, t: ReadToken)
        requires
            p.wf(),
            p.holds(t),
        ensures
            !p.swapping() ==> p.sees(t) == p.current(),
            p.swapping() && t.id() < p.barrier().sync_start() ==> p.sees(t) == p.retired(),
            p.swapping() && t.id() >= p.barrier().sync_start() ==> p.sees(t) == p.current(),
    {
        p.barrier().lemma_token_epoch(t);
    }

    /// A swap cannot complete while a call that began before it is in flight:
    /// the grace period that `poll_replace` waits for is not over.
    pub proof fn lemma_swap_waits_for_calls(p: Self, t: ReadToken)
        requires
            p.wf(),
            p.swapping(),
            p.holds(t),
            t.id() < p.barrier().sync_start(),
        ensures
            !p.barrier().pre_sync_readers_gone(),
    {
        assert(p.barrier().active().contains(t.id()));
    }
}

impl<D: Domain, L: DomainLoader<D>> Proxy<D, L> {
    /// Rebuilds the domain from its loader under a fresh identifier and swaps
    /// the new instance in as `replace` does. Fails with `SwapInProgress`,
    /// changing nothing, while another swap is pending; otherwise loads the
    /// image and goes on as `reload_loaded` says for the load's outcome.
    pub fn reload(&mut self, ids: &mut DomainIdAllocator, mem: &mut KernelMemory) -> (r:
        AlienResult<bool>)
        requires
            old(self).wf(),
            old(mem).wf(),
        ensures
            final(self).wf(),
            final(mem).wf(),
            old(self).swapping() ==> r == Err::<bool, AlienError>(AlienError::SwapInProgress)
                && *final(self) == *old(self) && *final(mem) == *old(mem) && *final(ids)
                == *old(ids),
            !old(self).swapping() ==> {
                ||| {
                    &&& r.is_err()
                    &&& !final(self).swapping()
                    &&& final(self).current() == old(self).current()
                    &&& final(self).retired() == old(self).retired()
                    &&& final(self).resource() == old(self).resource()
                    &&& final(self).barrier() == old(self).barrier()
                    &&& *final(mem) == *old(mem)
                    &&& *final(ids) == *old(ids)
                }
                ||| {
                    &&& old(ids).next_id() < NO_DOMAIN_ID
                    &&& final(ids).next_id() == old(ids).next_id() + 1
                    &&& final(self).swapped(
                        *old(self),
                        *old(mem),
                        *final(mem),
                        r == Ok::<bool, AlienError>(false),
                    )
                }
            },
    {
        if self.srcu.in_grace_period() {
            return Err(AlienError::SwapInProgress);
        }
        let loaded = self.loader.load();
        let ghost mid = *self;
        let r = self.reload_loaded(loaded, ids, mem);
        proof {
            assert(mid.current() == old(self).current());
            assert(mid.retired() == old(self).retired());
            assert(mid.retired_id() == old(self).retired_id());
            assert(mid.resource() == old(self).resource());
            assert(mid.barrier() == old(self).barrier());
            assert(mid.keeps_calls(*old(self), None));
            if loaded.is_ok() && old(ids).next_id() < NO_DOMAIN_ID {
                Self::lemma_keeps_calls_trans(*old(self), mid, *self);
            }
        }
        r
    }

    /// Goes on with a reload once the loader has tried to load the image,
    /// with outcome `loaded`. A failed load comes back unchanged and nothing
    /// changes. Otherwise a fresh identifier is taken (`OutOfRange`, changing
    /// nothing, where none is left), the loader builds the domain under it,
    /// and the new instance is swapped in as `replace` does.
    pub fn reload_loaded(
        &mut self,
        loaded: AlienResult<()>,
        ids: &mut DomainIdAllocator,
        mem: &mut KernelMemory,
    ) -> (r: AlienResult<bool>)
        requires
            old(self).wf(),
            old(mem).wf(),
            !old(self).swapping(),
        ensures
            final(self).wf(),
            final(mem).wf(),
            loaded matches Err(e) ==> {
                &&& r == Err::<bool, AlienError>(e)
                &&& *final(self) == *old(self)
                &&& *final(mem) == *old(mem)
                &&& *final(ids) == *old(ids)
            },
            loaded.is_ok() && old(ids).next_id() == NO_DOMAIN_ID ==> {
                &&& r == Err::<bool, AlienError>(AlienError::OutOfRange)
                &&& *final(self) == *old(self)
                &&& *final(mem) == *old(mem)
                &&& *final(ids) == *old(ids)
            },
            loaded.is_ok() && old(ids).next_id() < NO_DOMAIN_ID ==> {
                &&& final(ids).next_id() == old(ids).next_id() + 1
                &&& final(self).swapped(
                    *old(self),
                    *old(mem),
                    *final(mem),
                    r == Ok::<bool, AlienError>(false),
                )
            },
    {
        if let Err(e) = loaded {
            return Err(e);
        }
        let new_id = match ids.alloc_id() {
            Some(id) => id,
            None => return Err(AlienError::OutOfRange),
        };
        let new_domain = self.loader.call(new_id);
        self.swap_in(new_domain);
        let ghost mid = *self;
        let r = self.poll_replace(mem);
        proof {
            Self::lemma_keeps_calls_trans(*old(self), mid, *self);
        }
        r
    }
}

} // verus!

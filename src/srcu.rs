//! The read-side quiescence barrier: readers register without blocking, and a
//! writer that bumps the epoch can tell when every reader that registered
//! before the bump has left.
use vstd::prelude::*;

verus! {

/// Proof that a reader is registered; handed back to `read_unlock` once.
pub struct ReadToken {
    epoch: usize,
    id: Ghost<nat>,
}

impl ReadToken {
    /// The epoch the reader registered in.
    pub closed spec fn epoch(&self) -> usize {
        self.epoch
    }

    /// A number that no other registration ever carries; registrations are
    /// numbered in the order in which they happen.
    pub closed spec fn id(&self) -> nat {
        self.id@
    }
}

/// The barrier. Readers are counted per epoch; `synchronize` flips the epoch
/// and the grace period is over once the count of the old epoch is zero.
pub struct SrcuLock {
    epoch: usize,
    count0: u64,
    count1: u64,
    syncing: bool,
    readers0: Ghost<Set<nat>>,
    readers1: Ghost<Set<nat>>,
    next_id: Ghost<nat>,
    sync_start: Ghost<nat>,
}

impl SrcuLock {
    /// The epoch new readers register in.
    pub closed spec fn epoch(&self) -> usize {
        self.epoch
    }

    /// The registrations still held in epoch `e`.
    pub closed spec fn readers_of(&self, e: usize) -> Set<nat> {
        if e == 0 {
            self.readers0@
        } else {
            self.readers1@
        }
    }

    /// Every registration still held.
    pub open spec fn active(&self) -> Set<nat> {
        self.readers_of(0).union(self.readers_of(1))
    }

    /// Whether a grace period is in progress.
    pub closed spec fn syncing(&self) -> bool {
        self.syncing
    }

    /// The number the next registration gets.
    pub closed spec fn next_id(&self) -> nat {
        self.next_id@
    }

    /// The number of the first registration after the grace period began:
    /// those before it are the readers the writer waits for.
    pub closed spec fn sync_start(&self) -> nat {
        self.sync_start@
    }

    /// Whether `t` is a registration this barrier still holds.
    pub open spec fn holds(&self, t: ReadToken) -> bool {
        t.epoch() < 2 && self.readers_of(t.epoch()).contains(t.id())
    }

    /// The epoch the grace period waits on.
    pub open spec fn old_epoch(&self) -> usize {
        (1 - self.epoch()) as usize
    }

    /// No registration made before the grace period began is still held.
    pub open spec fn pre_sync_readers_gone(&self) -> bool {
        forall|id: nat| #[trigger] self.active().contains(id) ==> id >= self.sync_start()
    }

    /// Room for one more reader in the counters.
    pub open spec fn reader_room(&self) -> bool {
        self.active().len() < u64::MAX
    }

    /// The counters match the registrations; outside a grace period every
    /// registration is in the current epoch; during one, exactly those made
    /// before it began are in the old epoch.
    pub closed spec fn wf(&self) -> bool {
        &&& self.epoch < 2
        &&& self.readers0@.finite()
        &&& self.readers1@.finite()
        &&& self.count0 == self.readers0@.len()
        &&& self.count1 == self.readers1@.len()
        &&& self.readers0@.disjoint(self.readers1@)
        &&& forall|id: nat| #[trigger] self.active().contains(id) ==> id < self.next_id@
        &&& self.sync_start@ <= self.next_id@
        &&& !self.syncing ==> self.readers_of(self.old_epoch()).is_empty()
        &&& self.syncing ==> forall|id: nat| #[trigger]
            self.readers_of(self.epoch).contains(id) ==> id >= self.sync_start@
        &&& self.syncing ==> forall|id: nat| #[trigger]
            self.readers_of(self.old_epoch()).contains(id) ==> id < self.sync_start@
    }

    /// `self` is `old` with the same registrations, epoch and grace period.
    pub open spec fn same_state(&self, old: SrcuLock) -> bool {
        &&& self.epoch() == old.epoch()
        &&& self.syncing() == old.syncing()
        &&& self.sync_start() == old.sync_start()
        &&& self.readers_of(0) == old.readers_of(0)
        &&& self.readers_of(1) == old.readers_of(1)
    }

    /// A barrier with no reader and no grace period.
    pub fn new() -> (r: Self)
        ensures
            r.wf(),
            !r.syncing(),
            r.active().is_empty(),
            r.epoch() == 0,
    {
        let r = SrcuLock {
            epoch: 0,
            count0: 0,
            count1: 0,
            syncing: false,
            readers0: Ghost(Set::empty()),
            readers1: Ghost(Set::empty()),
            next_id: Ghost(0),
            sync_start: Ghost(0),
        };
        assert(r.active() =~= Set::empty());
        r
    }

    /// Registers a reader in the current epoch; never blocks.
    pub fn read_lock(&mut self) -> (t: ReadToken)
        requires
            old(self).wf(),
            old(self).reader_room(),
        ensures
            final(self).wf(),
            final(self).holds(t),
            t.epoch() == old(self).epoch(),
            t.id() == old(self).next_id(),
            !old(self).active().contains(t.id()),
            final(self).next_id() == old(self).next_id() + 1,
            final(self).readers_of(t.epoch()) == old(self).readers_of(t.epoch()).insert(t.id()),
            final(self).readers_of(old(self).old_epoch()) == old(self).readers_of(
                old(self).old_epoch(),
            ),
            final(self).active() == old(self).active().insert(t.id()),
            final(self).epoch() == old(self).epoch(),
            final(self).syncing() == old(self).syncing(),
            final(self).sync_start() == old(self).sync_start(),
    {
        let ghost id = self.next_id@;
        proof {
            vstd::set_lib::lemma_set_disjoint_lens(self.readers0@, self.readers1@);
            assert(!self.active().contains(id));
        }
        if self.epoch == 0 {
            self.count0 = self.count0 + 1;
            self.readers0 = Ghost(self.readers0@.insert(id));
        } else {
            self.count1 = self.count1 + 1;
            self.readers1 = Ghost(self.readers1@.insert(id));
        }
        self.next_id = Ghost(id + 1);
        assert(self.active() =~= old(self).active().insert(id));
        proof {
            if self.syncing {
                assert forall|x: nat| #[trigger]
                    self.readers_of(self.old_epoch()).contains(x) implies x < self.sync_start@ by {
                    assert(old(self).readers_of(old(self).old_epoch()).contains(x));
                }
                assert forall|x: nat| #[trigger]
                    self.readers_of(self.epoch).contains(x) implies x >= self.sync_start@ by {
                    if x != id {
                        assert(old(self).readers_of(old(self).epoch).contains(x));
                    }
                }
            }
        }
        ReadToken { epoch: self.epoch, id: Ghost(id) }
    }

    /// Deregisters the reader of `t`.
    pub fn read_unlock(&mut self, t: ReadToken)
        requires
            old(self).wf(),
            old(self).holds(t),
        ensures
            final(self).wf(),
            final(self).readers_of(t.epoch()) == old(self).readers_of(t.epoch()).remove(t.id()),
            final(self).readers_of((1 - t.epoch()) as usize) == old(self).readers_of(
                (1 - t.epoch()) as usize,
            ),
            final(self).active() == old(self).active().remove(t.id()),
            final(self).next_id() == old(self).next_id(),
            final(self).epoch() == old(self).epoch(),
            final(self).syncing() == old(self).syncing(),
            final(self).sync_start() == old(self).sync_start(),
    {
        let ghost id = t.id@;
        if t.epoch == 0 {
            self.count0 = self.count0 - 1;
            self.readers0 = Ghost(self.readers0@.remove(id));
        } else {
            self.count1 = self.count1 - 1;
            self.readers1 = Ghost(self.readers1@.remove(id));
        }
        assert(self.active() =~= old(self).active().remove(id));
        proof {
            if self.syncing {
                assert forall|x: nat| #[trigger]
                    self.readers_of(self.old_epoch()).contains(x) implies x < self.sync_start@ by {
                    assert(old(self).readers_of(old(self).old_epoch()).contains(x));
                }
                assert forall|x: nat| #[trigger]
                    self.readers_of(self.epoch).contains(x) implies x >= self.sync_start@ by {
                    if x != id {
                        assert(old(self).readers_of(old(self).epoch).contains(x));
                    }
                }
            }
        }
    }

    /// Whether the reader of `t` registered before the grace period in
    /// progress began.
    pub fn registered_before_sync(&self, t: &ReadToken) -> (r: bool)
        requires
            self.wf(),
            self.holds(*t),
        ensures
            r == (self.syncing() && t.epoch() == self.old_epoch()),
    {
        self.syncing && t.epoch != self.epoch
    }

    /// Every registration held was numbered before `next_id()`.
    pub proof fn lemma_active_below_next(&self)
        requires
            self.wf(),
        ensures
            forall|id: nat| #[trigger] self.active().contains(id) ==> id < self.next_id(),
    {
    }

    /// Whether a grace period is in progress.
    pub fn in_grace_period(&self) -> (r: bool)
        ensures
            r == self.syncing(),
    {
        self.syncing
    }

    /// Starts a grace period: flips the epoch so that readers registering from
    /// now on are counted apart from those already registered.
    pub fn begin_synchronize(&mut self)
        requires
            old(self).wf(),
            !old(self).syncing(),
        ensures
            final(self).wf(),
            final(self).syncing(),
            final(self).epoch() == old(self).old_epoch(),
            final(self).sync_start() == old(self).next_id(),
            final(self).next_id() == old(self).next_id(),
            final(self).readers_of(0) == old(self).readers_of(0),
            final(self).readers_of(1) == old(self).readers_of(1),
            final(self).readers_of(final(self).epoch()).is_empty(),
    {
        self.epoch = 1 - self.epoch;
        self.syncing = true;
        self.sync_start = Ghost(self.next_id@);
        proof {
            assert(self.active() =~= old(self).active());
            assert forall|id: nat| #[trigger]
                self.readers_of(self.old_epoch()).contains(id) implies id < self.sync_start@ by {
                assert(old(self).active().contains(id));
            }
        }
    }

    /// Whether the grace period is over: every reader that registered before
    /// it began has deregistered.
    pub fn grace_period_over(&self) -> (r: bool)
        requires
            self.wf(),
            self.syncing(),
        ensures
            r == self.readers_of(self.old_epoch()).is_empty(),
            r == self.pre_sync_readers_gone(),
    {
        proof {
            if self.readers_of(self.old_epoch()).len() == 0 {
                vstd::set_lib::lemma_set_empty_equivalency_len(self.readers_of(self.old_epoch()));
            }
            if !self.readers_of(self.old_epoch()).is_empty() {
                let id = choose|id: nat| self.readers_of(self.old_epoch()).contains(id);
                assert(self.active().contains(id));
                assert(id < self.sync_start());
            }
        }
        if self.epoch == 0 {
            self.count1 == 0
        } else {
            self.count0 == 0
        }
    }

    /// Ends the grace period, once it is over.
    pub fn end_synchronize(&mut self)
        requires
            old(self).wf(),
            old(self).syncing(),
            old(self).pre_sync_readers_gone(),
        ensures
            final(self).wf(),
            !final(self).syncing(),
            final(self).epoch() == old(self).epoch(),
            final(self).next_id() == old(self).next_id(),
            final(self).readers_of(0) == old(self).readers_of(0),
            final(self).readers_of(1) == old(self).readers_of(1),
    {
        proof {
            if !self.readers_of(self.old_epoch()).is_empty() {
                let id = choose|id: nat| self.readers_of(self.old_epoch()).contains(id);
                assert(self.active().contains(id));
            }
        }
        self.syncing = false;
        assert(self.active() =~= old(self).active());
    }
    /// A registration held outside a grace period is in the current epoch;
    /// during one, it is in the old epoch exactly when it was made before the
    /// grace period began.
    pub proof fn lemma_token_epoch(&self, t: ReadToken)
        requires
            self.wf(),
            self.holds(t),
        ensures
            t.id() < self.next_id(),
            !self.syncing() ==> t.epoch() == self.epoch(),
            self.syncing() ==> (t.epoch() == self.old_epoch() <==> t.id() < self.sync_start()),
            self.syncing() && t.epoch() != self.old_epoch() ==> t.epoch() == self.epoch(),
    {
        assert(self.active().contains(t.id()));
        if self.syncing {
            if t.epoch == self.epoch {
                assert(self.readers_of(self.epoch).contains(t.id()));
            } else {
                assert(self.readers_of(self.old_epoch()).contains(t.id()));
            }
        } else {
            if t.epoch != self.epoch {
                assert(self.readers_of(self.old_epoch()).contains(t.id()));
            }
        }
    }
}

} // verus!
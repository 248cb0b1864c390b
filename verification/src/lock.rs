//! The run lock as a lease: an owner and the time until which the owner holds it.

use vstd::prelude::*;

verus! {

/// The lease that guards a target against two runs at once. A holder that
/// dies keeps the lock only until the lease runs out.
#[derive(Clone, Copy, Debug, PartialEq, Eq, Structural)]
pub struct RunLock {
    /// Who took the lock last and has not given it back.
    pub owner: Option<u64>,
    /// The first instant at which the lease is no longer valid.
    pub expires_at: u64,
}

/// The end of a lease taken at `now` for `lease` time units; it saturates at
/// the largest time.
pub open spec fn lease_end(now: u64, lease: u64) -> u64 {
    if now + lease > u64::MAX {
        u64::MAX
    } else {
        (now + lease) as u64
    }
}

impl RunLock {
    /// Who holds the lock at `now`: the owner, while the lease is valid.
    pub open spec fn holder_at(self, now: u64) -> Option<u64> {
        if self.owner is Some && now < self.expires_at {
            self.owner
        } else {
            None
        }
    }

    /// Whether `owner` may take the lock at `now`: nobody else holds it.
    pub open spec fn grants(self, owner: u64, now: u64) -> bool {
        self.holder_at(now) is None || self.holder_at(now) == Some(owner)
    }

    /// The lock after `owner` asked for it at `now`.
    pub open spec fn acquired(self, owner: u64, now: u64, lease: u64) -> RunLock {
        if self.grants(owner, now) {
            RunLock { owner: Some(owner), expires_at: lease_end(now, lease) }
        } else {
            self
        }
    }

    /// The lock after `owner` gave it back.
    pub open spec fn released(self, owner: u64) -> RunLock {
        if self.owner == Some(owner) {
            RunLock { owner: None, expires_at: 0 }
        } else {
            self
        }
    }

    /// A lock that nobody holds.
    pub fn new() -> (r: RunLock)
        ensures
            r == (RunLock { owner: None, expires_at: 0 }),
            forall|now: u64| r.holder_at(now) is None,
    {
        RunLock { owner: None, expires_at: 0 }
    }

    /// Tells who holds the lock at `now`.
    pub fn holder(&self, now: u64) -> (r: Option<u64>)
        ensures
            r == self.holder_at(now),
    {
        match self.owner {
            Some(o) => if now < self.expires_at {
                Some(o)
            } else {
                None
            },
            None => None,
        }
    }

    /// Asks for the lock at `now`, for `lease` time units. The lock is
    /// granted when nobody else holds it at `now`; the holder may ask again
    /// to extend the lease. A refused request changes nothing.
    pub fn try_acquire(&mut self, owner: u64, now: u64, lease: u64) -> (granted: bool)
        ensures
            granted == old(self).grants(owner, now),
            *final(self) == old(self).acquired(owner, now, lease),
    {
        let free = match self.holder(now) {
            Some(o) => o == owner,
            None => true,
        };
        if free {
            self.owner = Some(owner);
            self.expires_at = now.saturating_add(lease);
        }
        free
    }

    /// Gives the lock back. Only the owner can; for anybody else nothing changes.
    pub fn release(&mut self, owner: u64) -> (released: bool)
        ensures
            released == (old(self).owner == Some(owner)),
            *final(self) == old(self).released(owner),
    {
        let mine = match self.owner {
            Some(o) => o == owner,
            None => false,
        };
        if mine {
            self.owner = None;
            self.expires_at = 0;
        }
        mine
    }
}

/// At most one run holds the lock at any instant: while one owner holds it,
/// every other owner is refused, and neither the refused request nor an
/// attempt of the other to release changes who holds it.
pub proof fn lemma_lock_excludes(
    lock: RunLock,
    holder: u64,
    other: u64,
    now: u64,
    lease: u64,
)
    requires
        lock.holder_at(now) == Some(holder),
        other != holder,
    ensures
        !lock.grants(other, now),
        lock.acquired(other, now, lease) == lock,
        lock.released(other) == lock,
{
}

/// A granted lock is held by the one who asked, from the instant of the
/// grant until the lease ends; once the lease has ended, or the holder has
/// given the lock back, it is free for another.
pub proof fn lemma_lock_lease(lock: RunLock, owner: u64, other: u64, now: u64, lease: u64, later: u64)
    requires
        lock.grants(owner, now),
        now <= later,
    ensures
        later < lease_end(now, lease) ==> lock.acquired(owner, now, lease).holder_at(later)
            == Some(owner),
        later >= lease_end(now, lease) ==> lock.acquired(owner, now, lease).grants(other, later),
        lock.acquired(owner, now, lease).released(owner).grants(other, later),
{
}

} // verus!

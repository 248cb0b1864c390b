//! A backend that keeps everything in memory: the reference adapter.

use vstd::prelude::*;
use crate::filename::Direction;
use crate::ledger::{entry_views, find_in_force, EntryStatus, LedgerEntry, LedgerEntryView};
use crate::lock::RunLock;
use crate::migrations::copy_bytes;
use crate::reserved::BackendKind;
use crate::runner::{Backend, Execution};

verus! {

/// A data store that lives in memory. It executes a migration by writing its
/// content down, and refuses the one content that it was told to refuse: as
/// a whole where its kind has transactions, part-way where it has none.
#[derive(Debug)]
pub struct MemoryBackend {
    pub kind: BackendKind,
    /// The name under which this store asks for the run lock.
    pub owner: u64,
    /// For how long a granted lock is held without renewal.
    pub lease: u64,
    pub clock: u64,
    pub lock: RunLock,
    pub storage_ready: bool,
    pub ledger: Vec<LedgerEntry>,
    /// The contents executed in full, in order.
    pub executed: Vec<Vec<u8>>,
    /// The content that the store refuses to execute.
    pub refused: Option<Vec<u8>>,
}

/// Tells whether two byte strings are equal.
pub fn same_bytes(a: &Vec<u8>, b: &Vec<u8>) -> (r: bool)
    ensures
        r == (a@ == b@),
{
    if a.len() != b.len() {
        return false;
    }
    let mut i: usize = 0;
    while i < a.len()
        invariant
            a.len() == b.len(),
            i <= a.len(),
            forall|k: int| 0 <= k < i ==> a@[k] == b@[k],
        decreases a.len() - i,
    {
        if a[i] != b[i] {
            return false;
        }
        i = i + 1;
    }
    assert(a@ =~= b@);
    true
}

/// The ledger after an entry was stored in it: an entry that is marked as
/// reverted takes the place of the entry in force for its version, any other
/// entry is added. Nothing changes where a reverted entry finds no entry in
/// force, or an applied entry finds one.
pub open spec fn stored(ledger: Seq<LedgerEntryView>, entry: LedgerEntryView) -> Option<
    Seq<LedgerEntryView>,
> {
    let i = crate::ledger::first_in_force(ledger, entry.version, 0);
    match entry.status {
        EntryStatus::Reverted => if i < ledger.len() {
            Some(ledger.update(i, entry))
        } else {
            None
        },
        EntryStatus::Applied => if i < ledger.len() {
            None
        } else {
            Some(ledger.push(entry))
        },
        EntryStatus::Failed => Some(ledger.push(entry)),
    }
}

impl MemoryBackend {
    /// An empty store of the given kind with a free lock.
    pub fn new(kind: BackendKind, owner: u64) -> (r: MemoryBackend)
        ensures
            r.kind == kind,
            r.owner == owner,
            r.lease == 60,
            r.clock == 0,
            r.lock.owner is None,
            r.ledger@.len() == 0,
            r.executed@.len() == 0,
            r.refused is None,
            !r.storage_ready,
    {
        MemoryBackend {
            kind,
            owner,
            lease: 60,
            clock: 0,
            lock: RunLock::new(),
            storage_ready: false,
            ledger: Vec::new(),
            executed: Vec::new(),
            refused: None,
        }
    }

    /// Stores a ledger entry; `false`, with nothing changed, where the
    /// ledger cannot take it.
    pub fn store_entry(&mut self, entry: &LedgerEntry) -> (r: bool)
        ensures
            match stored(entry_views(old(self).ledger@), entry@) {
                Some(ledger) => r && entry_views(final(self).ledger@) == ledger,
                None => !r && final(self).ledger@ == old(self).ledger@,
            },
            final(self).executed == old(self).executed,
            final(self).lock == old(self).lock,
    {
        let ghost before = entry_views(self.ledger@);
        let copy = LedgerEntry {
            version: entry.version,
            slug: entry.slug.clone(),
            checksum: entry.checksum,
            applied_at: entry.applied_at,
            status: entry.status,
        };
        let i = find_in_force(&self.ledger, entry.version);
        match entry.status {
            EntryStatus::Reverted => {
                if i < self.ledger.len() {
                    self.ledger.set(i, copy);
                    assert(entry_views(self.ledger@) =~= before.update(i as int, entry@));
                    true
                } else {
                    false
                }
            },
            EntryStatus::Applied => {
                if i < self.ledger.len() {
                    false
                } else {
                    self.ledger.push(copy);
                    assert(entry_views(self.ledger@) =~= before.push(entry@));
                    true
                }
            },
            EntryStatus::Failed => {
                self.ledger.push(copy);
                assert(entry_views(self.ledger@) =~= before.push(entry@));
                true
            },
        }
    }

    /// The store refuses this content.
    pub open spec fn refuses(&self, content: Seq<u8>) -> bool {
        self.refused matches Some(bad) && bad@ == content
    }

    /// Executes a content: writes it down, unless it is the refused one.
    pub fn run_content(&mut self, content: &Vec<u8>) -> (r: Execution)
        ensures
            final(self).ledger == old(self).ledger,
            final(self).lock == old(self).lock,
            old(self).refuses(content@) ==> {
                &&& final(self).executed == old(self).executed
                &&& !(r is Done)
                &&& r is Failed <==> old(self).kind == BackendKind::Relational
            },
            !old(self).refuses(content@) ==> {
                &&& r is Done
                &&& final(self).executed@.len() == old(self).executed@.len() + 1
                &&& final(self).executed@.last()@ == content@
            },
    {
        let refuse = match &self.refused {
            Some(bad) => same_bytes(bad, content),
            None => false,
        };
        if refuse {
            match self.kind {
                BackendKind::Relational => Execution::Failed { detail: String::new() },
                _ => Execution::Partial { detail: String::new() },
            }
        } else {
            self.executed.push(copy_bytes(content));
            Execution::Done
        }
    }
}

impl Backend for MemoryBackend {
    fn acquire_run_lock(&mut self) -> (r: bool)
        ensures
            r == old(self).lock.grants(old(self).owner, old(self).clock),
            final(self).lock == old(self).lock.acquired(
                old(self).owner,
                old(self).clock,
                old(self).lease,
            ),
            final(self).ledger == old(self).ledger,
            final(self).executed == old(self).executed,
    {
        self.lock.try_acquire(self.owner, self.clock, self.lease)
    }

    fn release_run_lock(&mut self)
        ensures
            final(self).lock == old(self).lock.released(old(self).owner),
            final(self).ledger == old(self).ledger,
            final(self).executed == old(self).executed,
    {
        self.lock.release(self.owner);
    }

    fn ensure_ledger_storage(&mut self) -> (r: bool)
        ensures
            r,
            final(self).storage_ready,
            final(self).ledger == old(self).ledger,
    {
        self.storage_ready = true;
        true
    }

    fn read_ledger(&mut self) -> (r: Vec<LedgerEntry>)
        ensures
            entry_views(r@) == entry_views(old(self).ledger@),
            final(self).ledger == old(self).ledger,
    {
        let mut r: Vec<LedgerEntry> = Vec::new();
        let mut i: usize = 0;
        while i < self.ledger.len()
            invariant
                i <= self.ledger.len(),
                *self == *old(self),
                r@.len() == i,
                forall|k: int| 0 <= k < i ==> (#[trigger] r@[k])@ == self.ledger@[k]@,
            decreases self.ledger.len() - i,
        {
            r.push(
                LedgerEntry {
                    version: self.ledger[i].version,
                    slug: self.ledger[i].slug.clone(),
                    checksum: self.ledger[i].checksum,
                    applied_at: self.ledger[i].applied_at,
                    status: self.ledger[i].status,
                },
            );
            i = i + 1;
        }
        assert(entry_views(r@) =~= entry_views(self.ledger@));
        r
    }

    fn write_ledger(&mut self, entry: &LedgerEntry) -> (r: bool)
        ensures
            match stored(entry_views(old(self).ledger@), entry@) {
                Some(ledger) => r && entry_views(final(self).ledger@) == ledger,
                None => !r && final(self).ledger@ == old(self).ledger@,
            },
            final(self).executed == old(self).executed,
            final(self).lock == old(self).lock,
    {
        self.store_entry(entry)
    }

    fn execute(&mut self, content: &Vec<u8>, direction: Direction) -> (r: Execution)
        ensures
            final(self).ledger == old(self).ledger,
            final(self).lock == old(self).lock,
            old(self).refuses(content@) ==> {
                &&& final(self).executed == old(self).executed
                &&& !(r is Done)
                &&& r is Failed <==> old(self).kind == BackendKind::Relational
            },
            !old(self).refuses(content@) ==> {
                &&& r is Done
                &&& final(self).executed@.len() == old(self).executed@.len() + 1
                &&& final(self).executed@.last()@ == content@
            },
    {
        self.run_content(content)
    }

    fn now(&mut self) -> (r: u64)
        ensures
            r == final(self).clock,
            final(self).clock == if old(self).clock == u64::MAX {
                u64::MAX
            } else {
                (old(self).clock + 1) as u64
            },
            final(self).ledger == old(self).ledger,
            final(self).lock == old(self).lock,
            final(self).executed == old(self).executed,
    {
        self.clock = self.clock.saturating_add(1);
        self.clock
    }
}

} // verus!

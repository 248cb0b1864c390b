//! The ledger: which migrations were applied, when, and with what checksum.

use vstd::prelude::*;
use crate::migrations::{ascending, migration_views, Migration, MigrationView};

verus! {

/// What a ledger entry says of its migration.
#[derive(Clone, Copy, Debug, PartialEq, Eq, Structural)]
pub enum EntryStatus {
    /// The migration is in force.
    Applied,
    /// The migration was applied and later taken back.
    Reverted,
    /// A backend without transactions stopped part-way through the migration.
    Failed,
}

/// One record of the ledger.
#[derive(Clone, Debug, PartialEq, Eq)]
pub struct LedgerEntry {
    pub version: u64,
    pub slug: String,
    pub checksum: u64,
    pub applied_at: u64,
    pub status: EntryStatus,
}

/// Mathematical content of a [`LedgerEntry`].
pub struct LedgerEntryView {
    pub version: u64,
    pub slug: Seq<char>,
    pub checksum: u64,
    pub applied_at: u64,
    pub status: EntryStatus,
}

impl View for LedgerEntry {
    type V = LedgerEntryView;

    open spec fn view(&self) -> LedgerEntryView {
        LedgerEntryView {
            version: self.version,
            slug: self.slug@,
            checksum: self.checksum,
            applied_at: self.applied_at,
            status: self.status,
        }
    }
}

/// Why the ledger refused a record.
#[derive(Clone, Copy, Debug, PartialEq, Eq, Structural)]
pub enum LedgerError {
    /// The version already has an entry in force.
    AlreadyApplied,
    /// The version has no entry in force.
    NotApplied,
}

/// The contents of the entries, in order.
pub open spec fn entry_views(entries: Seq<LedgerEntry>) -> Seq<LedgerEntryView> {
    Seq::new(entries.len(), |i: int| entries[i]@)
}

/// Entry `i` is in force for `version`.
pub open spec fn in_force_at(entries: Seq<LedgerEntryView>, version: u64, i: int) -> bool {
    0 <= i < entries.len() && entries[i].version == version && entries[i].status
        == EntryStatus::Applied
}

/// Some entry is in force for `version`.
pub open spec fn is_applied(entries: Seq<LedgerEntryView>, version: u64) -> bool {
    exists|i: int| #[trigger] in_force_at(entries, version, i)
}

/// No version has two entries in force.
pub open spec fn at_most_one_applied(entries: Seq<LedgerEntryView>) -> bool {
    forall|i: int, j: int, version: u64|
        #[trigger] in_force_at(entries, version, i) && #[trigger] in_force_at(entries, version, j)
            ==> i == j
}

/// Index of the first entry at or after `from` that is in force for `version`,
/// or `entries.len()` when there is none.
pub open spec fn first_in_force(entries: Seq<LedgerEntryView>, version: u64, from: int) -> int
    decreases entries.len() - from,
{
    if from < 0 || from >= entries.len() {
        entries.len() as int
    } else if in_force_at(entries, version, from) {
        from
    } else {
        first_in_force(entries, version, from + 1)
    }
}

/// `first_in_force` finds an entry exactly when one is in force.
pub proof fn lemma_first_in_force(entries: Seq<LedgerEntryView>, version: u64, from: int)
    requires
        0 <= from <= entries.len(),
    ensures
        from <= first_in_force(entries, version, from) <= entries.len(),
        first_in_force(entries, version, from) < entries.len() ==> in_force_at(
            entries,
            version,
            first_in_force(entries, version, from),
        ),
        forall|i: int|
            from <= i < first_in_force(entries, version, from) ==> !in_force_at(entries, version, i),
    decreases entries.len() - from,
{
    if from < entries.len() && !in_force_at(entries, version, from) {
        lemma_first_in_force(entries, version, from + 1);
    }
}

/// The entry with its status replaced.
pub open spec fn with_status(e: LedgerEntryView, status: EntryStatus) -> LedgerEntryView {
    LedgerEntryView { status, ..e }
}

/// The entry with its status and time replaced.
pub open spec fn reverted_at(e: LedgerEntryView, at: u64) -> LedgerEntryView {
    LedgerEntryView { status: EntryStatus::Reverted, applied_at: at, ..e }
}

/// Whether a run wants the migration: its version has an entry in force, or
/// has none, as `in_force` asks, and is the version `only` names, if it names one.
pub open spec fn wanted(
    applied: Seq<LedgerEntryView>,
    m: MigrationView,
    in_force: bool,
    only: Option<u64>,
) -> bool {
    &&& is_applied(applied, m.parsed.id.version) == in_force
    &&& (only matches Some(v) ==> m.parsed.id.version == v)
}

/// The wanted migrations of `discovered`, in the order of `discovered`.
pub open spec fn select_spec(
    applied: Seq<LedgerEntryView>,
    discovered: Seq<MigrationView>,
    in_force: bool,
    only: Option<u64>,
) -> Seq<MigrationView>
    decreases discovered.len(),
{
    if discovered.len() == 0 {
        Seq::empty()
    } else {
        let rest = select_spec(applied, discovered.drop_last(), in_force, only);
        if wanted(applied, discovered.last(), in_force, only) {
            rest.push(discovered.last())
        } else {
            rest
        }
    }
}

/// The migrations of `discovered` that have no entry in force, in the order
/// of `discovered`.
pub open spec fn pending_spec(
    applied: Seq<LedgerEntryView>,
    discovered: Seq<MigrationView>,
) -> Seq<MigrationView> {
    select_spec(applied, discovered, false, None)
}

/// A selection keeps nothing but wanted migrations of the list it was made
/// from, and keeps them in their order: its members are wanted, no larger in
/// version than the last migration of the list, and strictly ascending where
/// the list is.
pub proof fn lemma_select_sound(
    applied: Seq<LedgerEntryView>,
    discovered: Seq<MigrationView>,
    in_force: bool,
    only: Option<u64>,
)
    requires
        ascending(discovered),
    ensures
        ascending(select_spec(applied, discovered, in_force, only)),
        select_spec(applied, discovered, in_force, only).len() <= discovered.len(),
        forall|i: int|
            0 <= i < select_spec(applied, discovered, in_force, only).len() ==> {
                let m = #[trigger] select_spec(applied, discovered, in_force, only)[i];
                &&& wanted(applied, m, in_force, only)
                &&& discovered.contains(m)
            },
    decreases discovered.len(),
{
    if discovered.len() > 0 {
        let init = discovered.drop_last();
        let last = discovered.last();
        assert forall|i: int, j: int| 0 <= i < j < init.len() implies (#[trigger] init[i]).parsed.id.version
            < (#[trigger] init[j]).parsed.id.version by {
            assert(init[i] == discovered[i] && init[j] == discovered[j]);
        }
        lemma_select_sound(applied, init, in_force, only);
        let rest = select_spec(applied, init, in_force, only);
        let all = select_spec(applied, discovered, in_force, only);
        assert forall|i: int| 0 <= i < rest.len() implies discovered.contains(#[trigger] rest[i])
            && rest[i].parsed.id.version < last.parsed.id.version by {
            assert(init.contains(rest[i]));
            let k = choose|k: int| 0 <= k < init.len() && init[k] == rest[i];
            assert(discovered[k] == rest[i]);
            assert(discovered[discovered.len() - 1] == last);
        }
        assert forall|i: int| 0 <= i < all.len() implies {
            let m = #[trigger] all[i];
            &&& wanted(applied, m, in_force, only)
            &&& discovered.contains(m)
        } by {
            if i < rest.len() {
                assert(all[i] == rest[i]);
            } else {
                assert(all[i] == last);
                assert(discovered[discovered.len() - 1] == last);
            }
        }
        assert forall|i: int, j: int| 0 <= i < j < all.len() implies (#[trigger] all[i]).parsed.id.version
            < (#[trigger] all[j]).parsed.id.version by {
            assert(all[i] == rest[i]);
            if j < rest.len() {
                assert(all[j] == rest[j]);
            }
        }
    }
}

/// A selection misses no wanted migration.
pub proof fn lemma_select_complete(
    applied: Seq<LedgerEntryView>,
    discovered: Seq<MigrationView>,
    in_force: bool,
    only: Option<u64>,
    k: int,
)
    requires
        0 <= k < discovered.len(),
        wanted(applied, discovered[k], in_force, only),
    ensures
        select_spec(applied, discovered, in_force, only).contains(discovered[k]),
    decreases discovered.len(),
{
    let init = discovered.drop_last();
    let rest = select_spec(applied, init, in_force, only);
    let all = select_spec(applied, discovered, in_force, only);
    if k == discovered.len() - 1 {
        assert(all[all.len() - 1] == discovered[k]);
    } else {
        assert(init[k] == discovered[k]);
        lemma_select_complete(applied, init, in_force, only, k);
        let i = choose|i: int| 0 <= i < rest.len() && rest[i] == discovered[k];
        assert(all[i] == discovered[k]);
    }
}

/// Where nothing is wanted, nothing is selected. In particular, once every
/// discovered migration has an entry in force, nothing is pending.
pub proof fn lemma_select_nothing(
    applied: Seq<LedgerEntryView>,
    discovered: Seq<MigrationView>,
    in_force: bool,
    only: Option<u64>,
)
    requires
        forall|k: int|
            0 <= k < discovered.len() ==> !wanted(applied, #[trigger] discovered[k], in_force, only),
    ensures
        select_spec(applied, discovered, in_force, only) == Seq::<MigrationView>::empty(),
    decreases discovered.len(),
{
    if discovered.len() > 0 {
        let init = discovered.drop_last();
        assert forall|k: int| 0 <= k < init.len() implies !wanted(
            applied,
            #[trigger] init[k],
            in_force,
            only,
        ) by {
            assert(init[k] == discovered[k]);
        }
        lemma_select_nothing(applied, init, in_force, only);
        assert(!wanted(applied, discovered[discovered.len() - 1], in_force, only));
    }
}

/// Where everything is wanted, everything is selected. In particular, with
/// an empty ledger every discovered migration is pending.
pub proof fn lemma_select_everything(
    applied: Seq<LedgerEntryView>,
    discovered: Seq<MigrationView>,
    in_force: bool,
    only: Option<u64>,
)
    requires
        forall|k: int|
            0 <= k < discovered.len() ==> wanted(applied, #[trigger] discovered[k], in_force, only),
    ensures
        select_spec(applied, discovered, in_force, only) == discovered,
    decreases discovered.len(),
{
    if discovered.len() > 0 {
        let init = discovered.drop_last();
        assert forall|k: int| 0 <= k < init.len() implies wanted(
            applied,
            #[trigger] init[k],
            in_force,
            only,
        ) by {
            assert(init[k] == discovered[k]);
        }
        lemma_select_everything(applied, init, in_force, only);
        assert(wanted(applied, discovered[discovered.len() - 1], in_force, only));
        assert(init.push(discovered.last()) =~= discovered);
    } else {
        assert(discovered =~= Seq::<MigrationView>::empty());
    }
}

/// A migration has drifted when its content no longer has the checksum that
/// was recorded for it.
pub open spec fn drift_spec(m: MigrationView, e: LedgerEntryView) -> bool {
    m.checksum != e.checksum
}

fn copy_entry(e: &LedgerEntry) -> (r: LedgerEntry)
    ensures
        r@ == e@,
{
    LedgerEntry {
        version: e.version,
        slug: e.slug.clone(),
        checksum: e.checksum,
        applied_at: e.applied_at,
        status: e.status,
    }
}

/// Finds the entry in force for a version.
pub fn find_in_force(entries: &Vec<LedgerEntry>, version: u64) -> (r: usize)
    ensures
        r == first_in_force(entry_views(entries@), version, 0),
        r <= entries.len(),
        r < entries.len() <==> is_applied(entry_views(entries@), version),
{
    let ghost views = entry_views(entries@);
    let mut i: usize = 0;
    while i < entries.len() && !(entries[i].version == version && entries[i].status
        == EntryStatus::Applied)
        invariant
            i <= entries.len(),
            views == entry_views(entries@),
            first_in_force(views, version, 0) == first_in_force(views, version, i as int),
        decreases entries.len() - i,
    {
        assert(!in_force_at(views, version, i as int));
        i = i + 1;
    }
    proof {
        assert(i < entries.len() ==> in_force_at(views, version, i as int));
        lemma_first_in_force(views, version, 0);
        let f = first_in_force(views, version, 0);
        if f < views.len() {
            assert(in_force_at(views, version, f));
        } else {
            assert forall|k: int| !#[trigger] in_force_at(views, version, k) by {}
        }
    }
    i
}

/// Tells whether two entries in force share a version.
pub fn check_at_most_one_applied(entries: &Vec<LedgerEntry>) -> (r: bool)
    ensures
        r == at_most_one_applied(entry_views(entries@)),
{
    let ghost views = entry_views(entries@);
    let mut j: usize = 0;
    while j < entries.len()
        invariant
            j <= entries.len(),
            views == entry_views(entries@),
            forall|a: int, b: int, version: u64|
                #[trigger] in_force_at(views, version, a) && #[trigger] in_force_at(
                    views,
                    version,
                    b,
                ) && a < b < j ==> false,
        decreases entries.len() - j,
    {
        if entries[j].status == EntryStatus::Applied {
            let mut i: usize = 0;
            while i < j
                invariant
                    i <= j < entries.len(),
                    views == entry_views(entries@),
                    entries@[j as int].status == EntryStatus::Applied,
                    forall|a: int|
                        0 <= a < i ==> !#[trigger] in_force_at(
                            views,
                            entries@[j as int].version,
                            a,
                        ),
                decreases j - i,
            {
                if entries[i].status == EntryStatus::Applied && entries[i].version
                    == entries[j].version {
                    assert(in_force_at(views, entries@[j as int].version, i as int));
                    assert(in_force_at(views, entries@[j as int].version, j as int));
                    return false;
                }
                i = i + 1;
            }
        }
        j = j + 1;
    }
    assert forall|a: int, b: int, version: u64|
        #[trigger] in_force_at(views, version, a) && #[trigger] in_force_at(
            views,
            version,
            b,
        ) implies a == b by {
        if a < b {
            assert(a < b < entries.len());
        } else if b < a {
            assert(b < a < entries.len());
        }
    }
    true
}

/// The record of what was applied: entries are added and marked, never
/// removed, and no version has two entries in force.
#[derive(Debug)]
pub struct Ledger {
    entries: Vec<LedgerEntry>,
}

impl View for Ledger {
    type V = Seq<LedgerEntryView>;

    closed spec fn view(&self) -> Seq<LedgerEntryView> {
        entry_views(self.entries@)
    }
}

impl Ledger {
    /// The invariant of the ledger: no version has two entries in force.
    pub open spec fn well_formed(&self) -> bool {
        at_most_one_applied(self@)
    }

    /// A ledger without entries.
    pub fn new() -> (r: Ledger)
        ensures
            r@ == Seq::<LedgerEntryView>::empty(),
            r.well_formed(),
    {
        let r = Ledger { entries: Vec::new() };
        assert(r@ =~= Seq::<LedgerEntryView>::empty());
        r
    }

    /// A ledger with the given entries, or `None` where two entries in force
    /// share a version.
    pub fn from_entries(entries: Vec<LedgerEntry>) -> (r: Option<Ledger>)
        ensures
            match r {
                Some(l) => l@ == entry_views(entries@) && l.well_formed(),
                None => !at_most_one_applied(entry_views(entries@)),
            },
    {
        if check_at_most_one_applied(&entries) {
            Some(Ledger { entries })
        } else {
            None
        }
    }

    /// The entries, oldest first.
    pub fn entries(&self) -> (r: &Vec<LedgerEntry>)
        ensures
            entry_views(r@) == self@,
    {
        &self.entries
    }

    /// Number of entries.
    pub fn len(&self) -> (r: usize)
        ensures
            r == self@.len(),
    {
        self.entries.len()
    }

    /// Tells whether the version has an entry in force.
    pub fn has_applied(&self, version: u64) -> (r: bool)
        ensures
            r == is_applied(self@, version),
    {
        find_in_force(&self.entries, version) < self.entries.len()
    }

    /// Records that a migration was applied: adds the entry, marked as in
    /// force. Refused, with the ledger left as it was, where the version
    /// already has an entry in force.
    pub fn record_applied(&mut self, entry: LedgerEntry) -> (r: Result<(), LedgerError>)
        requires
            old(self).well_formed(),
        ensures
            final(self).well_formed(),
            is_applied(old(self)@, entry.version) ==> r == Err::<(), LedgerError>(
                LedgerError::AlreadyApplied,
            ) && final(self)@ == old(self)@,
            !is_applied(old(self)@, entry.version) ==> r == Ok::<(), LedgerError>(())
                && final(self)@ == old(self)@.push(with_status(entry@, EntryStatus::Applied)),
    {
        if self.has_applied(entry.version) {
            return Err(LedgerError::AlreadyApplied);
        }
        let ghost before = self@;
        let added = LedgerEntry {
            version: entry.version,
            slug: entry.slug,
            checksum: entry.checksum,
            applied_at: entry.applied_at,
            status: EntryStatus::Applied,
        };
        self.entries.push(added);
        proof {
            let after = self@;
            assert(after =~= before.push(with_status(entry@, EntryStatus::Applied)));
            assert forall|i: int, j: int, version: u64|
                #[trigger] in_force_at(after, version, i) && #[trigger] in_force_at(
                    after,
                    version,
                    j,
                ) implies i == j by {
                if i < before.len() {
                    assert(in_force_at(before, version, i));
                }
                if j < before.len() {
                    assert(in_force_at(before, version, j));
                }
            }
        }
        Ok(())
    }

    /// Records that a backend without transactions stopped part-way through a
    /// migration: adds the entry, marked as failed.
    pub fn record_failed(&mut self, entry: LedgerEntry)
        requires
            old(self).well_formed(),
        ensures
            final(self).well_formed(),
            final(self)@ == old(self)@.push(with_status(entry@, EntryStatus::Failed)),
    {
        let ghost before = self@;
        let added = LedgerEntry {
            version: entry.version,
            slug: entry.slug,
            checksum: entry.checksum,
            applied_at: entry.applied_at,
            status: EntryStatus::Failed,
        };
        self.entries.push(added);
        proof {
            let after = self@;
            assert(after =~= before.push(with_status(entry@, EntryStatus::Failed)));
            assert forall|i: int, j: int, version: u64|
                #[trigger] in_force_at(after, version, i) && #[trigger] in_force_at(
                    after,
                    version,
                    j,
                ) implies i == j by {
                if i < before.len() {
                    assert(in_force_at(before, version, i));
                }
                if j < before.len() {
                    assert(in_force_at(before, version, j));
                }
            }
        }
    }

    /// Records that a migration was taken back: the entry in force for the
    /// version is marked as reverted at the given time; nothing is removed.
    /// Refused, with the ledger left as it was, where the version has no
    /// entry in force.
    pub fn record_reverted(&mut self, version: u64, at: u64) -> (r: Result<(), LedgerError>)
        requires
            old(self).well_formed(),
        ensures
            final(self).well_formed(),
            !is_applied(old(self)@, version) ==> r == Err::<(), LedgerError>(
                LedgerError::NotApplied,
            ) && final(self)@ == old(self)@,
            is_applied(old(self)@, version) ==> r == Ok::<(), LedgerError>(()) && final(self)@
                == old(self)@.update(
                first_in_force(old(self)@, version, 0),
                reverted_at(old(self)@[first_in_force(old(self)@, version, 0)], at),
            ),
            !is_applied(final(self)@, version),
    {
        let i = find_in_force(&self.entries, version);
        if i >= self.entries.len() {
            return Err(LedgerError::NotApplied);
        }
        let ghost before = self@;
        proof {
            lemma_first_in_force(before, version, 0);
        }
        let changed = LedgerEntry {
            version: self.entries[i].version,
            slug: self.entries[i].slug.clone(),
            checksum: self.entries[i].checksum,
            applied_at: at,
            status: EntryStatus::Reverted,
        };
        self.entries.set(i, changed);
        proof {
            let after = self@;
            assert(after =~= before.update(i as int, reverted_at(before[i as int], at)));
            assert forall|a: int, v: u64| #[trigger] in_force_at(after, v, a) implies in_force_at(
                before,
                v,
                a,
            ) && a != i by {}
            assert forall|a: int| !#[trigger] in_force_at(after, version, a) by {
                if in_force_at(after, version, a) {
                    assert(in_force_at(before, version, a));
                    assert(in_force_at(before, version, i as int));
                }
            }
        }
        Ok(())
    }
}

/// The migrations a run works on: those of `discovered` that have an entry in
/// force among `applied`, or that have none, as `in_force` asks, cut down to
/// the version `only` where it is given; in the order of `discovered`.
pub fn select(
    applied: &Vec<LedgerEntry>,
    discovered: &Vec<Migration>,
    in_force: bool,
    only: Option<u64>,
) -> (r: Vec<Migration>)
    ensures
        migration_views(r@) == select_spec(
            entry_views(applied@),
            migration_views(discovered@),
            in_force,
            only,
        ),
{
    let ghost entries = entry_views(applied@);
    let ghost all = migration_views(discovered@);
    let mut r: Vec<Migration> = Vec::new();
    let mut k: usize = 0;
    assert(migration_views(r@) =~= Seq::<MigrationView>::empty());
    while k < discovered.len()
        invariant
            k <= discovered.len(),
            entries == entry_views(applied@),
            all == migration_views(discovered@),
            migration_views(r@) == select_spec(entries, all.subrange(0, k as int), in_force, only),
        decreases discovered.len() - k,
    {
        let ghost before = migration_views(r@);
        assert(all.subrange(0, k + 1).drop_last() == all.subrange(0, k as int));
        assert(all.subrange(0, k + 1).last() == discovered@[k as int]@);
        let version = discovered[k].version();
        let found = find_in_force(applied, version) < applied.len();
        let named = match only {
            Some(v) => version == v,
            None => true,
        };
        if found == in_force && named {
            r.push(discovered[k].duplicate());
            assert(migration_views(r@) =~= before.push(discovered@[k as int]@));
        }
        k = k + 1;
    }
    assert(all.subrange(0, discovered.len() as int) == all);
    r
}

/// The migrations still to apply: those of `discovered` whose version has no
/// entry in force among `applied`, in the order of `discovered`.
pub fn pending_since(applied: &Vec<LedgerEntry>, discovered: &Vec<Migration>) -> (r: Vec<Migration>)
    ensures
        migration_views(r@) == pending_spec(entry_views(applied@), migration_views(discovered@)),
{
    select(applied, discovered, false, None)
}

/// Tells whether the content of a migration changed after it was applied.
pub fn detect_drift(migration: &Migration, entry: &LedgerEntry) -> (r: bool)
    ensures
        r == drift_spec(migration@, entry@),
{
    migration.checksum != entry.checksum
}

} // verus!

use mitre::ledger::{
    detect_drift, find_in_force, pending_since, select, EntryStatus, Ledger, LedgerEntry,
    LedgerError,
};
use mitre::lock::RunLock;
use mitre::migrations::{discover, Migration, SourceFile};
use mitre::reserved::BackendKind;

fn entry(version: u64, checksum: u64, status: EntryStatus) -> LedgerEntry {
    LedgerEntry { version, slug: format!("m{}", version), checksum, applied_at: 100, status }
}

fn three() -> Vec<Migration> {
    let files = vec![
        SourceFile { name: "1_one.up.sql".to_string(), content: b"a".to_vec() },
        SourceFile { name: "2_two.up.sql".to_string(), content: b"b".to_vec() },
        SourceFile { name: "3_three.up.sql".to_string(), content: b"c".to_vec() },
    ];
    discover(&files, BackendKind::Relational).unwrap()
}

fn versions(list: &Vec<Migration>) -> Vec<u64> {
    list.iter().map(|m| m.parsed.id.version).collect()
}

#[test]
fn everything_is_pending_on_an_empty_ledger() {
    assert_eq!(versions(&pending_since(&Vec::new(), &three())), vec![1, 2, 3]);
}

#[test]
fn pending_is_the_difference_by_version_in_discovery_order() {
    let applied = vec![entry(2, 0, EntryStatus::Applied)];
    assert_eq!(versions(&pending_since(&applied, &three())), vec![1, 3]);
    let all = vec![
        entry(3, 0, EntryStatus::Applied),
        entry(1, 0, EntryStatus::Applied),
        entry(2, 0, EntryStatus::Applied),
    ];
    assert_eq!(versions(&pending_since(&all, &three())), Vec::<u64>::new());
}

#[test]
fn reverted_and_failed_entries_leave_a_migration_pending() {
    let applied = vec![
        entry(1, 0, EntryStatus::Reverted),
        entry(2, 0, EntryStatus::Failed),
        entry(3, 0, EntryStatus::Applied),
    ];
    assert_eq!(versions(&pending_since(&applied, &three())), vec![1, 2]);
}

#[test]
fn select_picks_by_state_and_version() {
    let applied = vec![entry(1, 0, EntryStatus::Applied), entry(3, 0, EntryStatus::Applied)];
    assert_eq!(versions(&select(&applied, &three(), true, None)), vec![1, 3]);
    assert_eq!(versions(&select(&applied, &three(), true, Some(3))), vec![3]);
    assert_eq!(versions(&select(&applied, &three(), true, Some(2))), Vec::<u64>::new());
    assert_eq!(versions(&select(&applied, &three(), false, Some(2))), vec![2]);
}

#[test]
fn drift_is_a_difference_of_checksums() {
    let list = three();
    let same = entry(1, list[0].checksum, EntryStatus::Applied);
    let other = entry(1, list[0].checksum ^ 1, EntryStatus::Applied);
    assert!(!detect_drift(&list[0], &same));
    assert!(detect_drift(&list[0], &other));
}

#[test]
fn the_ledger_adds_entries_and_marks_them_but_never_removes_one() {
    let mut ledger = Ledger::new();
    assert_eq!(ledger.len(), 0);
    assert_eq!(ledger.record_applied(entry(1, 11, EntryStatus::Reverted)), Ok(()));
    assert_eq!(ledger.entries()[0].status, EntryStatus::Applied);
    assert!(ledger.has_applied(1));
    assert_eq!(
        ledger.record_applied(entry(1, 11, EntryStatus::Applied)),
        Err(LedgerError::AlreadyApplied)
    );
    assert_eq!(ledger.len(), 1);
    assert_eq!(ledger.record_reverted(2, 500), Err(LedgerError::NotApplied));
    assert_eq!(ledger.record_reverted(1, 500), Ok(()));
    assert_eq!(ledger.len(), 1);
    assert_eq!(ledger.entries()[0].status, EntryStatus::Reverted);
    assert_eq!(ledger.entries()[0].applied_at, 500);
    assert_eq!(ledger.entries()[0].checksum, 11);
    assert!(!ledger.has_applied(1));
    assert_eq!(ledger.record_applied(entry(1, 12, EntryStatus::Applied)), Ok(()));
    assert_eq!(ledger.len(), 2);
    assert!(ledger.has_applied(1));
    ledger.record_failed(entry(7, 1, EntryStatus::Applied));
    assert_eq!(ledger.entries()[2].status, EntryStatus::Failed);
    assert!(!ledger.has_applied(7));
}

#[test]
fn a_ledger_with_two_entries_in_force_for_one_version_is_refused() {
    let bad = vec![entry(1, 0, EntryStatus::Applied), entry(1, 0, EntryStatus::Applied)];
    assert!(Ledger::from_entries(bad).is_none());
    let good = vec![
        entry(1, 0, EntryStatus::Reverted),
        entry(1, 0, EntryStatus::Applied),
        entry(2, 0, EntryStatus::Applied),
    ];
    let ledger = Ledger::from_entries(good).unwrap();
    assert_eq!(ledger.len(), 3);
    assert_eq!(find_in_force(ledger.entries(), 1), 1);
    assert_eq!(find_in_force(ledger.entries(), 2), 2);
    assert_eq!(find_in_force(ledger.entries(), 3), 3);
}

#[test]
fn the_lock_is_granted_to_one_owner_at_a_time() {
    let mut lock = RunLock::new();
    assert_eq!(lock.holder(0), None);
    assert!(lock.try_acquire(1, 10, 60));
    assert_eq!(lock.holder(10), Some(1));
    assert_eq!(lock.holder(69), Some(1));
    assert!(!lock.try_acquire(2, 11, 60));
    assert!(!lock.try_acquire(2, 69, 60));
    assert_eq!(lock.holder(69), Some(1));
    assert!(!lock.release(2));
    assert_eq!(lock.holder(20), Some(1));
    assert!(lock.release(1));
    assert_eq!(lock.holder(20), None);
    assert!(lock.try_acquire(2, 21, 5));
    assert_eq!(lock, RunLock { owner: Some(2), expires_at: 26 });
}

#[test]
fn a_lease_that_ran_out_frees_the_lock() {
    let mut lock = RunLock::new();
    assert!(lock.try_acquire(1, 10, 60));
    assert_eq!(lock.holder(70), None);
    assert!(lock.try_acquire(2, 70, 60));
    assert_eq!(lock.holder(71), Some(2));
    assert!(!lock.release(1));
    assert_eq!(lock.holder(71), Some(2));
}

#[test]
fn the_holder_can_extend_the_lease_and_the_end_saturates() {
    let mut lock = RunLock::new();
    assert!(lock.try_acquire(1, 10, 60));
    assert!(lock.try_acquire(1, 50, 60));
    assert_eq!(lock.expires_at, 110);
    assert!(lock.try_acquire(1, u64::MAX - 1, 60));
    assert_eq!(lock.expires_at, u64::MAX);
}

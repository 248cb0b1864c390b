use mitre::filename::Direction;
use mitre::ledger::{EntryStatus, LedgerEntry};
use mitre::lock::RunLock;
use mitre::memory::{same_bytes, MemoryBackend};
use mitre::migrations::{checksum, DiscoveryError, SourceFile};
use mitre::reserved::BackendKind;
use mitre::machine::{
    Action, Command, DriftPolicy, Event, Outcome, RunError, RunSettings, RunState,
};
use mitre::runner::{
    drive, find_drift, run_migrations, Backend, Execution, MigrationExecution, Run, RunReport,
};

fn file(name: &str, content: &str) -> SourceFile {
    SourceFile { name: name.to_string(), content: content.as_bytes().to_vec() }
}

fn three() -> Vec<SourceFile> {
    vec![
        file("2_two.up.sql", "b"),
        file("1_one.up.sql", "a"),
        file("3_three.up.sql", "c"),
        file("1_one.down.sql", "undo a"),
        file("3_three.down.sql", "undo c"),
    ]
}

fn settings(command: Command) -> RunSettings {
    RunSettings { kind: BackendKind::Relational, command, only: None, drift: DriftPolicy::Lenient }
}

fn outcomes(results: &Vec<MigrationExecution>) -> Vec<(u64, Outcome)> {
    results.iter().map(|r| (r.parsed.id.version, r.outcome)).collect()
}

fn in_force(ledger: &Vec<LedgerEntry>) -> Vec<(u64, u64)> {
    ledger
        .iter()
        .filter(|e| e.status == EntryStatus::Applied)
        .map(|e| (e.version, e.checksum))
        .collect()
}

fn sum(s: &str) -> u64 {
    checksum(&s.as_bytes().to_vec())
}

#[test]
fn a_run_on_an_empty_ledger_applies_everything_in_order() {
    let mut backend = MemoryBackend::new(BackendKind::Relational, 1);
    let results = run_migrations(&mut backend, &three(), settings(Command::Up)).unwrap().results;
    assert_eq!(
        outcomes(&results),
        vec![(1, Outcome::Applied), (2, Outcome::Applied), (3, Outcome::Applied)]
    );
    assert_eq!(backend.executed, vec![b"a".to_vec(), b"b".to_vec(), b"c".to_vec()]);
    assert_eq!(backend.ledger.len(), 3);
    assert_eq!(in_force(&backend.ledger), vec![(1, sum("a")), (2, sum("b")), (3, sum("c"))]);
    assert_eq!(backend.ledger[0].slug, "one");
    assert!(backend.storage_ready);
    assert_eq!(backend.lock.owner, None);
}

#[test]
fn a_second_run_applies_what_is_left_and_a_third_nothing() {
    let mut backend = MemoryBackend::new(BackendKind::Relational, 1);
    backend.ledger.push(LedgerEntry {
        version: 1,
        slug: "one".to_string(),
        checksum: sum("a"),
        applied_at: 5,
        status: EntryStatus::Applied,
    });
    let results = run_migrations(&mut backend, &three(), settings(Command::Up)).unwrap().results;
    assert_eq!(outcomes(&results), vec![(2, Outcome::Applied), (3, Outcome::Applied)]);
    assert_eq!(backend.executed, vec![b"b".to_vec(), b"c".to_vec()]);
    assert_eq!(backend.ledger.len(), 3);
    let again = run_migrations(&mut backend, &three(), settings(Command::Up)).unwrap().results;
    assert_eq!(again, Vec::new());
    assert_eq!(backend.executed.len(), 2);
    assert_eq!(backend.ledger.len(), 3);
    assert_eq!(backend.lock.owner, None);
}

#[test]
fn a_failure_halts_the_run_and_skips_the_rest() {
    let mut backend = MemoryBackend::new(BackendKind::Relational, 1);
    backend.refused = Some(b"b".to_vec());
    let err = run_migrations(&mut backend, &three(), settings(Command::Up)).unwrap_err();
    assert_eq!(err.error, RunError::BackendExecutionError);
    assert_eq!(err.failed, Some(1));
    assert_eq!(
        outcomes(&err.results),
        vec![(1, Outcome::Applied), (2, Outcome::Failed), (3, Outcome::Skipped)]
    );
    assert_eq!(backend.executed, vec![b"a".to_vec()]);
    assert_eq!(backend.ledger.len(), 1);
    assert_eq!(in_force(&backend.ledger), vec![(1, sum("a"))]);
    assert_eq!(backend.lock.owner, None);
}

#[test]
fn a_backend_without_transactions_records_the_failure() {
    let mut backend = MemoryBackend::new(BackendKind::KeyValue, 1);
    backend.refused = Some(b"b".to_vec());
    let mut s = settings(Command::Up);
    s.kind = BackendKind::KeyValue;
    let err = run_migrations(&mut backend, &three(), s).unwrap_err();
    assert_eq!(err.error, RunError::PartialApplication);
    assert_eq!(err.failed, Some(1));
    assert_eq!(
        outcomes(&err.results),
        vec![(1, Outcome::Applied), (2, Outcome::Failed), (3, Outcome::Skipped)]
    );
    assert_eq!(backend.ledger.len(), 2);
    assert_eq!(in_force(&backend.ledger), vec![(1, sum("a"))]);
    assert_eq!(backend.ledger[1].version, 2);
    assert_eq!(backend.ledger[1].status, EntryStatus::Failed);
}

#[test]
fn redo_reverts_and_applies_again() {
    let mut backend = MemoryBackend::new(BackendKind::Relational, 1);
    run_migrations(&mut backend, &three(), settings(Command::Up)).unwrap();
    let before = backend.ledger.clone();
    let mut s = settings(Command::Redo);
    s.only = Some(1);
    let results = run_migrations(&mut backend, &three(), s).unwrap().results;
    assert_eq!(outcomes(&results), vec![(1, Outcome::Applied)]);
    assert_eq!(backend.executed[3..].to_vec(), vec![b"undo a".to_vec(), b"a".to_vec()]);
    assert_eq!(backend.ledger.len(), before.len() + 1);
    assert_eq!(in_force(&backend.ledger).len(), in_force(&before).len());
    assert_eq!(backend.ledger[0].version, 1);
    assert_eq!(backend.ledger[0].status, EntryStatus::Reverted);
    assert!(backend.ledger[0].applied_at > before[0].applied_at);
    let last = backend.ledger.last().unwrap();
    assert_eq!((last.version, last.status), (1, EntryStatus::Applied));
    assert_eq!(last.checksum, sum("a"));
    assert!(last.applied_at > backend.ledger[0].applied_at);
    let reverted = backend.ledger.iter().filter(|e| e.status == EntryStatus::Reverted).count();
    assert_eq!(reverted, 1);
}

#[test]
fn down_takes_a_migration_back() {
    let mut backend = MemoryBackend::new(BackendKind::Relational, 1);
    run_migrations(&mut backend, &three(), settings(Command::Up)).unwrap();
    let mut s = settings(Command::Down);
    s.only = Some(3);
    let results = run_migrations(&mut backend, &three(), s).unwrap().results;
    assert_eq!(outcomes(&results), vec![(3, Outcome::Reverted)]);
    assert_eq!(backend.executed.last().unwrap(), &b"undo c".to_vec());
    assert_eq!(in_force(&backend.ledger), vec![(1, sum("a")), (2, sum("b"))]);
    assert_eq!(backend.ledger.len(), 3);
    let up = run_migrations(&mut backend, &three(), settings(Command::Up)).unwrap().results;
    assert_eq!(outcomes(&up), vec![(3, Outcome::Applied)]);
    assert_eq!(backend.ledger.len(), 4);
}

#[test]
fn a_migration_without_down_content_cannot_be_taken_back() {
    let mut backend = MemoryBackend::new(BackendKind::Relational, 1);
    run_migrations(&mut backend, &three(), settings(Command::Up)).unwrap();
    let err = run_migrations(&mut backend, &three(), settings(Command::Down)).unwrap_err();
    assert_eq!(err.error, RunError::UnsupportedOperation);
    assert_eq!(err.failed, Some(1));
    assert_eq!(
        outcomes(&err.results),
        vec![(1, Outcome::Reverted), (2, Outcome::Failed), (3, Outcome::Skipped)]
    );
    assert_eq!(in_force(&backend.ledger), vec![(2, sum("b")), (3, sum("c"))]);
}

#[test]
fn a_held_lock_ends_the_run_before_it_starts() {
    let mut backend = MemoryBackend::new(BackendKind::Relational, 1);
    backend.lock = RunLock { owner: Some(99), expires_at: 1000 };
    let err = run_migrations(&mut backend, &three(), settings(Command::Up)).unwrap_err();
    assert_eq!(err.error, RunError::LockTimeout);
    assert_eq!(err.failed, None);
    assert_eq!(err.results, Vec::new());
    assert_eq!(backend.executed.len(), 0);
    assert_eq!(backend.lock, RunLock { owner: Some(99), expires_at: 1000 });
    assert!(!backend.storage_ready);
}

#[test]
fn of_two_runs_on_one_lock_only_one_reaches_applying() {
    let mut lock = RunLock::new();
    let mut first = Run::new(settings(Command::Up), &three());
    let mut second = Run::new(settings(Command::Up), &three());
    assert_eq!(first.outstanding(), Action::AcquireLock);
    assert_eq!(second.outstanding(), Action::AcquireLock);
    assert!(lock.try_acquire(1, 0, 60));
    first.step(Event::LockGranted, 0);
    assert!(!lock.try_acquire(2, 1, 60));
    assert_eq!(second.step(Event::LockTimedOut, 1), Action::Finish);
    assert_eq!(second.state(), RunState::Failed);
    assert_eq!(second.error(), Some(RunError::LockTimeout));
    first.step(Event::StorageReady, 2);
    let action = first.step(Event::LedgerRead { entries: Vec::new() }, 3);
    assert_eq!(first.state(), RunState::Applying);
    assert_eq!(action, Action::Execute { content: b"a".to_vec(), direction: Direction::Up });
    assert_eq!(second.step(Event::Executed, 4), Action::Finish);
    assert_eq!(second.state(), RunState::Failed);
    assert_eq!(second.results().len(), 0);
}

#[test]
fn the_run_asks_for_one_thing_after_another() {
    let files = vec![file("4_four.up.sql", "d")];
    let mut run = Run::new(settings(Command::Up), &files);
    assert_eq!(run.state(), RunState::Idle);
    assert_eq!(run.discovered().len(), 1);
    assert_eq!(run.outstanding(), Action::AcquireLock);
    assert_eq!(run.step(Event::LockGranted, 1), Action::EnsureLedgerStorage);
    assert_eq!(run.state(), RunState::LockAcquired);
    assert_eq!(run.step(Event::StorageReady, 2), Action::ReadLedger);
    assert_eq!(run.state(), RunState::Planning);
    assert_eq!(
        run.step(Event::LedgerRead { entries: Vec::new() }, 3),
        Action::Execute { content: b"d".to_vec(), direction: Direction::Up }
    );
    assert_eq!(run.plan().len(), 1);
    let expected = LedgerEntry {
        version: 4,
        slug: "four".to_string(),
        checksum: sum("d"),
        applied_at: 17,
        status: EntryStatus::Applied,
    };
    assert_eq!(run.step(Event::Executed, 17), Action::WriteLedger { entry: expected.clone() });
    assert_eq!(run.ledger().len(), 0);
    assert_eq!(run.step(Event::LedgerWritten, 18), Action::ReleaseLock);
    assert_eq!(run.state(), RunState::Finalizing);
    assert_eq!(run.ledger().entries(), &vec![expected]);
    assert_eq!(run.step(Event::LockReleased, 19), Action::Finish);
    assert_eq!(run.state(), RunState::Completed);
    assert!(run.is_over());
    assert_eq!(run.error(), None);
    assert_eq!(outcomes(&run.report().unwrap().results), vec![(4, Outcome::Applied)]);
}

#[test]
fn an_event_that_is_not_awaited_changes_nothing() {
    let mut run = Run::new(settings(Command::Up), &three());
    assert_eq!(run.step(Event::Executed, 1), Action::AcquireLock);
    assert_eq!(run.step(Event::LockReleased, 1), Action::AcquireLock);
    assert_eq!(run.state(), RunState::Idle);
    run.step(Event::LockGranted, 1);
    assert_eq!(run.step(Event::LockGranted, 2), Action::EnsureLedgerStorage);
    assert_eq!(run.step(Event::LedgerWritten, 2), Action::EnsureLedgerStorage);
    run.step(Event::StorageReady, 3);
    run.step(Event::LedgerRead { entries: Vec::new() }, 4);
    let waiting = run.outstanding();
    assert_eq!(run.step(Event::LedgerWritten, 5), waiting);
    assert_eq!(run.step(Event::LockReleased, 5), waiting);
    assert_eq!(run.state(), RunState::Applying);
    assert_eq!(run.results().len(), 0);
}

#[test]
fn giving_a_run_up_releases_the_lock_and_applies_nothing_more() {
    let mut run = Run::new(settings(Command::Up), &three());
    run.step(Event::LockGranted, 1);
    run.step(Event::StorageReady, 2);
    run.step(Event::LedgerRead { entries: Vec::new() }, 3);
    run.step(Event::Executed, 4);
    run.step(Event::LedgerWritten, 5);
    run.step(Event::Executed, 6);
    assert_eq!(run.step(Event::Cancelled, 7), Action::ReleaseLock);
    assert_eq!(run.state(), RunState::Finalizing);
    assert_eq!(run.ledger().len(), 1);
    assert_eq!(run.step(Event::Cancelled, 8), Action::ReleaseLock);
    assert_eq!(run.step(Event::LockReleased, 9), Action::Finish);
    assert_eq!(run.state(), RunState::Failed);
    let err = run.report().unwrap_err();
    assert_eq!(err.error, RunError::Cancelled);
    assert_eq!(err.failed, Some(1));
    assert_eq!(
        outcomes(&err.results),
        vec![(1, Outcome::Applied), (2, Outcome::Failed), (3, Outcome::Skipped)]
    );
}

#[test]
fn giving_a_run_up_before_the_lock_is_taken_ends_it_at_once() {
    let mut run = Run::new(settings(Command::Up), &three());
    assert_eq!(run.step(Event::Cancelled, 1), Action::Finish);
    assert_eq!(run.state(), RunState::Failed);
    assert_eq!(run.error(), Some(RunError::Cancelled));
    let mut held = Run::new(settings(Command::Up), &three());
    held.step(Event::LockGranted, 1);
    assert_eq!(held.step(Event::Cancelled, 2), Action::ReleaseLock);
    assert_eq!(held.step(Event::LockReleased, 3), Action::Finish);
    assert_eq!(held.error(), Some(RunError::Cancelled));
}

#[test]
fn a_storage_that_cannot_be_made_ready_fails_the_run() {
    let mut run = Run::new(settings(Command::Up), &three());
    run.step(Event::LockGranted, 1);
    assert_eq!(run.step(Event::StorageFailed, 2), Action::ReleaseLock);
    run.step(Event::LockReleased, 3);
    assert_eq!(run.state(), RunState::Failed);
    assert_eq!(run.error(), Some(RunError::LedgerWriteError));
}

#[test]
fn a_ledger_that_cannot_be_written_fails_the_migration() {
    let mut run = Run::new(settings(Command::Up), &three());
    run.step(Event::LockGranted, 1);
    run.step(Event::StorageReady, 2);
    run.step(Event::LedgerRead { entries: Vec::new() }, 3);
    run.step(Event::Executed, 4);
    assert_eq!(run.step(Event::LedgerWriteFailed, 5), Action::ReleaseLock);
    assert_eq!(run.ledger().len(), 0);
    run.step(Event::LockReleased, 6);
    let err = run.report().unwrap_err();
    assert_eq!(err.error, RunError::LedgerWriteError);
    assert_eq!(err.failed, Some(0));
    assert_eq!(
        outcomes(&err.results),
        vec![(1, Outcome::Failed), (2, Outcome::Skipped), (3, Outcome::Skipped)]
    );
}

#[test]
fn the_words_of_the_backend_are_handed_on() {
    let mut run = Run::new(settings(Command::Up), &three());
    run.step(Event::LockGranted, 1);
    run.step(Event::StorageReady, 2);
    run.step(Event::LedgerRead { entries: Vec::new() }, 3);
    run.step(Event::ExecutionFailed { detail: "syntax error".to_string() }, 4);
    run.step(Event::LockReleased, 5);
    let err = run.report().unwrap_err();
    assert_eq!(err.error, RunError::BackendExecutionError);
    assert_eq!(err.detail, "syntax error");
    assert_eq!(err.failed, Some(0));
}

#[test]
fn a_backend_that_cannot_revert_is_unsupported() {
    let mut s = settings(Command::Down);
    s.only = Some(1);
    let mut run = Run::new(s, &three());
    run.step(Event::LockGranted, 1);
    run.step(Event::StorageReady, 2);
    let entries = vec![LedgerEntry {
        version: 1,
        slug: "one".to_string(),
        checksum: sum("a"),
        applied_at: 1,
        status: EntryStatus::Applied,
    }];
    assert_eq!(
        run.step(Event::LedgerRead { entries }, 3),
        Action::Execute { content: b"undo a".to_vec(), direction: Direction::Down }
    );
    assert_eq!(run.step(Event::Unsupported, 4), Action::ReleaseLock);
    assert_eq!(run.error(), Some(RunError::UnsupportedOperation));
    assert_eq!(run.ledger().has_applied(1), true);
}

#[test]
fn drift_is_noted_and_stops_a_strict_run() {
    let stored = vec![LedgerEntry {
        version: 1,
        slug: "one".to_string(),
        checksum: sum("changed"),
        applied_at: 1,
        status: EntryStatus::Applied,
    }];
    let mut lenient = MemoryBackend::new(BackendKind::Relational, 1);
    lenient.ledger = stored.clone();
    let report = run_migrations(&mut lenient, &three(), settings(Command::Up)).unwrap();
    assert_eq!(outcomes(&report.results), vec![(2, Outcome::Applied), (3, Outcome::Applied)]);
    assert_eq!(report.drifted, vec![1]);

    let mut s = settings(Command::Up);
    s.drift = DriftPolicy::Strict;
    let mut strict = MemoryBackend::new(BackendKind::Relational, 1);
    strict.ledger = stored.clone();
    let err = run_migrations(&mut strict, &three(), s).unwrap_err();
    assert_eq!(err.error, RunError::DriftDetected);
    assert_eq!(err.drifted, vec![1]);
    assert_eq!(err.failed, None);
    assert_eq!(err.results, Vec::new());
    assert_eq!(strict.executed.len(), 0);
    assert_eq!(strict.lock.owner, None);

    let mut run = Run::new(settings(Command::Up), &three());
    run.step(Event::LockGranted, 1);
    run.step(Event::StorageReady, 2);
    run.step(Event::LedgerRead { entries: stored.clone() }, 3);
    assert_eq!(run.drifted(), &vec![1]);

    let mut noted = MemoryBackend::new(BackendKind::Relational, 1);
    noted.ledger = stored;
    let done = drive(&mut noted, &three(), settings(Command::Up));
    assert_eq!(done.state(), RunState::Completed);
    assert_eq!(done.drifted(), &vec![1]);
    assert_eq!(done.plan().len(), 2);
    assert_eq!(done.ledger().len(), 3);
}

#[test]
fn drift_is_found_by_checksum() {
    let files = three();
    let list = mitre::migrations::discover(&files, BackendKind::Relational).unwrap();
    let entries = vec![
        LedgerEntry {
            version: 3,
            slug: "three".to_string(),
            checksum: sum("c") + 1,
            applied_at: 1,
            status: EntryStatus::Applied,
        },
        LedgerEntry {
            version: 2,
            slug: "two".to_string(),
            checksum: sum("b"),
            applied_at: 1,
            status: EntryStatus::Applied,
        },
        LedgerEntry {
            version: 1,
            slug: "one".to_string(),
            checksum: 0,
            applied_at: 1,
            status: EntryStatus::Reverted,
        },
    ];
    assert_eq!(find_drift(&entries, &list), vec![3]);
}

#[test]
fn faults_of_the_directory_and_of_the_ledger_fail_the_run() {
    let mut backend = MemoryBackend::new(BackendKind::Relational, 1);
    let files = vec![file("1_one.up.sql", "a"), file("1_uno.up.sql", "b")];
    let err = run_migrations(&mut backend, &files, settings(Command::Up)).unwrap_err();
    assert_eq!(err.error, RunError::Discovery(DiscoveryError::DuplicateVersion));
    assert_eq!(backend.lock.owner, None);
    assert!(!backend.storage_ready);
    assert_eq!(backend.clock, 0);

    let twice = LedgerEntry {
        version: 1,
        slug: "one".to_string(),
        checksum: sum("a"),
        applied_at: 1,
        status: EntryStatus::Applied,
    };
    backend.ledger = vec![twice.clone(), twice];
    let err = run_migrations(&mut backend, &three(), settings(Command::Up)).unwrap_err();
    assert_eq!(err.error, RunError::InvalidLedger);
    assert_eq!(err.results, Vec::new());
    assert_eq!(backend.executed.len(), 0);
}

struct Scripted {
    answers: Vec<Execution>,
    writes: Vec<LedgerEntry>,
    write_ok: bool,
    released: u32,
    calls: u32,
}

impl Backend for Scripted {
    fn acquire_run_lock(&mut self) -> bool {
        self.calls += 1;
        true
    }

    fn release_run_lock(&mut self) {
        self.calls += 1;
        self.released += 1;
    }

    fn ensure_ledger_storage(&mut self) -> bool {
        self.calls += 1;
        true
    }

    fn read_ledger(&mut self) -> Vec<LedgerEntry> {
        self.calls += 1;
        Vec::new()
    }

    fn write_ledger(&mut self, entry: &LedgerEntry) -> bool {
        self.calls += 1;
        self.writes.push(entry.clone());
        self.write_ok
    }

    fn execute(&mut self, _content: &Vec<u8>, _direction: Direction) -> Execution {
        self.calls += 1;
        self.answers.remove(0)
    }

    fn now(&mut self) -> u64 {
        self.calls += 1;
        77
    }
}

#[test]
fn the_lock_is_released_once_whatever_the_backend_answers() {
    let scripts = vec![
        vec![Execution::Done, Execution::Done, Execution::Done],
        vec![Execution::Done, Execution::Failed { detail: "no".to_string() }],
        vec![Execution::Partial { detail: "half".to_string() }],
        vec![Execution::Unsupported],
    ];
    for answers in scripts {
        let mut backend = Scripted { answers, writes: Vec::new(), write_ok: true, released: 0, calls: 0 };
        let _ = run_migrations(&mut backend, &three(), settings(Command::Up));
        assert_eq!(backend.released, 1);
    }
    let mut failing =
        Scripted {
        answers: vec![Execution::Done],
        writes: Vec::new(),
        write_ok: false,
        released: 0,
        calls: 0,
    };
    let err = run_migrations(&mut failing, &three(), settings(Command::Up)).unwrap_err();
    assert_eq!(err.error, RunError::LedgerWriteError);
    assert_eq!(failing.released, 1);
    assert_eq!(failing.writes.len(), 1);
    assert_eq!(failing.writes[0].applied_at, 77);
}

#[test]
fn the_memory_backend_keeps_its_ledger_in_order() {
    let mut backend = MemoryBackend::new(BackendKind::KeyValue, 3);
    let applied = LedgerEntry {
        version: 1,
        slug: "one".to_string(),
        checksum: 9,
        applied_at: 1,
        status: EntryStatus::Applied,
    };
    assert!(backend.store_entry(&applied));
    assert!(!backend.store_entry(&applied));
    let mut reverted = applied.clone();
    reverted.status = EntryStatus::Reverted;
    reverted.applied_at = 2;
    assert!(backend.store_entry(&reverted));
    assert!(!backend.store_entry(&reverted));
    assert_eq!(backend.ledger, vec![reverted]);
    assert_eq!(backend.read_ledger(), backend.ledger);
    assert!(same_bytes(&b"ab".to_vec(), &b"ab".to_vec()));
    assert!(!same_bytes(&b"ab".to_vec(), &b"ac".to_vec()));
    assert!(!same_bytes(&b"ab".to_vec(), &b"a".to_vec()));
    backend.refused = Some(b"bad".to_vec());
    assert_eq!(backend.run_content(&b"bad".to_vec()), Execution::Partial { detail: String::new() });
    assert_eq!(backend.run_content(&b"good".to_vec()), Execution::Done);
    assert_eq!(backend.executed, vec![b"good".to_vec()]);
    assert_eq!(backend.now(), 1);
    assert_eq!(backend.now(), 2);
}

#[test]
fn a_faulty_directory_is_rejected_before_the_backend_is_asked_anything() {
    let directories = vec![
        (vec![file("1_select.up.sql", "a")], DiscoveryError::ReservedWordInFilename),
        (vec![file("1_one.up.sql", "")], DiscoveryError::EmptyMigration),
        (
            vec![file("1_one.up.sql", "a"), file("1_uno.up.sql", "b")],
            DiscoveryError::DuplicateVersion,
        ),
        (vec![file("2_two.down.sql", "b")], DiscoveryError::OrphanDownMigration),
    ];
    for (files, fault) in directories {
        let mut backend =
            Scripted { answers: Vec::new(), writes: Vec::new(), write_ok: true, released: 0, calls: 0 };
        let err = run_migrations(&mut backend, &files, settings(Command::Up)).unwrap_err();
        assert_eq!(err.error, RunError::Discovery(fault));
        assert_eq!(err.failed, None);
        assert_eq!(err.results, Vec::new());
        assert_eq!(backend.calls, 0);

        let mut run = Run::new(settings(Command::Up), &files);
        assert_eq!(run.state(), RunState::Failed);
        assert_eq!(run.error(), Some(RunError::Discovery(fault)));
        assert_eq!(run.outstanding(), Action::Finish);
        assert_eq!(run.step(Event::LockGranted, 1), Action::Finish);
        assert_eq!(run.state(), RunState::Failed);
    }
}

#[test]
fn a_faulty_directory_is_reported_even_where_the_lock_is_held() {
    let mut backend = MemoryBackend::new(BackendKind::Relational, 1);
    backend.lock = RunLock { owner: Some(99), expires_at: 1000 };
    let files = vec![file("1_one.up.sql", "a"), file("7_seven.down.sql", "b")];
    let err = run_migrations(&mut backend, &files, settings(Command::Up)).unwrap_err();
    assert_eq!(err.error, RunError::Discovery(DiscoveryError::OrphanDownMigration));
    assert_eq!(backend.lock, RunLock { owner: Some(99), expires_at: 1000 });
}

#[test]
fn a_report_without_an_error_carries_the_drift() {
    let mut backend = MemoryBackend::new(BackendKind::Relational, 1);
    let clean = run_migrations(&mut backend, &three(), settings(Command::Up)).unwrap();
    assert_eq!(clean.drifted, Vec::<u64>::new());
    let mut changed = three();
    changed[0].content = b"b2".to_vec();
    let report = run_migrations(&mut backend, &changed, settings(Command::Up)).unwrap();
    assert_eq!(report, RunReport { results: Vec::new(), drifted: vec![2] });
}

//! The run: one pass over the pending migrations. `Run` is told what
//! happened outside and answers with what to do next; `run_migrations`
//! drives it against a backend.

use vstd::prelude::*;
use crate::filename::{Direction, Parsed, ParsedView};
use crate::ledger::{
    entry_views, find_in_force, lemma_select_sound, select, EntryStatus, Ledger, LedgerEntry,
};
use crate::machine::{
    answers, answers_in_turn, complete_current, consistent, drift_list, entry_for, executing,
    execution, fail_at, failed_discovery, is_over, is_success, on_recorded, outcome_fits,
    outstanding_spec, plan_run, replay, settle, skipped_from, started, state_rank, step_spec,
    work_left, Action, Command, DriftPolicy, Event, Outcome, Phase, RunError, RunSettings,
    RunState, RunView,
};
use crate::machine_laws::{
    lemma_answer_awaited, lemma_complete_consistent, lemma_discovery_comes_first,
    lemma_fail_at_consistent, lemma_one_more_event, lemma_settle_consistent, lemma_step_progress,
    lemma_step_tracks_up, tracks_up,
};
use crate::migrations::{
    copy_bytes, discover, discovery_error, migration_views, Migration, MigrationView, SourceFile,
};

verus! {

/// One migration of the plan with the way the run ended for it.
#[derive(Clone, Debug, PartialEq, Eq)]
pub struct MigrationExecution {
    pub parsed: Parsed,
    pub outcome: Outcome,
}

/// Mathematical content of a [`MigrationExecution`].
pub struct ExecutionView {
    pub parsed: ParsedView,
    pub outcome: Outcome,
}

impl View for MigrationExecution {
    type V = ExecutionView;

    open spec fn view(&self) -> ExecutionView {
        ExecutionView { parsed: self.parsed@, outcome: self.outcome }
    }
}

/// What a run without an error hands back: every migration of the plan
/// with its outcome, and, as a warning, the versions of the applied
/// migrations whose content has changed since.
#[derive(Clone, Debug, PartialEq, Eq)]
pub struct RunReport {
    pub results: Vec<MigrationExecution>,
    pub drifted: Vec<u64>,
}

/// What a failed run hands back: every migration of the plan with its
/// outcome, the error, what the backend said of it, and the versions of the
/// applied migrations whose content has changed.
#[derive(Clone, Debug, PartialEq, Eq)]
pub struct MigrationExecutionError {
    pub error: RunError,
    /// Position in `results` of the migration that failed, if one did.
    pub failed: Option<usize>,
    pub detail: String,
    pub results: Vec<MigrationExecution>,
    pub drifted: Vec<u64>,
}

/// The contents of the executions, in order.
pub open spec fn execution_views(list: Seq<MigrationExecution>) -> Seq<ExecutionView> {
    Seq::new(list.len(), |i: int| list[i]@)
}

/// Position in the results of the migration that failed, if one did.
pub open spec fn failed_at(r: RunView) -> Option<usize> {
    if r.error is Some && r.cursor < r.results.len() {
        Some(r.cursor as usize)
    } else {
        None
    }
}

/// The results of a run that is handed back fit together: without an error
/// every migration succeeded; with an error and a failed migration, those
/// before it succeeded and those behind it were skipped; with an error and
/// no failed migration, no migration was taken in hand.
pub open spec fn report_fits(report: Result<RunReport, MigrationExecutionError>) -> bool {
    match report {
        Ok(done) => forall|i: int|
            0 <= i < done.results@.len() ==> is_success((#[trigger] done.results@[i]).outcome),
        Err(e) => match e.failed {
            Some(k) => k < e.results@.len() && forall|i: int|
                0 <= i < e.results@.len() ==> outcome_fits(
                    (#[trigger] e.results@[i]).outcome,
                    i,
                    k as int,
                ),
            None => e.results@.len() == 0,
        },
    }
}

/// The report is the one of a run that stands as `end` does.
pub open spec fn reports(report: Result<RunReport, MigrationExecutionError>, end: RunView) -> bool {
    match report {
        Ok(done) => end.error is None && execution_views(done.results@) == end.results
            && done.drifted@ == end.drifted,
        Err(e) => end.error == Some(e.error) && e.failed == failed_at(end) && e.detail@
            == end.detail && execution_views(e.results@) == end.results && e.drifted@
            == end.drifted,
    }
}

/// Adds a skipped result for every migration of the plan from `from` on.
fn push_skipped(results: &mut Vec<MigrationExecution>, plan: &Vec<Migration>, from: usize)
    requires
        from <= plan.len(),
    ensures
        execution_views(final(results)@) == execution_views(old(results)@) + skipped_from(
            migration_views(plan@),
            from as int,
        ),
{
    let ghost before = execution_views(results@);
    let ghost skipped = skipped_from(migration_views(plan@), from as int);
    let mut i: usize = from;
    assert(execution_views(results@) =~= before + skipped.subrange(0, 0));
    while i < plan.len()
        invariant
            from <= i <= plan.len(),
            skipped == skipped_from(migration_views(plan@), from as int),
            execution_views(results@) == before + skipped.subrange(0, i - from),
        decreases plan.len() - i,
    {
        let ghost sofar = execution_views(results@);
        results.push(
            MigrationExecution { parsed: plan[i].parsed.duplicate(), outcome: Outcome::Skipped },
        );
        assert(execution_views(results@) =~= sofar.push(skipped[i - from]));
        assert(before + skipped.subrange(0, i - from + 1) =~= (before + skipped.subrange(
            0,
            i - from,
        )).push(skipped[i - from]));
        i = i + 1;
    }
    assert(skipped.subrange(0, plan.len() - from) =~= skipped);
}

/// Builds the ledger entry that describes a migration.
fn entry_of(m: &Migration, at: u64, status: EntryStatus) -> (r: LedgerEntry)
    ensures
        r@ == entry_for(m@, at, status),
{
    LedgerEntry {
        version: m.parsed.id.version,
        slug: m.parsed.id.slug.clone(),
        checksum: m.checksum,
        applied_at: at,
        status,
    }
}

/// Lists the versions of the applied migrations whose content has changed.
pub fn find_drift(entries: &Vec<LedgerEntry>, discovered: &Vec<Migration>) -> (r: Vec<u64>)
    ensures
        r@ == drift_list(entry_views(entries@), migration_views(discovered@)),
{
    let ghost ledger = entry_views(entries@);
    let ghost all = migration_views(discovered@);
    let mut r: Vec<u64> = Vec::new();
    let mut k: usize = 0;
    while k < discovered.len()
        invariant
            k <= discovered.len(),
            ledger == entry_views(entries@),
            all == migration_views(discovered@),
            r@ == drift_list(ledger, all.subrange(0, k as int)),
        decreases discovered.len() - k,
    {
        assert(all.subrange(0, k + 1).drop_last() == all.subrange(0, k as int));
        assert(all.subrange(0, k + 1).last() == discovered@[k as int]@);
        let i = find_in_force(entries, discovered[k].version());
        if i < entries.len() && entries[i].checksum != discovered[k].checksum {
            r.push(discovered[k].version());
        }
        k = k + 1;
    }
    assert(all.subrange(0, discovered.len() as int) == all);
    r
}

/// One run over a directory of migrations. The run does nothing outside
/// itself: `outstanding` says what the caller is to do, and `step` takes in
/// what came of it.
#[derive(Debug)]
pub struct Run {
    settings: RunSettings,
    state: RunState,
    phase: Phase,
    discovered: Vec<Migration>,
    plan: Vec<Migration>,
    cursor: usize,
    stamp: u64,
    ledger: Ledger,
    results: Vec<MigrationExecution>,
    drifted: Vec<u64>,
    error: Option<RunError>,
    detail: String,
}

impl View for Run {
    type V = RunView;

    closed spec fn view(&self) -> RunView {
        RunView {
            settings: self.settings,
            state: self.state,
            phase: self.phase,
            discovered: migration_views(self.discovered@),
            plan: migration_views(self.plan@),
            cursor: self.cursor as int,
            stamp: self.stamp,
            ledger: self.ledger@,
            results: execution_views(self.results@),
            drifted: self.drifted@,
            error: self.error,
            detail: self.detail@,
        }
    }
}

impl Run {
    /// A run over the files of a directory, before anything has happened
    /// outside. The migrations are discovered here; where the directory
    /// yields no list of them the run is over at once, with the error of
    /// discovery, and asks nothing of the backend.
    pub fn new(settings: RunSettings, files: &Vec<SourceFile>) -> (r: Run)
        ensures
            r@ == started(settings, files@),
            consistent(r@),
            tracks_up(r@),
    {
        let (state, error, discovered) = match discover(files, settings.kind) {
            Ok(list) => (RunState::Idle, None, list),
            Err(e) => (RunState::Failed, Some(RunError::Discovery(e)), Vec::new()),
        };
        let r = Run {
            settings,
            state,
            phase: Phase::Applying,
            discovered,
            plan: Vec::new(),
            cursor: 0,
            stamp: 0,
            ledger: Ledger::new(),
            results: Vec::new(),
            drifted: Vec::new(),
            error,
            detail: String::new(),
        };
        proof {
            assert(r@.plan =~= Seq::<MigrationView>::empty());
            assert(r@.results =~= Seq::<ExecutionView>::empty());
            if error is Some {
                assert(r@.discovered =~= Seq::<MigrationView>::empty());
            } else {
                crate::migrations::lemma_discovery_of(r.discovered@, files@, settings.kind);
            }
        }
        r
    }

    /// The migrations of the directory, ascending by version.
    pub fn discovered(&self) -> (r: &Vec<Migration>)
        ensures
            migration_views(r@) == self@.discovered,
    {
        &self.discovered
    }

    /// Where the run stands.
    pub fn state(&self) -> (r: RunState)
        ensures
            r == self@.state,
    {
        self.state
    }

    /// The error that ended the work, if there was one.
    pub fn error(&self) -> (r: Option<RunError>)
        ensures
            r == self@.error,
    {
        self.error
    }

    /// The migrations the run works on, in the order in which it does.
    pub fn plan(&self) -> (r: &Vec<Migration>)
        ensures
            migration_views(r@) == self@.plan,
    {
        &self.plan
    }

    /// The outcomes so far, in the order of the plan.
    pub fn results(&self) -> (r: &Vec<MigrationExecution>)
        ensures
            execution_views(r@) == self@.results,
    {
        &self.results
    }

    /// The ledger as the run knows it.
    pub fn ledger(&self) -> (r: &Ledger)
        ensures
            r@ == self@.ledger,
    {
        &self.ledger
    }

    /// Versions of applied migrations whose content has changed.
    pub fn drifted(&self) -> (r: &Vec<u64>)
        ensures
            r@ == self@.drifted,
    {
        &self.drifted
    }

    /// What the caller is to do now.
    pub fn outstanding(&self) -> (action: Action)
        requires
            consistent(self@),
        ensures
            action@ == outstanding_spec(self@),
    {
        match self.state {
            RunState::Idle => Action::AcquireLock,
            RunState::LockAcquired => Action::EnsureLedgerStorage,
            RunState::Planning => Action::ReadLedger,
            RunState::Applying => {
                let m = &self.plan[self.cursor];
                match self.phase {
                    Phase::Reverting => match &m.down {
                        Some(d) => Action::Execute {
                            content: copy_bytes(&d.content),
                            direction: Direction::Down,
                        },
                        None => Action::Finish,
                    },
                    Phase::Applying => Action::Execute {
                        content: copy_bytes(&m.content),
                        direction: Direction::Up,
                    },
                    Phase::RecordingRevert => Action::WriteLedger {
                        entry: entry_of(m, self.stamp, EntryStatus::Reverted),
                    },
                    Phase::RecordingApply => Action::WriteLedger {
                        entry: entry_of(m, self.stamp, EntryStatus::Applied),
                    },
                    Phase::RecordingFailure => Action::WriteLedger {
                        entry: entry_of(m, self.stamp, EntryStatus::Failed),
                    },
                }
            },
            RunState::Finalizing => Action::ReleaseLock,
            RunState::Completed => Action::Finish,
            RunState::Failed => Action::Finish,
        }
    }

    /// Marks the migration in hand as failed and those behind it as skipped.
    fn fail_current(&mut self, error: RunError, detail: String)
        requires
            old(self)@.state == RunState::Applying,
            consistent(RunView { phase: Phase::Applying, ..old(self)@ }),
            !(error is Discovery),
        ensures
            final(self)@ == fail_at(old(self)@, error, detail@),
            consistent(final(self)@),
    {
        proof {
            lemma_fail_at_consistent(self@, error, detail@);
            assert(self@.plan.len() == self.plan@.len());
            assert(self@.cursor < self@.plan.len());
            assert(self.cursor < self.plan.len());
        }
        let ghost before = self@;
        self.results.push(
            MigrationExecution {
                parsed: self.plan[self.cursor].parsed.duplicate(),
                outcome: Outcome::Failed,
            },
        );
        assert(execution_views(self.results@) =~= before.results.push(
            execution(before.plan[before.cursor], Outcome::Failed),
        ));
        push_skipped(&mut self.results, &self.plan, self.cursor + 1);
        self.state = RunState::Finalizing;
        self.error = Some(error);
        self.detail = detail;
    }

    /// Takes the migration at the cursor in hand, or ends the work.
    fn settle(&mut self)
        requires
            consistent(RunView { state: RunState::Applying, phase: Phase::Applying, ..old(self)@ })
                || old(self)@.cursor == old(self)@.plan.len() && consistent(
                RunView { state: RunState::Finalizing, ..old(self)@ },
            ),
            old(self)@.error is None,
        ensures
            final(self)@ == settle(old(self)@),
            consistent(final(self)@),
    {
        proof {
            lemma_settle_consistent(self@);
        }
        if self.cursor >= self.plan.len() {
            self.state = RunState::Finalizing;
            self.error = None;
        } else {
            let reverts = match self.settings.command {
                Command::Up => false,
                Command::Down => true,
                Command::Redo => true,
            };
            if reverts && self.plan[self.cursor].down.is_none() {
                self.state = RunState::Applying;
                self.fail_current(RunError::UnsupportedOperation, String::new());
            } else {
                self.state = RunState::Applying;
                self.phase = if reverts {
                    Phase::Reverting
                } else {
                    Phase::Applying
                };
            }
        }
    }

    /// Notes a success for the migration in hand and takes the next.
    fn complete_current(&mut self, outcome: Outcome)
        requires
            consistent(old(self)@),
            old(self)@.state == RunState::Applying,
            is_success(outcome),
        ensures
            final(self)@ == complete_current(old(self)@, outcome),
            consistent(final(self)@),
    {
        let ghost before = self@;
        proof {
            lemma_complete_consistent(before, outcome);
            assert(self@.plan.len() == self.plan@.len());
            assert(self@.cursor < self@.plan.len());
            assert(self.cursor < self.plan.len());
        }
        self.results.push(
            MigrationExecution { parsed: self.plan[self.cursor].parsed.duplicate(), outcome },
        );
        self.cursor = self.cursor + 1;
        proof {
            let next = RunView {
                results: before.results.push(execution(before.plan[before.cursor], outcome)),
                cursor: before.cursor + 1,
                ..before
            };
            assert(self@.results =~= next.results);
            assert(self@ == next);
            assert forall|i: int| 0 <= i < next.results.len() implies (
            #[trigger] next.results[i]).parsed == next.plan[i].parsed && outcome_fits(
                next.results[i].outcome,
                i,
                next.cursor,
            ) by {
                if i < before.cursor {
                    assert(next.results[i] == before.results[i]);
                }
            }
            if next.cursor < next.plan.len() {
                assert(consistent(
                    RunView { state: RunState::Applying, phase: Phase::Applying, ..next },
                ));
            } else {
                assert(consistent(RunView { state: RunState::Finalizing, ..next }));
            }
        }
        self.settle();
    }

    /// Plans the run from the stored ledger.
    fn plan_from_ledger(&mut self, entries: Vec<LedgerEntry>)
        requires
            consistent(old(self)@),
            old(self)@.state == RunState::Planning,
        ensures
            final(self)@ == plan_run(old(self)@, entry_views(entries@)),
            consistent(final(self)@),
    {
        let ghost before = self@;
        let ledger = match Ledger::from_entries(entries) {
            Some(ledger) => ledger,
            None => {
                self.state = RunState::Finalizing;
                self.error = Some(RunError::InvalidLedger);
                return ;
            },
        };
        self.drifted = find_drift(ledger.entries(), &self.discovered);
        let strict = match self.settings.drift {
            DriftPolicy::Strict => true,
            DriftPolicy::Lenient => false,
        };
        if strict && self.drifted.len() > 0 {
            self.ledger = ledger;
            self.state = RunState::Finalizing;
            self.error = Some(RunError::DriftDetected);
            return ;
        }
        let in_force = match self.settings.command {
            Command::Up => false,
            Command::Down => true,
            Command::Redo => true,
        };
        self.plan = select(ledger.entries(), &self.discovered, in_force, self.settings.only);
        self.ledger = ledger;
        self.cursor = 0;
        proof {
            lemma_select_sound(self@.ledger, before.discovered, in_force, self.settings.only);
            if self@.plan.len() > 0 {
                assert(consistent(
                    RunView { state: RunState::Applying, phase: Phase::Applying, ..self@ },
                ));
            } else {
                assert(consistent(RunView { state: RunState::Finalizing, ..self@ }));
            }
        }
        self.settle();
    }

    /// Takes in that the ledger entry for the migration in hand was stored.
    fn on_recorded(&mut self)
        requires
            consistent(old(self)@),
            old(self)@.state == RunState::Applying,
            !executing(old(self)@.phase),
        ensures
            final(self)@ == on_recorded(old(self)@),
            consistent(final(self)@),
    {
        let ghost before = self@;
        let version = self.plan[self.cursor].parsed.id.version;
        match self.phase {
            Phase::RecordingApply => {
                let entry = entry_of(&self.plan[self.cursor], self.stamp, EntryStatus::Applied);
                match self.ledger.record_applied(entry) {
                    Ok(()) => {
                        self.complete_current(Outcome::Applied);
                    },
                    Err(_) => {
                        let detail = self.detail.clone();
                        self.fail_current(RunError::InvalidLedger, detail);
                    },
                }
            },
            Phase::RecordingRevert => {
                match self.ledger.record_reverted(version, self.stamp) {
                    Ok(()) => {
                        match self.settings.command {
                            Command::Redo => {
                                self.phase = Phase::Applying;
                            },
                            _ => {
                                self.complete_current(Outcome::Reverted);
                            },
                        }
                    },
                    Err(_) => {
                        let detail = self.detail.clone();
                        self.fail_current(RunError::InvalidLedger, detail);
                    },
                }
            },
            Phase::RecordingFailure => {
                let entry = entry_of(&self.plan[self.cursor], self.stamp, EntryStatus::Failed);
                self.ledger.record_failed(entry);
                let detail = self.detail.clone();
                self.fail_current(RunError::PartialApplication, detail);
            },
            _ => {},
        }
    }

    /// Takes in what happened outside, at time `now`, and says what the
    /// caller is to do next. An event that the state does not wait for
    /// changes nothing, and the same action is asked for again.
    pub fn step(&mut self, event: Event, now: u64) -> (action: Action)
        requires
            consistent(old(self)@),
        ensures
            final(self)@ == step_spec(old(self)@, event, now),
            consistent(final(self)@),
            tracks_up(old(self)@) ==> tracks_up(final(self)@),
            action@ == outstanding_spec(final(self)@),
    {
        proof {
            reveal(step_spec);
        }
        match self.state {
            RunState::Idle => match event {
                Event::LockGranted => {
                    self.state = RunState::LockAcquired;
                },
                Event::LockTimedOut => {
                    self.state = RunState::Failed;
                    self.error = Some(RunError::LockTimeout);
                },
                Event::Cancelled => {
                    self.state = RunState::Failed;
                    self.error = Some(RunError::Cancelled);
                },
                _ => {},
            },
            RunState::LockAcquired => match event {
                Event::StorageReady => {
                    self.state = RunState::Planning;
                },
                Event::StorageFailed => {
                    self.state = RunState::Finalizing;
                    self.error = Some(RunError::LedgerWriteError);
                },
                Event::Cancelled => {
                    self.state = RunState::Finalizing;
                    self.error = Some(RunError::Cancelled);
                },
                _ => {},
            },
            RunState::Planning => match event {
                Event::LedgerRead { entries } => {
                    self.plan_from_ledger(entries);
                },
                Event::Cancelled => {
                    self.state = RunState::Finalizing;
                    self.error = Some(RunError::Cancelled);
                },
                _ => {},
            },
            RunState::Applying => {
                let executing = match self.phase {
                    Phase::Reverting => true,
                    Phase::Applying => true,
                    _ => false,
                };
                if executing {
                    match event {
                        Event::Executed => {
                            self.phase = match self.phase {
                                Phase::Reverting => Phase::RecordingRevert,
                                _ => Phase::RecordingApply,
                            };
                            self.stamp = now;
                        },
                        Event::ExecutionFailed { detail } => {
                            self.fail_current(RunError::BackendExecutionError, detail);
                        },
                        Event::PartiallyApplied { detail } => {
                            self.phase = Phase::RecordingFailure;
                            self.stamp = now;
                            self.detail = detail;
                        },
                        Event::Unsupported => {
                            let detail = self.detail.clone();
                            self.fail_current(RunError::UnsupportedOperation, detail);
                        },
                        Event::Cancelled => {
                            let detail = self.detail.clone();
                            self.fail_current(RunError::Cancelled, detail);
                        },
                        _ => {},
                    }
                } else {
                    match event {
                        Event::LedgerWritten => {
                            self.on_recorded();
                        },
                        Event::LedgerWriteFailed => {
                            let detail = self.detail.clone();
                            self.fail_current(RunError::LedgerWriteError, detail);
                        },
                        Event::Cancelled => {
                            let detail = self.detail.clone();
                            self.fail_current(RunError::Cancelled, detail);
                        },
                        _ => {},
                    }
                }
            },
            RunState::Finalizing => match event {
                Event::LockReleased => {
                    self.state = if self.error.is_none() {
                        RunState::Completed
                    } else {
                        RunState::Failed
                    };
                },
                _ => {},
            },
            RunState::Completed => {},
            RunState::Failed => {},
        }
        proof {
            if tracks_up(old(self)@) {
                lemma_step_tracks_up(old(self)@, event, now);
            }
        }
        self.outstanding()
    }
}

impl Run {
    /// Tells whether the run is over.
    pub fn is_over(&self) -> (r: bool)
        ensures
            r == is_over(self@),
    {
        match self.state {
            RunState::Completed => true,
            RunState::Failed => true,
            _ => false,
        }
    }

    /// Hands back what the run came to: the results where there was no
    /// error, else the error with the results and the place of the failure;
    /// either way with the versions that have drifted.
    pub fn report(self) -> (r: Result<RunReport, MigrationExecutionError>)
        requires
            consistent(self@),
        ensures
            reports(r, self@),
            is_over(self@) || self@.state == RunState::Finalizing ==> report_fits(r),
    {
        proof {
            assert(self@.results.len() == self.results@.len());
            assert(self@.plan.len() == self.plan@.len());
            assert forall|i: int| 0 <= i < self.results@.len() implies outcome_fits(
                (#[trigger] self.results@[i]).outcome,
                i,
                self.cursor as int,
            ) by {
                assert(self@.results[i] == self.results@[i]@);
            }
        }
        match self.error {
            None => Ok(RunReport { results: self.results, drifted: self.drifted }),
            Some(error) => {
                let failed = if self.cursor < self.results.len() {
                    Some(self.cursor)
                } else {
                    None
                };
                Err(
                    MigrationExecutionError {
                        error,
                        failed,
                        detail: self.detail,
                        results: self.results,
                        drifted: self.drifted,
                    },
                )
            },
        }
    }
}

/// What came of executing the content of a migration.
#[derive(Clone, Debug, PartialEq, Eq)]
pub enum Execution {
    /// The content was executed in full.
    Done,
    /// Nothing of the content is in effect.
    Failed { detail: String },
    /// Part of the content is in effect: the backend has no transactions.
    Partial { detail: String },
    /// The backend cannot execute content of this direction.
    Unsupported,
}

/// What a data store must be able to do for a run. Nothing is asked of how
/// an adapter behaves: `run_migrations` is proved for every answer.
pub trait Backend {
    /// Takes the run lock, waiting as long as the adapter sees fit; `false`
    /// when another run still held it.
    fn acquire_run_lock(&mut self) -> bool;

    /// Gives the run lock back.
    fn release_run_lock(&mut self);

    /// Creates the place where the ledger is stored, unless it exists.
    fn ensure_ledger_storage(&mut self) -> bool;

    /// Reads the stored ledger, oldest entry first.
    fn read_ledger(&mut self) -> Vec<LedgerEntry>;

    /// Stores an entry: adds it, or, where its status is `Reverted`, marks
    /// the entry in force for its version.
    fn write_ledger(&mut self, entry: &LedgerEntry) -> bool;

    /// Executes the content of a migration, atomically where the backend
    /// has transactions.
    fn execute(&mut self, content: &Vec<u8>, direction: Direction) -> Execution;

    /// The time, in the unit of the ledger's timestamps.
    fn now(&mut self) -> u64;
}

/// Carries one request of a run out on the backend and says what came of it.
fn perform<B: Backend>(backend: &mut B, action: Action) -> (event: Event)
    requires
        !(action is Finish),
    ensures
        answers(action@, event),
{
    match action {
        Action::AcquireLock => if backend.acquire_run_lock() {
            Event::LockGranted
        } else {
            Event::LockTimedOut
        },
        Action::EnsureLedgerStorage => if backend.ensure_ledger_storage() {
            Event::StorageReady
        } else {
            Event::StorageFailed
        },
        Action::ReadLedger => Event::LedgerRead { entries: backend.read_ledger() },
        Action::Execute { content, direction } => match backend.execute(&content, direction) {
            Execution::Done => Event::Executed,
            Execution::Failed { detail } => Event::ExecutionFailed { detail },
            Execution::Partial { detail } => Event::PartiallyApplied { detail },
            Execution::Unsupported => Event::Unsupported,
        },
        Action::WriteLedger { entry } => if backend.write_ledger(&entry) {
            Event::LedgerWritten
        } else {
            Event::LedgerWriteFailed
        },
        Action::ReleaseLock => {
            backend.release_run_lock();
            Event::LockReleased
        },
        Action::Finish => Event::Cancelled,
    }
}

/// Drives a run against a backend until it is over: discovers the
/// migrations of the given files, and only where that succeeds takes the
/// lock, makes the ledger's storage ready, plans from the stored ledger,
/// works through the plan in ascending order of version, halts at the first
/// failure, and gives the lock back.
///
/// Where discovery fails, the backend is not touched. Whatever the backend
/// answers, the run ends, and it stands as the state machine does after
/// some sequence of answers, each given to the request that was outstanding.
pub fn drive<B: Backend>(backend: &mut B, files: &Vec<SourceFile>, settings: RunSettings) -> (run: Run)
    ensures
        consistent(run@),
        tracks_up(run@),
        is_over(run@),
        exists|events: Seq<(Event, u64)>|
            {
                &&& answers_in_turn(started(settings, files@), events)
                &&& run@ == #[trigger] replay(started(settings, files@), events)
            },
        match discovery_error(files@, settings.kind) {
            Some(e) => run@ == started(settings, files@) && run@.error == Some(
                RunError::Discovery(e),
            ) && *final(backend) == *old(backend),
            None => !failed_discovery(run@),
        },
{
    let ghost start = started(settings, files@);
    let ghost mut events: Seq<(Event, u64)> = Seq::empty();
    let mut run = Run::new(settings, files);
    proof {
        lemma_discovery_comes_first(settings, files@, events);
    }
    if run.is_over() {
        assert(run@ == replay(start, events));
        return run;
    }
    let mut action = run.outstanding();
    while !run.is_over()
        invariant
            start == started(settings, files@),
            discovery_error(files@, settings.kind) is None,
            consistent(run@),
            tracks_up(run@),
            action@ == outstanding_spec(run@),
            run@ == replay(start, events),
            answers_in_turn(start, events),
        decreases state_rank(run@.state), work_left(run@),
    {
        let ghost before = run@;
        let ghost sofar = events;
        assert(!(action is Finish)) by {
            assert(!is_over(before));
        }
        let event = perform(backend, action);
        let now = backend.now();
        proof {
            lemma_answer_awaited(before, event);
            lemma_step_progress(before, event, now);
            lemma_one_more_event(start, sofar, event, now);
            events = sofar.push((event, now));
        }
        action = run.step(event, now);
    }
    proof {
        lemma_discovery_comes_first(settings, files@, events);
    }
    run
}

/// Runs the migrations of a directory against a backend and hands the
/// outcomes back: every migration of the plan with the way the run ended
/// for it, or, where the run failed, the error with them.
///
/// A directory that yields no list of migrations is reported with the
/// error of discovery, and the backend is not touched; no other failure is
/// reported so. Whatever the backend answers, what is handed back is the
/// report of the state machine after some sequence of answers, each given
/// to the request that was outstanding.
pub fn run_migrations<B: Backend>(backend: &mut B, files: &Vec<SourceFile>, settings: RunSettings) -> (r:
    Result<RunReport, MigrationExecutionError>)
    ensures
        report_fits(r),
        exists|events: Seq<(Event, u64)>|
            {
                &&& answers_in_turn(started(settings, files@), events)
                &&& is_over(#[trigger] replay(started(settings, files@), events))
                &&& reports(r, replay(started(settings, files@), events))
            },
        match discovery_error(files@, settings.kind) {
            Some(e) => {
                &&& r matches Err(failure)
                &&& failure.error == RunError::Discovery(e)
                &&& failure.failed is None
                &&& failure.results@.len() == 0
                &&& *final(backend) == *old(backend)
            },
            None => !(r matches Err(failure) && failure.error is Discovery),
        },
{
    drive(backend, files, settings).report()
}

} // verus!

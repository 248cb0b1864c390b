//! The run as a state machine: its states, the events it takes in, the
//! requests it makes, and the function from a state and an event to the
//! next state.

use vstd::prelude::*;
use crate::filename::Direction;
use crate::ledger::{
    at_most_one_applied, entry_views, first_in_force, is_applied, reverted_at, select_spec,
    EntryStatus, LedgerEntry, LedgerEntryView,
};
use crate::migrations::{
    ascending, discovery_error, discovery_of, DiscoveryError, MigrationView, SourceFile,
};
use crate::reserved::BackendKind;
use crate::runner::ExecutionView;

verus! {

/// Where a run stands.
#[derive(Clone, Copy, Debug, PartialEq, Eq, Structural)]
pub enum RunState {
    /// Nothing has happened yet; the run lock is not held.
    Idle,
    /// The run lock is held; the ledger's storage is being made ready.
    LockAcquired,
    /// The stored ledger is being read.
    Planning,
    /// Migrations are being worked on, one at a time.
    Applying,
    /// The work is over; the run lock is being given back.
    Finalizing,
    /// The run ended without an error.
    Completed,
    /// The run ended with an error.
    Failed,
}

/// What a run is asked to do.
#[derive(Clone, Copy, Debug, PartialEq, Eq, Structural)]
pub enum Command {
    /// Apply the migrations that are not in force.
    Up,
    /// Take back the migrations that are in force.
    Down,
    /// Take back the migrations that are in force and apply each again at once.
    Redo,
}

/// What to do when the content of an applied migration has changed.
#[derive(Clone, Copy, Debug, PartialEq, Eq, Structural)]
pub enum DriftPolicy {
    /// Give the run up.
    Strict,
    /// Note the versions and go on.
    Lenient,
}

/// The step in which the migration in hand stands.
#[derive(Clone, Copy, Debug, PartialEq, Eq, Structural)]
pub enum Phase {
    /// Its "down" content is being executed.
    Reverting,
    /// The ledger is being told that it was taken back.
    RecordingRevert,
    /// Its "up" content is being executed.
    Applying,
    /// The ledger is being told that it was applied.
    RecordingApply,
    /// The ledger is being told that it stopped part-way.
    RecordingFailure,
}

/// How a run ended for one migration.
#[derive(Clone, Copy, Debug, PartialEq, Eq, Structural)]
pub enum Outcome {
    Applied,
    Reverted,
    Failed,
    Skipped,
}

/// Why a run failed.
#[derive(Clone, Copy, Debug, PartialEq, Eq, Structural)]
pub enum RunError {
    /// Another run held the lock for longer than the caller would wait.
    LockTimeout,
    /// The directory does not yield a list of migrations.
    Discovery(DiscoveryError),
    /// The stored ledger has two entries in force for one version, or would
    /// get a second one.
    InvalidLedger,
    /// An applied migration changed its content, and the policy is strict.
    DriftDetected,
    /// The backend failed to execute a migration and left nothing of it behind.
    BackendExecutionError,
    /// A backend without transactions stopped part-way through a migration.
    PartialApplication,
    /// The ledger's storage could not be made ready or written.
    LedgerWriteError,
    /// The migration has no "down" content, or the backend cannot take
    /// migrations back.
    UnsupportedOperation,
    /// The caller gave the run up.
    Cancelled,
}

/// What the caller fixes before a run starts.
#[derive(Clone, Copy, Debug, PartialEq, Eq, Structural)]
pub struct RunSettings {
    pub kind: BackendKind,
    pub command: Command,
    /// Restricts the run to the migration of this version.
    pub only: Option<u64>,
    pub drift: DriftPolicy,
}

/// What happened outside since the last step.
#[derive(Clone, Debug, PartialEq, Eq)]
pub enum Event {
    LockGranted,
    LockTimedOut,
    StorageReady,
    StorageFailed,
    LedgerRead { entries: Vec<LedgerEntry> },
    Executed,
    ExecutionFailed { detail: String },
    PartiallyApplied { detail: String },
    Unsupported,
    LedgerWritten,
    LedgerWriteFailed,
    LockReleased,
    Cancelled,
}

/// What the caller is to do next.
#[derive(Clone, Debug, PartialEq, Eq)]
pub enum Action {
    /// Take the run lock; answer with `LockGranted` or `LockTimedOut`.
    AcquireLock,
    /// Make sure the ledger's storage exists; answer with `StorageReady` or
    /// `StorageFailed`.
    EnsureLedgerStorage,
    /// Read the stored ledger; answer with `LedgerRead`.
    ReadLedger,
    /// Execute the content; answer with `Executed`, `ExecutionFailed`,
    /// `PartiallyApplied` or `Unsupported`.
    Execute { content: Vec<u8>, direction: Direction },
    /// Store the entry; answer with `LedgerWritten` or `LedgerWriteFailed`.
    WriteLedger { entry: LedgerEntry },
    /// Give the run lock back; answer with `LockReleased`.
    ReleaseLock,
    /// Nothing: the run is over.
    Finish,
}

/// Mathematical content of an [`Action`].
pub enum ActionView {
    AcquireLock,
    EnsureLedgerStorage,
    ReadLedger,
    Execute { content: Seq<u8>, direction: Direction },
    WriteLedger { entry: LedgerEntryView },
    ReleaseLock,
    Finish,
}

impl View for Action {
    type V = ActionView;

    open spec fn view(&self) -> ActionView {
        match self {
            Action::AcquireLock => ActionView::AcquireLock,
            Action::EnsureLedgerStorage => ActionView::EnsureLedgerStorage,
            Action::ReadLedger => ActionView::ReadLedger,
            Action::Execute { content, direction } => ActionView::Execute {
                content: content@,
                direction: *direction,
            },
            Action::WriteLedger { entry } => ActionView::WriteLedger { entry: entry@ },
            Action::ReleaseLock => ActionView::ReleaseLock,
            Action::Finish => ActionView::Finish,
        }
    }
}

/// Mathematical content of a [`Run`].
pub struct RunView {
    pub settings: RunSettings,
    pub state: RunState,
    pub phase: Phase,
    /// The migrations of the directory, ascending by version.
    pub discovered: Seq<MigrationView>,
    /// The migrations the run works on, in the order in which it does.
    pub plan: Seq<MigrationView>,
    /// Position in `plan` of the migration in hand.
    pub cursor: int,
    /// The time of the last execution, which the next ledger entry carries.
    pub stamp: u64,
    pub ledger: Seq<LedgerEntryView>,
    pub results: Seq<ExecutionView>,
    /// Versions of applied migrations whose content has changed.
    pub drifted: Seq<u64>,
    pub error: Option<RunError>,
    pub detail: Seq<char>,
}

/// The run before anything has happened outside: the migrations of the
/// directory are discovered, and a directory that yields none ends the run
/// then and there, before anything is asked of the backend.
pub open spec fn started(settings: RunSettings, files: Seq<SourceFile>) -> RunView {
    RunView {
        settings,
        state: match discovery_error(files, settings.kind) {
            Some(_) => RunState::Failed,
            None => RunState::Idle,
        },
        phase: Phase::Applying,
        discovered: match discovery_error(files, settings.kind) {
            Some(_) => Seq::empty(),
            None => discovery_of(files, settings.kind),
        },
        plan: Seq::empty(),
        cursor: 0,
        stamp: 0,
        ledger: Seq::empty(),
        results: Seq::empty(),
        drifted: Seq::empty(),
        error: match discovery_error(files, settings.kind) {
            Some(e) => Some(RunError::Discovery(e)),
            None => None,
        },
        detail: Seq::empty(),
    }
}

/// A migration with its outcome.
pub open spec fn execution(m: MigrationView, outcome: Outcome) -> ExecutionView {
    ExecutionView { parsed: m.parsed, outcome }
}

/// The migrations of the plan from `from` on, each marked as skipped.
pub open spec fn skipped_from(plan: Seq<MigrationView>, from: int) -> Seq<ExecutionView> {
    Seq::new(
        if plan.len() >= from {
            (plan.len() - from) as nat
        } else {
            0
        },
        |i: int| execution(plan[from + i], Outcome::Skipped),
    )
}

/// The ledger entry that describes a migration.
pub open spec fn entry_for(m: MigrationView, at: u64, status: EntryStatus) -> LedgerEntryView {
    LedgerEntryView {
        version: m.parsed.id.version,
        slug: m.parsed.id.slug,
        checksum: m.checksum,
        applied_at: at,
        status,
    }
}

/// The versions of the discovered migrations whose entry in force carries
/// another checksum than their content has now, in the order of discovery.
pub open spec fn drift_list(ledger: Seq<LedgerEntryView>, discovered: Seq<MigrationView>) -> Seq<
    u64,
>
    decreases discovered.len(),
{
    if discovered.len() == 0 {
        Seq::empty()
    } else {
        let rest = drift_list(ledger, discovered.drop_last());
        let m = discovered.last();
        let i = first_in_force(ledger, m.parsed.id.version, 0);
        if i < ledger.len() && ledger[i].checksum != m.checksum {
            rest.push(m.parsed.id.version)
        } else {
            rest
        }
    }
}

/// The work is over: the lock goes back, with the error noted.
pub open spec fn finalize(r: RunView, error: Option<RunError>) -> RunView {
    RunView { state: RunState::Finalizing, error, ..r }
}

/// The migration in hand has failed: it is marked so, those behind it are
/// skipped, and the lock goes back.
pub open spec fn fail_at(r: RunView, error: RunError, detail: Seq<char>) -> RunView {
    RunView {
        state: RunState::Finalizing,
        error: Some(error),
        detail,
        results: r.results.push(execution(r.plan[r.cursor], Outcome::Failed)) + skipped_from(
            r.plan,
            r.cursor + 1,
        ),
        ..r
    }
}

/// The first step for a migration under a command.
pub open spec fn first_phase(command: Command) -> Phase {
    match command {
        Command::Up => Phase::Applying,
        Command::Down => Phase::Reverting,
        Command::Redo => Phase::Reverting,
    }
}

/// Takes the migration at the cursor in hand, or ends the work where the
/// plan is used up. A migration that is to be taken back and has no "down"
/// content fails at once.
pub open spec fn settle(r: RunView) -> RunView {
    if r.cursor >= r.plan.len() {
        finalize(r, None)
    } else if r.settings.command != Command::Up && r.plan[r.cursor].down is None {
        fail_at(r, RunError::UnsupportedOperation, Seq::empty())
    } else {
        RunView { state: RunState::Applying, phase: first_phase(r.settings.command), ..r }
    }
}

/// The migration in hand is done with the given outcome; the next is taken.
pub open spec fn complete_current(r: RunView, outcome: Outcome) -> RunView {
    settle(
        RunView {
            results: r.results.push(execution(r.plan[r.cursor], outcome)),
            cursor: r.cursor + 1,
            ..r
        },
    )
}

/// Planning: the check of the stored ledger, the search for drift, and the
/// choice of the migrations to work on.
pub open spec fn plan_run(r: RunView, entries: Seq<LedgerEntryView>) -> RunView {
    if !at_most_one_applied(entries) {
        finalize(r, Some(RunError::InvalidLedger))
    } else {
        let noted = RunView { ledger: entries, drifted: drift_list(entries, r.discovered), ..r };
        if r.settings.drift == DriftPolicy::Strict && noted.drifted.len() > 0 {
            finalize(noted, Some(RunError::DriftDetected))
        } else {
            settle(
                RunView {
                    plan: select_spec(
                        entries,
                        r.discovered,
                        r.settings.command != Command::Up,
                        r.settings.only,
                    ),
                    cursor: 0,
                    ..noted
                },
            )
        }
    }
}

/// The content of the migration in hand was executed at time `now`.
pub open spec fn on_executed(r: RunView, now: u64) -> RunView {
    RunView {
        phase: match r.phase {
            Phase::Reverting => Phase::RecordingRevert,
            _ => Phase::RecordingApply,
        },
        stamp: now,
        ..r
    }
}

/// The ledger entry for the migration in hand was stored.
pub open spec fn on_recorded(r: RunView) -> RunView {
    let m = r.plan[r.cursor];
    let version = m.parsed.id.version;
    match r.phase {
        Phase::RecordingApply => if is_applied(r.ledger, version) {
            fail_at(r, RunError::InvalidLedger, r.detail)
        } else {
            complete_current(
                RunView {
                    ledger: r.ledger.push(entry_for(m, r.stamp, EntryStatus::Applied)),
                    ..r
                },
                Outcome::Applied,
            )
        },
        Phase::RecordingRevert => if !is_applied(r.ledger, version) {
            fail_at(r, RunError::InvalidLedger, r.detail)
        } else {
            let i = first_in_force(r.ledger, version, 0);
            let ledger = r.ledger.update(i, reverted_at(r.ledger[i], r.stamp));
            if r.settings.command == Command::Redo {
                RunView { ledger, phase: Phase::Applying, ..r }
            } else {
                complete_current(RunView { ledger, ..r }, Outcome::Reverted)
            }
        },
        Phase::RecordingFailure => fail_at(
            RunView { ledger: r.ledger.push(entry_for(m, r.stamp, EntryStatus::Failed)), ..r },
            RunError::PartialApplication,
            r.detail,
        ),
        _ => r,
    }
}

/// The phase is one in which content is being executed.
pub open spec fn executing(phase: Phase) -> bool {
    phase == Phase::Reverting || phase == Phase::Applying
}

/// The run after an event that came at time `now`. An event that the state
/// does not wait for changes nothing.
#[verifier::opaque]
pub open spec fn step_spec(r: RunView, event: Event, now: u64) -> RunView {
    match r.state {
        RunState::Idle => match event {
            Event::LockGranted => RunView { state: RunState::LockAcquired, ..r },
            Event::LockTimedOut => RunView {
                state: RunState::Failed,
                error: Some(RunError::LockTimeout),
                ..r
            },
            Event::Cancelled => RunView {
                state: RunState::Failed,
                error: Some(RunError::Cancelled),
                ..r
            },
            _ => r,
        },
        RunState::LockAcquired => match event {
            Event::StorageReady => RunView { state: RunState::Planning, ..r },
            Event::StorageFailed => finalize(r, Some(RunError::LedgerWriteError)),
            Event::Cancelled => finalize(r, Some(RunError::Cancelled)),
            _ => r,
        },
        RunState::Planning => match event {
            Event::LedgerRead { entries } => plan_run(r, entry_views(entries@)),
            Event::Cancelled => finalize(r, Some(RunError::Cancelled)),
            _ => r,
        },
        RunState::Applying => if executing(r.phase) {
            match event {
                Event::Executed => on_executed(r, now),
                Event::ExecutionFailed { detail } => fail_at(
                    r,
                    RunError::BackendExecutionError,
                    detail@,
                ),
                Event::PartiallyApplied { detail } => RunView {
                    phase: Phase::RecordingFailure,
                    stamp: now,
                    detail: detail@,
                    ..r
                },
                Event::Unsupported => fail_at(r, RunError::UnsupportedOperation, r.detail),
                Event::Cancelled => fail_at(r, RunError::Cancelled, r.detail),
                _ => r,
            }
        } else {
            match event {
                Event::LedgerWritten => on_recorded(r),
                Event::LedgerWriteFailed => fail_at(r, RunError::LedgerWriteError, r.detail),
                Event::Cancelled => fail_at(r, RunError::Cancelled, r.detail),
                _ => r,
            }
        },
        RunState::Finalizing => match event {
            Event::LockReleased => RunView {
                state: if r.error is None {
                    RunState::Completed
                } else {
                    RunState::Failed
                },
                ..r
            },
            _ => r,
        },
        RunState::Completed => r,
        RunState::Failed => r,
    }
}

/// What the caller is to do in the state the run is in.
pub open spec fn outstanding_spec(r: RunView) -> ActionView {
    match r.state {
        RunState::Idle => ActionView::AcquireLock,
        RunState::LockAcquired => ActionView::EnsureLedgerStorage,
        RunState::Planning => ActionView::ReadLedger,
        RunState::Applying => {
            let m = r.plan[r.cursor];
            match r.phase {
                Phase::Reverting => ActionView::Execute {
                    content: m.down.unwrap().content,
                    direction: Direction::Down,
                },
                Phase::Applying => ActionView::Execute {
                    content: m.content,
                    direction: Direction::Up,
                },
                Phase::RecordingRevert => ActionView::WriteLedger {
                    entry: entry_for(m, r.stamp, EntryStatus::Reverted),
                },
                Phase::RecordingApply => ActionView::WriteLedger {
                    entry: entry_for(m, r.stamp, EntryStatus::Applied),
                },
                Phase::RecordingFailure => ActionView::WriteLedger {
                    entry: entry_for(m, r.stamp, EntryStatus::Failed),
                },
            }
        },
        RunState::Finalizing => ActionView::ReleaseLock,
        RunState::Completed => ActionView::Finish,
        RunState::Failed => ActionView::Finish,
    }
}

/// The run holds the run lock.
pub open spec fn holds_lock(r: RunView) -> bool {
    r.state == RunState::LockAcquired || r.state == RunState::Planning || r.state
        == RunState::Applying || r.state == RunState::Finalizing
}

/// The run is over.
pub open spec fn is_over(r: RunView) -> bool {
    r.state == RunState::Completed || r.state == RunState::Failed
}

/// The outcome is a success.
pub open spec fn is_success(outcome: Outcome) -> bool {
    outcome == Outcome::Applied || outcome == Outcome::Reverted
}

/// The outcome that the result at position `i` has in a run whose cursor
/// stands at `cursor`: what lies before the cursor succeeded, what lies at it
/// failed, what lies behind it was skipped.
pub open spec fn outcome_fits(outcome: Outcome, i: int, cursor: int) -> bool {
    if i < cursor {
        is_success(outcome)
    } else if i == cursor {
        outcome == Outcome::Failed
    } else {
        outcome == Outcome::Skipped
    }
}

/// The run ended because the directory yields no list of migrations.
pub open spec fn failed_discovery(r: RunView) -> bool {
    r.error is Some && r.error.unwrap() is Discovery
}

/// What holds of a run in every state it can reach.
pub open spec fn consistent(r: RunView) -> bool {
    &&& 0 <= r.cursor <= r.plan.len()
    &&& ascending(r.discovered)
    &&& ascending(r.plan)
    &&& failed_discovery(r) ==> r.state == RunState::Failed && r.plan.len() == 0
    &&& at_most_one_applied(r.ledger)
    &&& r.results.len() <= r.plan.len()
    &&& forall|i: int|
        0 <= i < r.results.len() ==> (#[trigger] r.results[i]).parsed == r.plan[i].parsed
            && outcome_fits(r.results[i].outcome, i, r.cursor)
    &&& match r.state {
        RunState::Idle | RunState::LockAcquired | RunState::Planning => {
            &&& r.plan.len() == 0
            &&& r.results.len() == 0
            &&& r.error is None
        },
        RunState::Applying => {
            &&& r.cursor < r.plan.len()
            &&& r.results.len() == r.cursor
            &&& r.error is None
            &&& r.phase == Phase::Reverting ==> r.plan[r.cursor].down is Some
        },
        RunState::Finalizing => {
            &&& r.results.len() == r.plan.len()
            &&& r.error is None ==> r.cursor == r.plan.len()
            &&& r.error is Some ==> r.cursor < r.plan.len() || r.plan.len() == 0
        },
        RunState::Completed => {
            &&& r.results.len() == r.plan.len()
            &&& r.cursor == r.plan.len()
            &&& r.error is None
        },
        RunState::Failed => {
            &&& r.results.len() == r.plan.len()
            &&& r.error is Some
            &&& r.cursor < r.plan.len() || r.plan.len() == 0
        },
    }
}

/// How far a state is from the end of the run.
pub open spec fn state_rank(state: RunState) -> nat {
    match state {
        RunState::Idle => 5,
        RunState::LockAcquired => 4,
        RunState::Planning => 3,
        RunState::Applying => 2,
        RunState::Finalizing => 1,
        RunState::Completed => 0,
        RunState::Failed => 0,
    }
}

/// How far a step is from the end of the work on one migration.
pub open spec fn phase_rank(phase: Phase) -> nat {
    match phase {
        Phase::Reverting => 4,
        Phase::RecordingRevert => 3,
        Phase::Applying => 2,
        Phase::RecordingApply => 1,
        Phase::RecordingFailure => 0,
    }
}

/// A bound on the steps that the work on the plan can still take.
pub open spec fn work_left(r: RunView) -> nat {
    if r.state == RunState::Applying && r.cursor <= r.plan.len() {
        ((r.plan.len() - r.cursor) * 5 + phase_rank(r.phase)) as nat
    } else {
        0
    }
}

/// The event answers the action that is outstanding.
pub open spec fn awaited(r: RunView, event: Event) -> bool {
    match r.state {
        RunState::Idle => event is LockGranted || event is LockTimedOut || event is Cancelled,
        RunState::LockAcquired => event is StorageReady || event is StorageFailed
            || event is Cancelled,
        RunState::Planning => event is LedgerRead || event is Cancelled,
        RunState::Applying => if executing(r.phase) {
            event is Executed || event is ExecutionFailed || event is PartiallyApplied
                || event is Unsupported || event is Cancelled
        } else {
            event is LedgerWritten || event is LedgerWriteFailed || event is Cancelled
        },
        RunState::Finalizing => event is LockReleased,
        RunState::Completed => false,
        RunState::Failed => false,
    }
}

/// The run after a sequence of events, each with the time at which it came.
pub open spec fn replay(r: RunView, events: Seq<(Event, u64)>) -> RunView
    decreases events.len(),
{
    if events.len() == 0 {
        r
    } else {
        step_spec(replay(r, events.drop_last()), events.last().0, events.last().1)
    }
}

/// Every event of the sequence answers the request that was outstanding
/// when it came.
pub open spec fn answers_in_turn(r: RunView, events: Seq<(Event, u64)>) -> bool {
    forall|k: int|
        0 <= k < events.len() ==> awaited(replay(r, events.subrange(0, k)), (#[trigger] events[k]).0)
}

/// The event is one of those with which the action can be answered.
pub open spec fn answers(action: ActionView, event: Event) -> bool {
    match action {
        ActionView::AcquireLock => event is LockGranted || event is LockTimedOut,
        ActionView::EnsureLedgerStorage => event is StorageReady || event is StorageFailed,
        ActionView::ReadLedger => event is LedgerRead,
        ActionView::Execute { .. } => event is Executed || event is ExecutionFailed
            || event is PartiallyApplied || event is Unsupported,
        ActionView::WriteLedger { .. } => event is LedgerWritten || event is LedgerWriteFailed,
        ActionView::ReleaseLock => event is LockReleased,
        ActionView::Finish => false,
    }
}

} // verus!

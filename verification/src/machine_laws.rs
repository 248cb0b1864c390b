//! What holds of every run: the invariants of the state machine and the
//! laws that follow from them.

use vstd::prelude::*;
use crate::ledger::{
    at_most_one_applied, entry_views, first_in_force, in_force_at, is_applied,
    lemma_first_in_force, lemma_select_complete, lemma_select_nothing, lemma_select_sound,
    pending_spec, reverted_at, select_spec, wanted, EntryStatus, LedgerEntry, LedgerEntryView,
};
use crate::lock::RunLock;
use crate::machine::{
    answers, answers_in_turn, awaited, complete_current, consistent, drift_list, entry_for,
    executing, execution, fail_at, failed_discovery, holds_lock, is_over, is_success,
    on_executed, outcome_fits, outstanding_spec, replay, settle, started, state_rank, step_spec,
    work_left, Command, DriftPolicy, Event, Outcome, Phase, RunError, RunSettings, RunState,
    RunView,
};
use crate::migrations::{discovery_error, MigrationView, SourceFile};

verus! {

/// Failing the migration in hand keeps a run consistent, whatever step the
/// migration stood in.
pub proof fn lemma_fail_at_consistent(r: RunView, error: RunError, detail: Seq<char>)
    requires
        consistent(RunView { phase: Phase::Applying, ..r }),
        r.state == RunState::Applying,
        !(error is Discovery),
    ensures
        consistent(fail_at(r, error, detail)),
{
    let f = fail_at(r, error, detail);
    assert(f.results.len() == r.plan.len());
    assert forall|i: int| 0 <= i < f.results.len() implies (#[trigger] f.results[i]).parsed
        == f.plan[i].parsed && outcome_fits(f.results[i].outcome, i, f.cursor) by {
        if i < r.cursor {
            assert(f.results[i] == r.results[i]);
        }
    }
}

/// Taking the next migration in hand keeps a run consistent.
pub proof fn lemma_settle_consistent(r: RunView)
    requires
        consistent(RunView { state: RunState::Applying, phase: Phase::Applying, ..r })
            || r.cursor == r.plan.len() && consistent(RunView { state: RunState::Finalizing, ..r }),
        r.error is None,
    ensures
        consistent(settle(r)),
{
    if r.cursor < r.plan.len() {
        if r.settings.command != Command::Up && r.plan[r.cursor].down is None {
            let b = RunView { state: RunState::Applying, ..r };
            lemma_fail_at_consistent(b, RunError::UnsupportedOperation, Seq::empty());
            assert(fail_at(b, RunError::UnsupportedOperation, Seq::empty()) == settle(r));
        }
    }
}

/// Finishing the migration in hand with a success keeps a run consistent.
pub proof fn lemma_complete_consistent(r: RunView, outcome: Outcome)
    requires
        consistent(r),
        r.state == RunState::Applying,
        is_success(outcome),
    ensures
        consistent(complete_current(r, outcome)),
{
    let next = RunView {
        results: r.results.push(execution(r.plan[r.cursor], outcome)),
        cursor: r.cursor + 1,
        ..r
    };
    assert forall|i: int| 0 <= i < next.results.len() implies (#[trigger] next.results[i]).parsed
        == next.plan[i].parsed && outcome_fits(next.results[i].outcome, i, next.cursor) by {
        if i < r.cursor {
            assert(next.results[i] == r.results[i]);
        }
    }
    if next.cursor < next.plan.len() {
        assert(consistent(RunView { state: RunState::Applying, phase: Phase::Applying, ..next }));
    } else {
        assert(consistent(RunView { state: RunState::Finalizing, ..next }));
    }
    lemma_settle_consistent(next);
}

/// Adding an entry that is not in force keeps the ledger in order.
pub proof fn lemma_push_keeps_order(ledger: Seq<LedgerEntryView>, entry: LedgerEntryView)
    requires
        at_most_one_applied(ledger),
        entry.status != EntryStatus::Applied || !is_applied(ledger, entry.version),
    ensures
        at_most_one_applied(ledger.push(entry)),
{
    let after = ledger.push(entry);
    assert forall|i: int, j: int, version: u64|
        #[trigger] in_force_at(after, version, i)
            && #[trigger] in_force_at(after, version, j) implies i == j by {
        if i < ledger.len() {
            assert(in_force_at(ledger, version, i));
        }
        if j < ledger.len() {
            assert(in_force_at(ledger, version, j));
        }
    }
}

/// Marking an entry as reverted keeps the ledger in order.
pub proof fn lemma_revert_keeps_order(ledger: Seq<LedgerEntryView>, i: int, at: u64)
    requires
        at_most_one_applied(ledger),
        0 <= i < ledger.len(),
    ensures
        at_most_one_applied(ledger.update(i, reverted_at(ledger[i], at))),
{
    let after = ledger.update(i, reverted_at(ledger[i], at));
    assert forall|a: int, b: int, version: u64|
        #[trigger] in_force_at(after, version, a)
            && #[trigger] in_force_at(after, version, b) implies a == b by {
        assert(in_force_at(ledger, version, a));
        assert(in_force_at(ledger, version, b));
    }
}

/// Every step keeps a run consistent.
pub proof fn lemma_step_consistent(r: RunView, event: Event, now: u64)
    requires
        consistent(r),
    ensures
        consistent(step_spec(r, event, now)),
{
    reveal(step_spec);
    let next = step_spec(r, event, now);
    match r.state {
        RunState::Planning => {
            if let Event::LedgerRead { entries } = event {
                let ledger = entry_views(entries@);
                if at_most_one_applied(ledger) {
                    let noted = RunView {
                        ledger,
                        drifted: drift_list(ledger, r.discovered),
                        ..r
                    };
                    if !(r.settings.drift == DriftPolicy::Strict && noted.drifted.len() > 0) {
                        lemma_select_sound(
                            ledger,
                            r.discovered,
                            r.settings.command != Command::Up,
                            r.settings.only,
                        );
                        let planned = RunView {
                            plan: select_spec(
                                ledger,
                                r.discovered,
                                r.settings.command != Command::Up,
                                r.settings.only,
                            ),
                            cursor: 0,
                            ..noted
                        };
                        if planned.plan.len() > 0 {
                            assert(consistent(
                                RunView {
                                    state: RunState::Applying,
                                    phase: Phase::Applying,
                                    ..planned
                                },
                            ));
                        } else {
                            assert(consistent(RunView { state: RunState::Finalizing, ..planned }));
                        }
                        lemma_settle_consistent(planned);
                    }
                }
            }
        },
        RunState::Applying => {
            lemma_fail_at_consistent(r, RunError::Cancelled, r.detail);
            lemma_fail_at_consistent(r, RunError::UnsupportedOperation, r.detail);
            lemma_fail_at_consistent(r, RunError::LedgerWriteError, r.detail);
            lemma_fail_at_consistent(r, RunError::InvalidLedger, r.detail);
            if let Event::ExecutionFailed { detail } = event {
                lemma_fail_at_consistent(r, RunError::BackendExecutionError, detail@);
            }
            if !executing(r.phase) && event is LedgerWritten {
                let m = r.plan[r.cursor];
                let version = m.parsed.id.version;
                match r.phase {
                    Phase::RecordingApply => {
                        if !is_applied(r.ledger, version) {
                            let entry = entry_for(m, r.stamp, EntryStatus::Applied);
                            lemma_push_keeps_order(r.ledger, entry);
                            lemma_complete_consistent(
                                RunView { ledger: r.ledger.push(entry), ..r },
                                Outcome::Applied,
                            );
                        }
                    },
                    Phase::RecordingRevert => {
                        if is_applied(r.ledger, version) {
                            lemma_first_in_force(r.ledger, version, 0);
                            let i = first_in_force(r.ledger, version, 0);
                            assert(i < r.ledger.len()) by {
                                let k = choose|k: int| in_force_at(r.ledger, version, k);
                                assert(in_force_at(r.ledger, version, k));
                            }
                            lemma_revert_keeps_order(r.ledger, i, r.stamp);
                            let ledger = r.ledger.update(i, reverted_at(r.ledger[i], r.stamp));
                            if r.settings.command != Command::Redo {
                                lemma_complete_consistent(
                                    RunView { ledger, ..r },
                                    Outcome::Reverted,
                                );
                            }
                        }
                    },
                    Phase::RecordingFailure => {
                        let entry = entry_for(m, r.stamp, EntryStatus::Failed);
                        lemma_push_keeps_order(r.ledger, entry);
                        lemma_fail_at_consistent(
                            RunView { ledger: r.ledger.push(entry), ..r },
                            RunError::PartialApplication,
                            r.detail,
                        );
                    },
                    _ => {},
                }
            }
        },
        _ => {},
    }
}

/// An event that the state does not wait for changes nothing.
pub proof fn lemma_step_ignores(r: RunView, event: Event, now: u64)
    requires
        !awaited(r, event),
    ensures
        step_spec(r, event, now) == r,
{
    reveal(step_spec);
}

/// Every awaited event brings the run nearer to its end: a run that is
/// driven by the answers to its own requests ends after finitely many steps.
pub proof fn lemma_step_progress(r: RunView, event: Event, now: u64)
    requires
        consistent(r),
        awaited(r, event),
    ensures
        state_rank(step_spec(r, event, now).state) < state_rank(r.state) || (state_rank(
            step_spec(r, event, now).state,
        ) == state_rank(r.state) && work_left(step_spec(r, event, now)) < work_left(r)),
{
    reveal(step_spec);
}

/// The run lock is given back on every way out: a run that holds the lock
/// ends only in answer to the release of the lock.
pub proof fn lemma_lock_released_before_end(r: RunView, event: Event, now: u64)
    requires
        holds_lock(r),
        is_over(step_spec(r, event, now)),
    ensures
        r.state == RunState::Finalizing,
        event is LockReleased,
{
    reveal(step_spec);
}

/// Migrations are worked on only under the run lock: no step leads into
/// `Applying` but from a state that holds the lock, and the lock is held only
/// after it was granted.
pub proof fn lemma_applies_only_under_lock(r: RunView, event: Event, now: u64)
    ensures
        step_spec(r, event, now).state == RunState::Applying ==> holds_lock(r),
        !holds_lock(r) && holds_lock(step_spec(r, event, now)) ==> r.state == RunState::Idle
            && event is LockGranted,
{
    reveal(step_spec);
}

/// Only the holder of the run lock touches the target: a run asks for an
/// execution or for a ledger entry to be stored only while it holds the lock.
pub proof fn lemma_writes_only_under_lock(r: RunView)
    ensures
        outstanding_spec(r) is Execute || outstanding_spec(r) is WriteLedger ==> r.state
            == RunState::Applying && holds_lock(r),
        outstanding_spec(r) is Finish <==> is_over(r),
{
}

/// One failure halts the run: once a migration has failed, those before it
/// stay as they ended, it is marked as failed, every later one is skipped,
/// and the plan is enumerated in full.
pub proof fn lemma_failure_halts(r: RunView)
    requires
        consistent(r),
        r.state == RunState::Finalizing || is_over(r),
        r.cursor < r.plan.len(),
    ensures
        r.error is Some,
        r.results.len() == r.plan.len(),
        r.results[r.cursor].outcome == Outcome::Failed,
        forall|i: int| 0 <= i < r.cursor ==> is_success((#[trigger] r.results[i]).outcome),
        forall|i: int|
            r.cursor < i < r.results.len() ==> (#[trigger] r.results[i]).outcome
                == Outcome::Skipped,
{
    assert(outcome_fits(r.results[r.cursor].outcome, r.cursor, r.cursor));
    assert forall|i: int| 0 <= i < r.cursor implies is_success((#[trigger] r.results[i]).outcome) by {
        assert(outcome_fits(r.results[i].outcome, i, r.cursor));
    }
    assert forall|i: int| r.cursor < i < r.results.len() implies (#[trigger] r.results[i]).outcome
        == Outcome::Skipped by {
        assert(outcome_fits(r.results[i].outcome, i, r.cursor));
    }
}

/// A run that is given up while a migration is in hand gives the lock back,
/// marks that migration as failed, and leaves the ledger as it was.
pub proof fn lemma_cancel_while_applying(r: RunView, now: u64)
    requires
        consistent(r),
        r.state == RunState::Applying,
    ensures
        step_spec(r, Event::Cancelled, now).state == RunState::Finalizing,
        step_spec(r, Event::Cancelled, now).error == Some(RunError::Cancelled),
        step_spec(r, Event::Cancelled, now).ledger == r.ledger,
        step_spec(r, Event::Cancelled, now).results[r.cursor].outcome == Outcome::Failed,
{
    reveal(step_spec);
}

/// Applying one migration: when its content was executed and its entry was
/// stored, the ledger has one more entry, in force, with the migration's
/// version and checksum and the time of the execution; the migration is
/// noted as applied, and the next one is taken.
pub proof fn lemma_apply_cycle(r: RunView, executed_at: u64, stored_at: u64)
    requires
        consistent(r),
        r.state == RunState::Applying,
        r.phase == Phase::Applying,
        !is_applied(r.ledger, r.plan[r.cursor].parsed.id.version),
    ensures
        ({
            let end = step_spec(
                step_spec(r, Event::Executed, executed_at),
                Event::LedgerWritten,
                stored_at,
            );
            let m = r.plan[r.cursor];
            &&& end.ledger == r.ledger.push(entry_for(m, executed_at, EntryStatus::Applied))
            &&& is_applied(end.ledger, m.parsed.id.version)
            &&& end.results.subrange(0, r.cursor + 1) == r.results.push(
                execution(m, Outcome::Applied),
            )
            &&& end.cursor == r.cursor + 1
            &&& end.plan == r.plan
        }),
{
    reveal(step_spec);
    let m = r.plan[r.cursor];
    let stored = RunView {
        ledger: r.ledger.push(entry_for(m, executed_at, EntryStatus::Applied)),
        ..on_executed(r, executed_at)
    };
    let next = RunView {
        results: stored.results.push(execution(m, Outcome::Applied)),
        cursor: stored.cursor + 1,
        ..stored
    };
    let end = settle(next);
    assert(in_force_at(stored.ledger, m.parsed.id.version, r.ledger.len() as int));
    assert(end.results.subrange(0, r.cursor + 1) =~= next.results);
}

/// Doing one migration again: when its "down" content was executed, the
/// ledger was told, its "up" content was executed and the ledger was told
/// again, the entry that was in force is marked as reverted and a new entry
/// in force stands at the end. The ledger has one entry more, and as many
/// in force as before.
pub proof fn lemma_redo_cycle(r: RunView, reverted_at_time: u64, applied_at_time: u64, now: u64)
    requires
        consistent(r),
        r.settings.command == Command::Redo,
        r.state == RunState::Applying,
        r.phase == Phase::Reverting,
        is_applied(r.ledger, r.plan[r.cursor].parsed.id.version),
    ensures
        ({
            let end = step_spec(
                step_spec(
                    step_spec(
                        step_spec(r, Event::Executed, reverted_at_time),
                        Event::LedgerWritten,
                        now,
                    ),
                    Event::Executed,
                    applied_at_time,
                ),
                Event::LedgerWritten,
                now,
            );
            let m = r.plan[r.cursor];
            let i = first_in_force(r.ledger, m.parsed.id.version, 0);
            &&& 0 <= i < r.ledger.len()
            &&& end.ledger == r.ledger.update(i, reverted_at(r.ledger[i], reverted_at_time)).push(
                entry_for(m, applied_at_time, EntryStatus::Applied),
            )
            &&& end.results.subrange(0, r.cursor + 1) == r.results.push(
                execution(m, Outcome::Applied),
            )
            &&& forall|version: u64|
                is_applied(end.ledger, version) == is_applied(r.ledger, version)
        }),
{
    reveal(step_spec);
    let m = r.plan[r.cursor];
    let v = m.parsed.id.version;
    lemma_first_in_force(r.ledger, v, 0);
    let i = first_in_force(r.ledger, v, 0);
    assert(i < r.ledger.len()) by {
        let k = choose|k: int| in_force_at(r.ledger, v, k);
        assert(in_force_at(r.ledger, v, k));
    }
    let reverted = r.ledger.update(i, reverted_at(r.ledger[i], reverted_at_time));
    assert forall|k: int| !in_force_at(reverted, v, k) by {
        if in_force_at(reverted, v, k) {
            assert(in_force_at(r.ledger, v, k));
            assert(in_force_at(r.ledger, v, i));
        }
    }
    let r1 = on_executed(r, reverted_at_time);
    let r2 = RunView { ledger: reverted, phase: Phase::Applying, ..r1 };
    assert(step_spec(r1, Event::LedgerWritten, now) == r2);
    let r3 = on_executed(r2, applied_at_time);
    let added = reverted.push(entry_for(m, applied_at_time, EntryStatus::Applied));
    let next = RunView {
        results: r3.results.push(execution(m, Outcome::Applied)),
        cursor: r3.cursor + 1,
        ledger: added,
        ..r3
    };
    let end = settle(next);
    assert(step_spec(r3, Event::LedgerWritten, now) == end);
    assert(end.results.subrange(0, r.cursor + 1) =~= next.results);
    assert forall|version: u64| is_applied(added, version) == is_applied(r.ledger, version) by {
        if is_applied(r.ledger, version) {
            let k = choose|k: int| in_force_at(r.ledger, version, k);
            if version == v {
                assert(in_force_at(added, version, reverted.len() as int));
            } else {
                assert(in_force_at(added, version, k));
            }
        }
        if is_applied(added, version) {
            let k = choose|k: int| in_force_at(added, version, k);
            if k < reverted.len() {
                assert(in_force_at(r.ledger, version, k));
            } else {
                assert(in_force_at(r.ledger, version, i));
            }
        }
    }
}

/// Some entry in force for the version carries the checksum.
pub open spec fn applied_with(ledger: Seq<LedgerEntryView>, version: u64, checksum: u64) -> bool {
    exists|i: int| #[trigger] in_force_at(ledger, version, i) && ledger[i].checksum == checksum
}

/// What holds of the ledger of a run that applies: every migration of the
/// plan before the cursor is in force with its checksum, and none from the
/// cursor on is in force.
pub open spec fn tracks_up(r: RunView) -> bool {
    r.settings.command == Command::Up ==> {
        &&& r.state == RunState::Applying ==> r.phase != Phase::Reverting && r.phase
            != Phase::RecordingRevert
        &&& forall|i: int|
            0 <= i < r.cursor && i < r.plan.len() ==> applied_with(
                r.ledger,
                (#[trigger] r.plan[i]).parsed.id.version,
                r.plan[i].checksum,
            )
        &&& forall|i: int|
            r.cursor <= i < r.plan.len() ==> !is_applied(
                r.ledger,
                (#[trigger] r.plan[i]).parsed.id.version,
            )
    }
}

/// What an added entry changes of what is in force.
pub proof fn lemma_push_in_force(ledger: Seq<LedgerEntryView>, entry: LedgerEntryView)
    ensures
        forall|version: u64|
            #[trigger] is_applied(ledger.push(entry), version) <==> is_applied(ledger, version) || (
            entry.status == EntryStatus::Applied && entry.version == version),
        forall|version: u64, checksum: u64| #[trigger]
            applied_with(ledger, version, checksum) ==> applied_with(
                ledger.push(entry),
                version,
                checksum,
            ),
        entry.status == EntryStatus::Applied ==> applied_with(
            ledger.push(entry),
            entry.version,
            entry.checksum,
        ),
{
    let after = ledger.push(entry);
    assert forall|version: u64| #[trigger]
        is_applied(after, version) <==> is_applied(ledger, version) || (entry.status
            == EntryStatus::Applied && entry.version == version) by {
        if is_applied(after, version) {
            let k = choose|k: int| in_force_at(after, version, k);
            if k < ledger.len() {
                assert(in_force_at(ledger, version, k));
            }
        }
        if is_applied(ledger, version) {
            let k = choose|k: int| in_force_at(ledger, version, k);
            assert(in_force_at(after, version, k));
        }
        if entry.status == EntryStatus::Applied && entry.version == version {
            assert(in_force_at(after, version, ledger.len() as int));
        }
    }
    assert forall|version: u64, checksum: u64| #[trigger]
        applied_with(ledger, version, checksum) implies applied_with(after, version, checksum) by {
        let k = choose|k: int| #[trigger]
            in_force_at(ledger, version, k) && ledger[k].checksum == checksum;
        assert(in_force_at(after, version, k) && after[k].checksum == checksum);
    }
    if entry.status == EntryStatus::Applied {
        assert(in_force_at(after, entry.version, ledger.len() as int));
    }
}

/// Every step keeps the ledger of a run that applies in line with its plan.
pub proof fn lemma_step_tracks_up(r: RunView, event: Event, now: u64)
    requires
        consistent(r),
        tracks_up(r),
    ensures
        tracks_up(step_spec(r, event, now)),
{
    reveal(step_spec);
    if r.settings.command == Command::Up {
        match r.state {
            RunState::Planning => {
                if let Event::LedgerRead { entries } = event {
                    let ledger = entry_views(entries@);
                    if at_most_one_applied(ledger) {
                        lemma_select_sound(ledger, r.discovered, false, r.settings.only);
                    }
                }
            },
            RunState::Applying => {
                let m = r.plan[r.cursor];
                let next = step_spec(r, event, now);
                if !executing(r.phase) && event is LedgerWritten {
                    match r.phase {
                        Phase::RecordingApply => {
                            if !is_applied(r.ledger, m.parsed.id.version) {
                                let entry = entry_for(m, r.stamp, EntryStatus::Applied);
                                lemma_push_in_force(r.ledger, entry);
                                assert forall|i: int| r.cursor + 1 <= i < r.plan.len() implies !is_applied(
                                    next.ledger,
                                    (#[trigger] r.plan[i]).parsed.id.version,
                                ) by {
                                    assert(r.plan[r.cursor].parsed.id.version
                                        < r.plan[i].parsed.id.version);
                                }
                            }
                        },
                        Phase::RecordingFailure => {
                            lemma_push_in_force(
                                r.ledger,
                                entry_for(m, r.stamp, EntryStatus::Failed),
                            );
                        },
                        _ => {},
                    }
                }
            },
            _ => {},
        }
    }
}

/// A run that applied to the end has put its whole plan in force: the
/// ledger holds, for every migration of the plan, an entry in force with
/// the migration's version and checksum.
pub proof fn lemma_completed_run_applied(r: RunView)
    requires
        consistent(r),
        tracks_up(r),
        r.settings.command == Command::Up,
        r.state == RunState::Completed,
    ensures
        r.results.len() == r.plan.len(),
        forall|i: int|
            0 <= i < r.plan.len() ==> (#[trigger] r.results[i]).outcome == Outcome::Applied
                || r.results[i].outcome == Outcome::Reverted,
        forall|i: int|
            0 <= i < r.plan.len() ==> applied_with(
                r.ledger,
                (#[trigger] r.plan[i]).parsed.id.version,
                r.plan[i].checksum,
            ),
{
    assert forall|i: int| 0 <= i < r.plan.len() implies (#[trigger] r.results[i]).outcome
        == Outcome::Applied || r.results[i].outcome == Outcome::Reverted by {
        assert(outcome_fits(r.results[i].outcome, i, r.cursor));
    }
}

/// A run that applies and was halted has left every migration from the
/// failed one on out of force.
pub proof fn lemma_halted_run_applied(r: RunView)
    requires
        consistent(r),
        tracks_up(r),
        r.settings.command == Command::Up,
        r.state == RunState::Finalizing || is_over(r),
    ensures
        forall|i: int|
            0 <= i < r.cursor && i < r.plan.len() ==> applied_with(
                r.ledger,
                (#[trigger] r.plan[i]).parsed.id.version,
                r.plan[i].checksum,
            ),
        forall|i: int|
            r.cursor <= i < r.plan.len() ==> !is_applied(
                r.ledger,
                (#[trigger] r.plan[i]).parsed.id.version,
            ),
{
}

/// Planning lies behind the run.
pub open spec fn has_planned(r: RunView) -> bool {
    r.state != RunState::Idle && r.state != RunState::LockAcquired && r.state
        != RunState::Planning
}

/// Once a run that applies has planned, a step changes neither its plan nor
/// what was in force: entries come into force, none goes out of it.
pub proof fn lemma_up_step_keeps(r: RunView, event: Event, now: u64)
    requires
        consistent(r),
        tracks_up(r),
        r.settings.command == Command::Up,
        has_planned(r),
    ensures
        consistent(step_spec(r, event, now)),
        tracks_up(step_spec(r, event, now)),
        has_planned(step_spec(r, event, now)),
        step_spec(r, event, now).plan == r.plan,
        step_spec(r, event, now).discovered == r.discovered,
        step_spec(r, event, now).settings == r.settings,
        forall|version: u64|
            is_applied(r.ledger, version) ==> #[trigger] is_applied(
                step_spec(r, event, now).ledger,
                version,
            ),
{
    lemma_step_consistent(r, event, now);
    lemma_step_tracks_up(r, event, now);
    reveal(step_spec);
    if r.state == RunState::Applying {
        let m = r.plan[r.cursor];
        lemma_push_in_force(r.ledger, entry_for(m, r.stamp, EntryStatus::Applied));
        lemma_push_in_force(r.ledger, entry_for(m, r.stamp, EntryStatus::Failed));
    }
}

/// The same of every sequence of events.
pub proof fn lemma_up_replay_keeps(r: RunView, events: Seq<(Event, u64)>)
    requires
        consistent(r),
        tracks_up(r),
        r.settings.command == Command::Up,
        has_planned(r),
    ensures
        consistent(replay(r, events)),
        tracks_up(replay(r, events)),
        has_planned(replay(r, events)),
        replay(r, events).plan == r.plan,
        replay(r, events).discovered == r.discovered,
        replay(r, events).settings == r.settings,
        forall|version: u64|
            is_applied(r.ledger, version) ==> #[trigger] is_applied(
                replay(r, events).ledger,
                version,
            ),
    decreases events.len(),
{
    if events.len() > 0 {
        lemma_up_replay_keeps(r, events.drop_last());
        lemma_up_step_keeps(replay(r, events.drop_last()), events.last().0, events.last().1);
    }
}

/// Running again finds nothing to do: when a run has planned to apply
/// whatever of the discovered migrations was pending, and has come to its
/// end without an error, none of them is pending against the ledger it
/// leaves behind.
pub proof fn lemma_rerun_finds_nothing(r: RunView, events: Seq<(Event, u64)>)
    requires
        consistent(r),
        tracks_up(r),
        r.settings.command == Command::Up,
        has_planned(r),
        r.plan == pending_spec(r.ledger, r.discovered),
        replay(r, events).state == RunState::Completed,
    ensures
        pending_spec(replay(r, events).ledger, replay(r, events).discovered) == Seq::<
            MigrationView,
        >::empty(),
{
    let end = replay(r, events);
    let discovered = r.discovered;
    lemma_up_replay_keeps(r, events);
    lemma_completed_run_applied(end);
    assert forall|k: int| 0 <= k < discovered.len() implies !wanted(
        end.ledger,
        #[trigger] discovered[k],
        false,
        None,
    ) by {
        let version = discovered[k].parsed.id.version;
        if is_applied(r.ledger, version) {
            assert(is_applied(end.ledger, version));
        } else {
            lemma_select_complete(r.ledger, discovered, false, None, k);
            let i = choose|i: int| 0 <= i < r.plan.len() && r.plan[i] == discovered[k];
            assert(applied_with(end.ledger, end.plan[i].parsed.id.version, end.plan[i].checksum));
            let j = choose|j: int| #[trigger]
                in_force_at(end.ledger, version, j) && end.ledger[j].checksum
                    == end.plan[i].checksum;
            assert(in_force_at(end.ledger, version, j));
        }
    }
    lemma_select_nothing(end.ledger, discovered, false, None);
}

/// The plan of a run that applies everything is what was pending when the
/// stored ledger was read.
pub proof fn lemma_plan_is_pending(r: RunView, entries: Vec<LedgerEntry>, now: u64)
    requires
        consistent(r),
        r.state == RunState::Planning,
        r.settings.command == Command::Up,
        r.settings.only is None,
        step_spec(r, Event::LedgerRead { entries }, now).error is None,
    ensures
        step_spec(r, Event::LedgerRead { entries }, now).ledger == entry_views(entries@),
        step_spec(r, Event::LedgerRead { entries }, now).plan == pending_spec(
            entry_views(entries@),
            r.discovered,
        ),
{
    reveal(step_spec);
}

/// A directory that yields no list of migrations ends the run before it
/// starts: nothing is asked of the backend, no event changes the run, and
/// the error is the one of discovery. No other run ends with such an error.
pub proof fn lemma_discovery_comes_first(
    settings: RunSettings,
    files: Seq<SourceFile>,
    events: Seq<(Event, u64)>,
)
    ensures
        match discovery_error(files, settings.kind) {
            Some(e) => {
                &&& outstanding_spec(started(settings, files)) is Finish
                &&& replay(started(settings, files), events) == started(settings, files)
                &&& started(settings, files).error == Some(RunError::Discovery(e))
                &&& started(settings, files).results.len() == 0
            },
            None => {
                &&& outstanding_spec(started(settings, files)) is AcquireLock
                &&& !failed_discovery(replay(started(settings, files), events))
            },
        },
    decreases events.len(),
{
    reveal(step_spec);
    if events.len() > 0 {
        lemma_discovery_comes_first(settings, files, events.drop_last());
    }
}

/// An answer to the outstanding request is an event that the run waits for.
pub proof fn lemma_answer_awaited(r: RunView, event: Event)
    requires
        consistent(r),
        answers(outstanding_spec(r), event),
    ensures
        awaited(r, event),
{
}

/// The lock knows of the run: a run that holds the run lock is its owner.
pub open spec fn lock_agrees(lock: RunLock, owner: u64, r: RunView) -> bool {
    holds_lock(r) ==> lock.owner == Some(owner)
}

/// The lock after a step of the run of `owner`: taken where the run was
/// granted it, given back where the run released it, else as it was.
pub open spec fn lock_after(
    lock: RunLock,
    owner: u64,
    r: RunView,
    event: Event,
    now: u64,
    lease: u64,
) -> RunLock {
    if r.state == RunState::Idle && event is LockGranted {
        lock.acquired(owner, now, lease)
    } else if r.state == RunState::Finalizing && event is LockReleased {
        lock.released(owner)
    } else {
        lock
    }
}

/// Of two runs on one lock, at most one holds it, and so at most one is
/// applying, as long as the lock knows of both.
pub proof fn lemma_one_run_at_a_time(lock: RunLock, first: u64, a: RunView, second: u64, b: RunView)
    requires
        first != second,
        lock_agrees(lock, first, a),
        lock_agrees(lock, second, b),
    ensures
        !(holds_lock(a) && holds_lock(b)),
        !(a.state == RunState::Applying && b.state == RunState::Applying),
{
}

/// The lock keeps knowing of two runs through every step of one of them,
/// where the step is granted the lock only if the lock grants it, and the
/// other run, while it holds the lock, keeps its lease valid. A run that is
/// refused the lock ends with `LockTimeout` and never applies.
pub proof fn lemma_shared_lock_step(
    lock: RunLock,
    owner: u64,
    r: RunView,
    other: u64,
    waiting: RunView,
    event: Event,
    now: u64,
    lease: u64,
)
    requires
        owner != other,
        lock_agrees(lock, owner, r),
        lock_agrees(lock, other, waiting),
        holds_lock(waiting) ==> lock.holder_at(now) == Some(other),
        r.state == RunState::Idle && event is LockGranted ==> lock.grants(owner, now),
    ensures
        lock_agrees(lock_after(lock, owner, r, event, now, lease), owner, step_spec(r, event, now)),
        lock_agrees(lock_after(lock, owner, r, event, now, lease), other, waiting),
        r.state == RunState::Idle && event is LockTimedOut ==> step_spec(r, event, now).state
            == RunState::Failed && step_spec(r, event, now).error == Some(RunError::LockTimeout),
{
    reveal(step_spec);
}

/// Two runs against one target: the lock that they share, and where each
/// of them stands.
pub struct Shared {
    pub lock: RunLock,
    pub first_owner: u64,
    pub first: RunView,
    pub second_owner: u64,
    pub second: RunView,
}

/// One move: one of the two runs takes an event in.
pub struct Move {
    pub by_second: bool,
    pub event: Event,
    pub now: u64,
}

/// The move is fair: the run that moves is granted the lock only where the
/// lock grants it, and the other run, while it holds the lock, keeps its
/// lease valid.
pub open spec fn fair(s: Shared, m: Move) -> bool {
    if m.by_second {
        &&& s.second.state == RunState::Idle && m.event is LockGranted ==> s.lock.grants(
            s.second_owner,
            m.now,
        )
        &&& holds_lock(s.first) ==> s.lock.holder_at(m.now) == Some(s.first_owner)
    } else {
        &&& s.first.state == RunState::Idle && m.event is LockGranted ==> s.lock.grants(
            s.first_owner,
            m.now,
        )
        &&& holds_lock(s.second) ==> s.lock.holder_at(m.now) == Some(s.second_owner)
    }
}

/// The two runs and their lock after a move.
pub open spec fn moved(s: Shared, m: Move, lease: u64) -> Shared {
    if m.by_second {
        Shared {
            lock: lock_after(s.lock, s.second_owner, s.second, m.event, m.now, lease),
            second: step_spec(s.second, m.event, m.now),
            ..s
        }
    } else {
        Shared {
            lock: lock_after(s.lock, s.first_owner, s.first, m.event, m.now, lease),
            first: step_spec(s.first, m.event, m.now),
            ..s
        }
    }
}

/// The two runs and their lock after a sequence of moves.
pub open spec fn played(s: Shared, moves: Seq<Move>, lease: u64) -> Shared
    decreases moves.len(),
{
    if moves.len() == 0 {
        s
    } else {
        moved(played(s, moves.drop_last(), lease), moves.last(), lease)
    }
}

/// Every move of the sequence is fair where it is made.
pub open spec fn all_fair(s: Shared, moves: Seq<Move>, lease: u64) -> bool {
    forall|k: int|
        0 <= k < moves.len() ==> fair(played(s, moves.subrange(0, k), lease), #[trigger] moves[k])
}

/// The run has work outstanding on the target: a content to execute or a
/// ledger entry to store.
pub open spec fn works(r: RunView) -> bool {
    outstanding_spec(r) is Execute || outstanding_spec(r) is WriteLedger
}

/// Two runs never interleave: however the moves of two runs on one lock
/// follow one another, as long as each is fair, at most one of the runs
/// holds the lock, and only that one has work outstanding on the target.
/// So whatever the second run executes or stores, it does while the first
/// does not hold the lock: before the first was granted it, or after the
/// first gave it back.
pub proof fn lemma_runs_never_interleave(s: Shared, moves: Seq<Move>, lease: u64)
    requires
        s.first_owner != s.second_owner,
        lock_agrees(s.lock, s.first_owner, s.first),
        lock_agrees(s.lock, s.second_owner, s.second),
        all_fair(s, moves, lease),
    ensures
        played(s, moves, lease).first_owner == s.first_owner,
        played(s, moves, lease).second_owner == s.second_owner,
        lock_agrees(played(s, moves, lease).lock, s.first_owner, played(s, moves, lease).first),
        lock_agrees(played(s, moves, lease).lock, s.second_owner, played(s, moves, lease).second),
        !(holds_lock(played(s, moves, lease).first) && holds_lock(played(s, moves, lease).second)),
        !(works(played(s, moves, lease).first) && works(played(s, moves, lease).second)),
        works(played(s, moves, lease).second) ==> !holds_lock(played(s, moves, lease).first),
    decreases moves.len(),
{
    if moves.len() > 0 {
        let init = moves.drop_last();
        let m = moves.last();
        assert forall|k: int| 0 <= k < init.len() implies fair(
            played(s, init.subrange(0, k), lease),
            #[trigger] init[k],
        ) by {
            assert(init.subrange(0, k) == moves.subrange(0, k));
            assert(init[k] == moves[k]);
        }
        lemma_runs_never_interleave(s, init, lease);
        let before = played(s, init, lease);
        assert(moves.subrange(0, moves.len() - 1) == init);
        assert(fair(before, moves[moves.len() - 1]));
        if m.by_second {
            lemma_shared_lock_step(
                before.lock,
                before.second_owner,
                before.second,
                before.first_owner,
                before.first,
                m.event,
                m.now,
                lease,
            );
        } else {
            lemma_shared_lock_step(
                before.lock,
                before.first_owner,
                before.first,
                before.second_owner,
                before.second,
                m.event,
                m.now,
                lease,
            );
        }
    }
    let end = played(s, moves, lease);
    lemma_one_run_at_a_time(end.lock, s.first_owner, end.first, s.second_owner, end.second);
    lemma_writes_only_under_lock(end.first);
    lemma_writes_only_under_lock(end.second);
}

/// One more awaited event at the end of a sequence of events.
pub proof fn lemma_one_more_event(
    start: RunView,
    sofar: Seq<(Event, u64)>,
    event: Event,
    now: u64,
)
    requires
        answers_in_turn(start, sofar),
        awaited(replay(start, sofar), event),
    ensures
        answers_in_turn(start, sofar.push((event, now))),
        replay(start, sofar.push((event, now))) == step_spec(replay(start, sofar), event, now),
{
    let events = sofar.push((event, now));
    assert(events.drop_last() == sofar);
    assert forall|k: int| 0 <= k < events.len() implies awaited(
        replay(start, events.subrange(0, k)),
        (#[trigger] events[k]).0,
    ) by {
        if k < sofar.len() {
            assert(events.subrange(0, k) == sofar.subrange(0, k));
            assert(events[k] == sofar[k]);
        } else {
            assert(events.subrange(0, k) == sofar);
        }
    }
}

} // verus!

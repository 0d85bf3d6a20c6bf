use crate::calendar::{days_in_month, is_last_day_of_month, local_now, Date};
use crate::monitor::{calls_for_backup, handle_event, ChangeKind, WAIT_SECONDS};
use vstd::prelude::*;

verus! {

/// Where the control loop stands.
#[derive(Clone, Copy, Debug, PartialEq, Eq, Structural)]
pub enum Phase {
    /// Before the first wait: the locations are being looked at for earlier backups.
    Starting,
    /// Waiting for the next change or for the wait budget to run out.
    Waiting,
    /// A backup cycle is running. `at_startup` tells the initial backup, which
    /// leads straight to the first wait, from one that answers a change.
    BackingUp { at_startup: bool },
    /// A snapshot cycle is running.
    Snapshotting,
}

/// What the program reports back to the control loop.
#[derive(Clone, Copy, Debug, PartialEq, Eq, Structural)]
pub enum Report {
    /// The locations were looked at; `found` tells whether any of them holds a
    /// daily-backup namespace.
    FoldersProbed { found: bool },
    /// The monitor delivered a change.
    Change(ChangeKind),
    /// The monitor delivered an error.
    WatchError,
    /// The wait budget ran out with no change.
    TimedOut,
    /// The backup cycle has finished.
    BackupDone,
    /// The snapshot cycle has finished.
    SnapshotDone,
}

/// What a look at one location found where its daily-backup namespace would be.
#[derive(Clone, Copy, Debug, PartialEq, Eq, Structural)]
pub struct NamespaceProbe {
    /// Whether anything stands at that path.
    pub exists: bool,
    /// Whether what stands there is a directory.
    pub is_dir: bool,
}

/// What the control loop asks the program to do next.
#[derive(Clone, Copy, Debug, PartialEq, Eq, Structural)]
pub enum Action {
    /// Look at each location for a daily-backup namespace and report `FoldersProbed`.
    ProbeFolders,
    /// Run one backup cycle and report `BackupDone`.
    RunBackup,
    /// Run one snapshot cycle for the given date and report `SnapshotDone`.
    RunSnapshot(Date),
    /// Wait for the monitor, at most the given number of seconds, and report
    /// what came: `Change`, `WatchError` or `TimedOut`.
    AwaitChange { seconds: u64 },
}

/// The idle state: waiting for the monitor, for at most `WAIT_SECONDS`.
pub open spec fn waiting() -> (Phase, Action) {
    (Phase::Waiting, Action::AwaitChange { seconds: WAIT_SECONDS })
}

/// Whether the day is the last of its month.
pub open spec fn is_month_end(today: Date) -> bool {
    today@.day == days_in_month(today@.year, today@.month)
}

/// The check that ends every wake-up: on the last day of a month a snapshot
/// cycle for that day, on any other day the next wait of `WAIT_SECONDS`.
pub open spec fn after_wake_up(today: Date) -> (Phase, Action) {
    if is_month_end(today) {
        (Phase::Snapshotting, Action::RunSnapshot(today))
    } else {
        waiting()
    }
}

/// The control loop's transition: the phase and the action that follow when
/// `report` arrives in `phase` on the day `today`, or `None` where the report
/// does not answer what the phase asked for.
pub open spec fn next_step(phase: Phase, report: Report, today: Date) -> Option<(Phase, Action)> {
    match (phase, report) {
        (Phase::Starting, Report::FoldersProbed { found }) => Some(
            if found {
                waiting()
            } else {
                (Phase::BackingUp { at_startup: true }, Action::RunBackup)
            },
        ),
        (Phase::Waiting, Report::Change(kind)) => Some(
            if calls_for_backup(kind) {
                (Phase::BackingUp { at_startup: false }, Action::RunBackup)
            } else {
                after_wake_up(today)
            },
        ),
        (Phase::Waiting, Report::WatchError) => Some(after_wake_up(today)),
        (Phase::Waiting, Report::TimedOut) => Some(after_wake_up(today)),
        (Phase::BackingUp { at_startup }, Report::BackupDone) => Some(
            if at_startup {
                waiting()
            } else {
                after_wake_up(today)
            },
        ),
        (Phase::Snapshotting, Report::SnapshotDone) => Some(waiting()),
        _ => None,
    }
}

/// The control loop has no terminal phase: in each phase there is a report that
/// leads on.
pub proof fn lemma_no_terminal_phase(phase: Phase, today: Date)
    ensures
        exists|report: Report| #[trigger] next_step(phase, report, today) is Some,
{
    match phase {
        Phase::Starting => {
            assert(next_step(phase, Report::FoldersProbed { found: true }, today) is Some);
        },
        Phase::Waiting => {
            assert(next_step(phase, Report::TimedOut, today) is Some);
        },
        Phase::BackingUp { at_startup } => {
            assert(next_step(phase, Report::BackupDone, today) is Some);
        },
        Phase::Snapshotting => {
            assert(next_step(phase, Report::SnapshotDone, today) is Some);
        },
    }
}

/// The phase entered tells what was asked for: a backup cycle is asked for
/// exactly on entering `BackingUp`, a snapshot cycle exactly on entering
/// `Snapshotting`, a wait exactly on entering `Waiting`; and the loop never
/// returns to `Starting`.
pub proof fn lemma_phase_matches_action(phase: Phase, report: Report, today: Date)
    ensures
        next_step(phase, report, today) matches Some((next, action)) ==> {
            &&& action is RunBackup <==> next is BackingUp
            &&& action is RunSnapshot <==> next is Snapshotting
            &&& action is AwaitChange <==> next is Waiting
            &&& action !is ProbeFolders
            &&& next !is Starting
        },
{
}

/// One cycle at a time: while a backup or a snapshot cycle runs, the only
/// report that leads on is that the cycle has finished, so no change is taken
/// up and no other cycle is started until then.
pub proof fn lemma_cycles_run_alone(phase: Phase, report: Report, today: Date)
    requires
        next_step(phase, report, today) is Some,
    ensures
        phase is BackingUp ==> report is BackupDone,
        phase is Snapshotting ==> report is SnapshotDone,
{
}

/// A backup cycle is started in two cases and no other: at startup, when no
/// location holds a daily-backup namespace, and while waiting, when a creation,
/// a modification or a removal is reported. A monitor error and a timeout never
/// start one.
pub proof fn lemma_backup_triggers(phase: Phase, report: Report, today: Date)
    ensures
        (next_step(phase, report, today) matches Some((_, action)) && action is RunBackup) <==> ({
            ||| phase is Starting && report == (Report::FoldersProbed { found: false })
            ||| phase is Waiting && (report matches Report::Change(kind) && calls_for_backup(kind))
        }),
{
}

/// Every wake-up ends with the month-end check: after a timeout, a monitor
/// error, an ignored change, or the backup that answered a change, the loop
/// goes on as `after_wake_up` says for the day. A snapshot cycle is asked for
/// only there, only for the current day, and only on the last day of a month.
pub proof fn lemma_snapshot_check_after_every_wake_up(phase: Phase, report: Report, today: Date)
    ensures
        ({
            ||| phase is Waiting && (report is TimedOut || report is WatchError)
            ||| phase is Waiting && (report matches Report::Change(kind) && !calls_for_backup(kind))
            ||| phase == (Phase::BackingUp { at_startup: false }) && report is BackupDone
        }) ==> next_step(phase, report, today) == Some(after_wake_up(today)),
        next_step(phase, report, today) matches Some((_, Action::RunSnapshot(date))) ==> date
            == today && is_month_end(today),
{
}

/// Where the control loop begins, and the first thing it asks for.
pub fn start() -> (first: (Phase, Action))
    ensures
        first == (Phase::Starting, Action::ProbeFolders),
{
    (Phase::Starting, Action::ProbeFolders)
}

/// Whether any location already holds a daily-backup namespace: whether any of
/// the probes found a directory.
pub fn backup_folders_exist(probes: &Vec<NamespaceProbe>) -> (found: bool)
    ensures
        found == exists|i: int|
            0 <= i < probes.len() && (#[trigger] probes[i]).exists && probes[i].is_dir,
{
    let mut i: usize = 0;
    while i < probes.len()
        invariant
            i <= probes.len(),
            forall|k: int| 0 <= k < i ==> !((#[trigger] probes[k]).exists && probes[k].is_dir),
        decreases probes.len() - i,
    {
        if probes[i].exists && probes[i].is_dir {
            return true;
        }
        i = i + 1;
    }
    false
}

fn wait() -> (next: (Phase, Action))
    ensures
        next == waiting(),
{
    (Phase::Waiting, Action::AwaitChange { seconds: WAIT_SECONDS })
}

fn wake_up_check(today: Date) -> (next: (Phase, Action))
    ensures
        next == after_wake_up(today),
{
    if is_last_day_of_month(today) {
        (Phase::Snapshotting, Action::RunSnapshot(today))
    } else {
        wait()
    }
}

/// One transition of the control loop on a given day.
pub fn transition(phase: Phase, report: Report, today: Date) -> (next: Option<(Phase, Action)>)
    ensures
        next == next_step(phase, report, today),
{
    match phase {
        Phase::Starting => match report {
            Report::FoldersProbed { found } => {
                if found {
                    Some(wait())
                } else {
                    Some((Phase::BackingUp { at_startup: true }, Action::RunBackup))
                }
            },
            _ => None,
        },
        Phase::Waiting => match report {
            Report::Change(kind) => {
                if handle_event(kind) {
                    Some((Phase::BackingUp { at_startup: false }, Action::RunBackup))
                } else {
                    Some(wake_up_check(today))
                }
            },
            Report::WatchError => Some(wake_up_check(today)),
            Report::TimedOut => Some(wake_up_check(today)),
            _ => None,
        },
        Phase::BackingUp { at_startup } => match report {
            Report::BackupDone => {
                if at_startup {
                    Some(wait())
                } else {
                    Some(wake_up_check(today))
                }
            },
            _ => None,
        },
        Phase::Snapshotting => match report {
            Report::SnapshotDone => Some(wait()),
            _ => None,
        },
    }
}

/// One transition of the control loop, on the day the clock shows when the
/// report arrives.
pub fn advance(phase: Phase, report: Report) -> (next: Option<(Phase, Action)>)
    ensures
        exists|today: Date| today.wf() && next == #[trigger] next_step(phase, report, today),
{
    let now = local_now();
    let today = now.date();
    proof {
        use_type_invariant(today);
    }
    transition(phase, report, today)
}

} // verus!

use backup_warden::calendar::{is_last_day_of_month, Date, Timestamp};
use backup_warden::config::BackupWardenConfig;
use backup_warden::control::{
    advance, backup_folders_exist, start, transition, Action, NamespaceProbe, Phase, Report,
};
use backup_warden::layout::backup_cycle;
use backup_warden::mirror::{copy_dir_all, CopyStep};
use backup_warden::monitor::{handle_event, ChangeKind, POLL_INTERVAL_SECONDS, WAIT_SECONDS};

const KINDS: [ChangeKind; 6] = [
    ChangeKind::Any,
    ChangeKind::Access,
    ChangeKind::Create,
    ChangeKind::Modify,
    ChangeKind::Remove,
    ChangeKind::Other,
];

fn mid_month() -> Date {
    Date::from_ymd_opt(2024, 1, 30).unwrap()
}

fn month_end() -> Date {
    Date::from_ymd_opt(2024, 1, 31).unwrap()
}

fn all_reports() -> Vec<Report> {
    let mut reports = vec![
        Report::FoldersProbed { found: true },
        Report::FoldersProbed { found: false },
        Report::WatchError,
        Report::TimedOut,
        Report::BackupDone,
        Report::SnapshotDone,
    ];
    for kind in KINDS {
        reports.push(Report::Change(kind));
    }
    reports
}

#[test]
fn only_creation_modification_and_removal_call_for_a_backup() {
    assert!(handle_event(ChangeKind::Create));
    assert!(handle_event(ChangeKind::Modify));
    assert!(handle_event(ChangeKind::Remove));
    assert!(!handle_event(ChangeKind::Any));
    assert!(!handle_event(ChangeKind::Access));
    assert!(!handle_event(ChangeKind::Other));
}

#[test]
fn waiting_and_polling_periods() {
    assert_eq!(WAIT_SECONDS, 60);
    assert_eq!(POLL_INTERVAL_SECONDS, 3600);
}

#[test]
fn any_directory_counts_as_an_earlier_backup() {
    let missing = NamespaceProbe { exists: false, is_dir: false };
    let a_file = NamespaceProbe { exists: true, is_dir: false };
    let a_dir = NamespaceProbe { exists: true, is_dir: true };
    assert!(!backup_folders_exist(&vec![]));
    assert!(!backup_folders_exist(&vec![missing]));
    assert!(!backup_folders_exist(&vec![missing, a_file]));
    assert!(backup_folders_exist(&vec![a_dir]));
    assert!(backup_folders_exist(&vec![missing, a_file, a_dir]));
    assert!(backup_folders_exist(&vec![a_dir, missing]));
    assert!(!backup_folders_exist(&vec![NamespaceProbe { exists: false, is_dir: true }]));
}

#[test]
fn the_loop_starts_by_looking_for_earlier_backups() {
    assert_eq!(start(), (Phase::Starting, Action::ProbeFolders));
}

#[test]
fn startup_backs_up_once_where_nothing_was_found() {
    for today in [mid_month(), month_end()] {
        assert_eq!(
            transition(Phase::Starting, Report::FoldersProbed { found: false }, today),
            Some((Phase::BackingUp { at_startup: true }, Action::RunBackup))
        );
        assert_eq!(
            transition(Phase::Starting, Report::FoldersProbed { found: true }, today),
            Some((Phase::Waiting, Action::AwaitChange { seconds: 60 }))
        );
        assert_eq!(
            transition(Phase::BackingUp { at_startup: true }, Report::BackupDone, today),
            Some((Phase::Waiting, Action::AwaitChange { seconds: 60 }))
        );
    }
}

#[test]
fn a_change_is_answered_with_a_backup() {
    for today in [mid_month(), month_end()] {
        for kind in [ChangeKind::Create, ChangeKind::Modify, ChangeKind::Remove] {
            assert_eq!(
                transition(Phase::Waiting, Report::Change(kind), today),
                Some((Phase::BackingUp { at_startup: false }, Action::RunBackup))
            );
        }
    }
}

#[test]
fn every_wake_up_ends_with_the_month_end_check() {
    let wake_ups = [
        (Phase::Waiting, Report::TimedOut),
        (Phase::Waiting, Report::WatchError),
        (Phase::Waiting, Report::Change(ChangeKind::Access)),
        (Phase::Waiting, Report::Change(ChangeKind::Any)),
        (Phase::Waiting, Report::Change(ChangeKind::Other)),
        (Phase::BackingUp { at_startup: false }, Report::BackupDone),
    ];
    for (phase, report) in wake_ups {
        assert_eq!(
            transition(phase, report, mid_month()),
            Some((Phase::Waiting, Action::AwaitChange { seconds: 60 }))
        );
        assert_eq!(
            transition(phase, report, month_end()),
            Some((Phase::Snapshotting, Action::RunSnapshot(month_end())))
        );
    }
}

#[test]
fn after_a_snapshot_the_loop_waits_again() {
    for today in [mid_month(), month_end()] {
        assert_eq!(
            transition(Phase::Snapshotting, Report::SnapshotDone, today),
            Some((Phase::Waiting, Action::AwaitChange { seconds: 60 }))
        );
    }
}

#[test]
fn reports_that_answer_nothing_are_refused() {
    let phases = [
        Phase::Starting,
        Phase::Waiting,
        Phase::BackingUp { at_startup: true },
        Phase::BackingUp { at_startup: false },
        Phase::Snapshotting,
    ];
    for phase in phases {
        let mut accepted = 0;
        for report in all_reports() {
            let expected = match (phase, report) {
                (Phase::Starting, Report::FoldersProbed { .. }) => true,
                (Phase::Waiting, Report::Change(_)) => true,
                (Phase::Waiting, Report::WatchError) => true,
                (Phase::Waiting, Report::TimedOut) => true,
                (Phase::BackingUp { .. }, Report::BackupDone) => true,
                (Phase::Snapshotting, Report::SnapshotDone) => true,
                _ => false,
            };
            let next = transition(phase, report, month_end());
            assert_eq!(next.is_some(), expected);
            if let Some((next_phase, action)) = next {
                accepted += 1;
                assert_eq!(matches!(action, Action::RunBackup), matches!(next_phase, Phase::BackingUp { .. }));
                assert_eq!(matches!(action, Action::RunSnapshot(_)), next_phase == Phase::Snapshotting);
                assert_eq!(action == Action::AwaitChange { seconds: 60 }, next_phase == Phase::Waiting);
                assert_ne!(action, Action::ProbeFolders);
            }
        }
        assert!(accepted > 0);
    }
}

#[test]
fn the_clock_decides_the_month_end_check() {
    let next = advance(Phase::Waiting, Report::TimedOut);
    match next {
        Some((Phase::Waiting, Action::AwaitChange { seconds: 60 })) => {}
        Some((Phase::Snapshotting, Action::RunSnapshot(date))) => {
            assert!(is_last_day_of_month(date))
        }
        other => panic!("unexpected step {:?}", other),
    }
    assert_eq!(
        advance(Phase::Waiting, Report::Change(ChangeKind::Modify)),
        Some((Phase::BackingUp { at_startup: false }, Action::RunBackup))
    );
    assert_eq!(advance(Phase::Waiting, Report::SnapshotDone), None);
    assert_eq!(
        advance(Phase::Starting, Report::FoldersProbed { found: false }),
        Some((Phase::BackingUp { at_startup: true }, Action::RunBackup))
    );
}

#[test]
fn first_start_with_an_empty_watch_folder() {
    let config = BackupWardenConfig {
        watch_folder: "watch_folder".to_string(),
        backup_locations: vec!["backup_location".to_string()],
        retention_days: 30,
    };
    let today = mid_month();

    let (phase, action) = start();
    assert_eq!(action, Action::ProbeFolders);
    let found = backup_folders_exist(&vec![NamespaceProbe { exists: false, is_dir: false }]);
    assert!(!found);
    let (phase, action) = transition(phase, Report::FoldersProbed { found }, today).unwrap();
    assert_eq!(action, Action::RunBackup);

    let now = Timestamp::new(today, 9).unwrap();
    let cycle = backup_cycle(&config, now);
    assert_eq!(cycle.copies.len(), 1);
    assert_eq!(cycle.copies[0].location, "backup_location");
    assert_eq!(cycle.copies[0].folders, vec!["Past 30 Days", "2024-01-30", "@09 AM"]);
    assert_eq!(copy_dir_all(&Vec::new()), vec![CopyStep::CreateDir(Vec::new())]);

    let (phase, action) = transition(phase, Report::BackupDone, today).unwrap();
    assert_eq!((phase, action), (Phase::Waiting, Action::AwaitChange { seconds: 60 }));
}

use backup_warden::calendar::{Date, Timestamp};
use backup_warden::config::BackupWardenConfig;
use backup_warden::layout::{
    backup_cycle, backup_folder, create_monthly_snapshot, daily_roots, BackupCycle, Destination,
};
use chrono::Local;

fn names(list: &[&str]) -> Vec<String> {
    list.iter().map(|n| n.to_string()).collect()
}

fn two_locations() -> BackupWardenConfig {
    BackupWardenConfig {
        watch_folder: "/home/me/work".to_string(),
        backup_locations: names(&["/mnt/a", "/mnt/b"]),
        retention_days: 30,
    }
}

#[test]
fn test_backup_folder_creation() {
    let config = BackupWardenConfig {
        watch_folder: "watch_folder".to_string(),
        backup_locations: vec!["backup_location".to_string()],
        retention_days: 30,
    };

    let started = Local::now();
    let cycle = backup_folder(&config);

    let date = Local::now().format("%Y-%m-%d").to_string();
    let hour = Local::now().format("%I %p").to_string();
    let backup_path = names(&["Past 30 Days", &date, &format!("@{}", hour)]);
    // the label the cycle had if the hour turned while it ran
    let earlier_path = names(&[
        "Past 30 Days",
        &started.format("%Y-%m-%d").to_string(),
        &format!("@{}", started.format("%I %p")),
    ]);

    assert_eq!(cycle.copies.len(), 1);
    assert_eq!(cycle.copies[0].location, "backup_location");
    assert!(cycle.copies[0].folders == backup_path || cycle.copies[0].folders == earlier_path);
}

#[test]
fn test_create_monthly_snapshot() {
    let config = BackupWardenConfig {
        watch_folder: "watch_folder".to_string(),
        backup_locations: vec!["backup_location".to_string()],
        retention_days: 30,
    };

    let last_day_of_month = Date::from_ymd_opt(2024, 1, 31).unwrap();
    let snapshot_folders = create_monthly_snapshot(&config, last_day_of_month);

    assert_eq!(snapshot_folders.len(), 1);
    assert_eq!(
        snapshot_folders[0],
        Destination {
            location: "backup_location".to_string(),
            folders: names(&["Monthly Snapshots", "2024-01-31"]),
        }
    );
}

#[test]
fn a_backup_goes_below_date_and_hour() {
    let config = BackupWardenConfig {
        watch_folder: "/home/me/work".to_string(),
        backup_locations: names(&["/mnt/a"]),
        retention_days: 30,
    };
    let now = Timestamp::new(Date::from_ymd_opt(2024, 3, 9).unwrap(), 14).unwrap();
    assert_eq!(
        backup_cycle(&config, now),
        BackupCycle {
            copies: vec![Destination {
                location: "/mnt/a".to_string(),
                folders: names(&["Past 30 Days", "2024-03-09", "@02 PM"]),
            }],
            prunes: vec![Destination {
                location: "/mnt/a".to_string(),
                folders: names(&["Past 30 Days"]),
            }],
        }
    );
    let early = Timestamp::new(Date::from_ymd_opt(2024, 3, 9).unwrap(), 2).unwrap();
    assert_eq!(
        backup_cycle(&config, early).copies[0].folders,
        names(&["Past 30 Days", "2024-03-09", "@02 AM"])
    );
}

#[test]
fn all_locations_share_one_date_and_hour() {
    let now = Timestamp::new(Date::from_ymd_opt(2023, 12, 31).unwrap(), 0).unwrap();
    let cycle = backup_cycle(&two_locations(), now);
    assert_eq!(
        cycle.copies,
        vec![
            Destination {
                location: "/mnt/a".to_string(),
                folders: names(&["Past 30 Days", "2023-12-31", "@12 AM"]),
            },
            Destination {
                location: "/mnt/b".to_string(),
                folders: names(&["Past 30 Days", "2023-12-31", "@12 AM"]),
            },
        ]
    );
    let read_now = backup_folder(&two_locations());
    assert_eq!(read_now.copies.len(), 2);
    assert_eq!(read_now.copies[0].location, "/mnt/a");
    assert_eq!(read_now.copies[1].location, "/mnt/b");
    assert_eq!(read_now.copies[0].folders, read_now.copies[1].folders);
    assert_eq!(read_now.copies[0].folders.len(), 3);
    assert_eq!(read_now.copies[0].folders[0], "Past 30 Days");
}

#[test]
fn every_location_is_pruned_after_the_copies() {
    let now = Timestamp::new(Date::from_ymd_opt(2023, 12, 31).unwrap(), 0).unwrap();
    let cycle = backup_cycle(&two_locations(), now);
    assert_eq!(cycle.prunes, daily_roots(&two_locations()));
    assert_eq!(backup_folder(&two_locations()).prunes, daily_roots(&two_locations()));
}

#[test]
fn no_location_no_destination() {
    let config = BackupWardenConfig {
        watch_folder: "w".to_string(),
        backup_locations: Vec::new(),
        retention_days: 1,
    };
    let now = Timestamp::new(Date::from_ymd_opt(2024, 1, 1).unwrap(), 5).unwrap();
    assert!(backup_cycle(&config, now).copies.is_empty());
    assert!(backup_cycle(&config, now).prunes.is_empty());
    assert!(backup_folder(&config).copies.is_empty());
    assert!(backup_folder(&config).prunes.is_empty());
    assert!(create_monthly_snapshot(&config, now.date()).is_empty());
    assert!(daily_roots(&config).is_empty());
}

#[test]
fn snapshots_go_to_their_own_namespace() {
    let date = Date::from_ymd_opt(2024, 2, 29).unwrap();
    let plan = create_monthly_snapshot(&two_locations(), date);
    assert_eq!(plan.len(), 2);
    for (dest, location) in plan.iter().zip(["/mnt/a", "/mnt/b"]) {
        assert_eq!(dest.location, location);
        assert_eq!(dest.folders, names(&["Monthly Snapshots", "2024-02-29"]));
        assert_ne!(dest.folders[0], "Past 30 Days");
    }
}

#[test]
fn daily_namespace_of_each_location() {
    let roots = daily_roots(&two_locations());
    assert_eq!(roots.len(), 2);
    assert_eq!(roots[0].location, "/mnt/a");
    assert_eq!(roots[1].location, "/mnt/b");
    assert_eq!(roots[0].folders, names(&["Past 30 Days"]));
    assert_eq!(roots[1].folders, names(&["Past 30 Days"]));
}

use backup_warden::config::BackupWardenConfig;

fn config(locations: &[&str], retention_days: usize) -> BackupWardenConfig {
    BackupWardenConfig {
        watch_folder: "/home/me/work".to_string(),
        backup_locations: locations.iter().map(|l| l.to_string()).collect(),
        retention_days,
    }
}

#[test]
fn a_configuration_keeps_at_least_one_day() {
    assert!(config(&["/mnt/a"], 1).is_well_formed());
    assert!(config(&["/mnt/a"], 30).is_well_formed());
    assert!(!config(&["/mnt/a"], 0).is_well_formed());
}

#[test]
fn a_configuration_lists_no_location_twice() {
    assert!(config(&[], 30).is_well_formed());
    assert!(config(&["/mnt/a", "/mnt/b", "/mnt/c"], 30).is_well_formed());
    assert!(!config(&["/mnt/a", "/mnt/a"], 30).is_well_formed());
    assert!(!config(&["/mnt/a", "/mnt/b", "/mnt/a"], 30).is_well_formed());
    assert!(!config(&["/mnt/a", "/mnt/b", "/mnt/b"], 30).is_well_formed());
    assert!(config(&["/mnt/a", "/mnt/A"], 30).is_well_formed());
}

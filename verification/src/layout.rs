use crate::calendar::{is_timestamp, local_now, Date, DateView, Timestamp, TimestampView};
use crate::config::BackupWardenConfig;
use crate::labels::{date_folder_name, date_text, hour_folder_name, hour_folder_text};
use crate::names::{clone_names, texts};
use vstd::prelude::*;
use vstd::string::StringExecFns;

verus! {

/// A directory below a backup location: the location's root, then the folders
/// to descend through, outermost first. The program around the library joins
/// them with the platform's separator.
#[derive(Debug, PartialEq, Eq)]
pub struct Destination {
    pub location: String,
    pub folders: Vec<String>,
}

/// A destination as plain text: the location's root and the folders below it.
pub struct DestinationView {
    pub location: Seq<char>,
    pub folders: Seq<Seq<char>>,
}

impl View for Destination {
    type V = DestinationView;

    open spec fn view(&self) -> DestinationView {
        DestinationView { location: self.location@, folders: texts(self.folders@) }
    }
}

/// The folder of a location that holds its dated daily backups.
pub open spec fn daily_namespace() -> Seq<char> {
    "Past 30 Days"@
}

/// The folder of a location that holds its monthly snapshots.
pub open spec fn snapshot_namespace() -> Seq<char> {
    "Monthly Snapshots"@
}

/// Where a backup made at `now` goes below a location:
/// `Past 30 Days/<YYYY-MM-DD>/<hour label>`.
pub open spec fn daily_folders(now: TimestampView) -> Seq<Seq<char>> {
    seq![daily_namespace(), date_text(now.date), hour_folder_text(now.hour)]
}

/// Where the snapshot of `date` goes below a location:
/// `Monthly Snapshots/<YYYY-MM-DD>`.
pub open spec fn snapshot_folders(date: DateView) -> Seq<Seq<char>> {
    seq![snapshot_namespace(), date_text(date)]
}

/// Whether `plan` names, for each location in order, the directory `folders` below it.
pub open spec fn covers_each_location(
    plan: Seq<Destination>,
    locations: Seq<String>,
    folders: Seq<Seq<char>>,
) -> bool {
    &&& plan.len() == locations.len()
    &&& forall|i: int|
        0 <= i < plan.len() ==> (#[trigger] plan[i])@ == (DestinationView {
            location: locations[i]@,
            folders,
        })
}

/// The two namespaces of a location have different names, so nothing written
/// below one lies below the other.
pub proof fn lemma_namespaces_differ()
    ensures
        daily_namespace() != snapshot_namespace(),
{
    reveal_strlit("Past 30 Days");
    reveal_strlit("Monthly Snapshots");
    assert(daily_namespace().len() != snapshot_namespace().len());
}

/// A snapshot's directory lies in the snapshot namespace, outside the daily one,
/// whatever the date; a daily backup's directory lies in the daily namespace.
pub proof fn lemma_snapshots_leave_daily_backups_alone(date: DateView, now: TimestampView)
    ensures
        snapshot_folders(date)[0] == snapshot_namespace(),
        daily_folders(now)[0] == daily_namespace(),
        snapshot_folders(date)[0] != daily_folders(now)[0],
{
    lemma_namespaces_differ();
}

fn below(location: &String, folders: &Vec<String>) -> (dest: Destination)
    ensures
        dest@ == (DestinationView { location: location@, folders: texts(folders@) }),
{
    Destination { location: location.clone(), folders: clone_names(folders) }
}

fn below_each_location(config: &BackupWardenConfig, folders: &Vec<String>) -> (plan: Vec<
    Destination,
>)
    ensures
        covers_each_location(plan@, config.backup_locations@, texts(folders@)),
{
    let mut plan: Vec<Destination> = Vec::new();
    let mut i: usize = 0;
    while i < config.backup_locations.len()
        invariant
            i <= config.backup_locations.len(),
            covers_each_location(plan@, config.backup_locations@.take(i as int), texts(folders@)),
        decreases config.backup_locations.len() - i,
    {
        plan.push(below(&config.backup_locations[i], folders));
        i = i + 1;
    }
    proof {
        assert(config.backup_locations@.take(i as int) =~= config.backup_locations@);
    }
    plan
}

fn daily_namespace_path() -> (folders: Vec<String>)
    ensures
        texts(folders@) == seq![daily_namespace()],
{
    let mut folders: Vec<String> = Vec::new();
    folders.push(String::from_str("Past 30 Days"));
    proof {
        assert(texts(folders@) =~= seq![daily_namespace()]);
    }
    folders
}

fn daily_path(now: Timestamp) -> (folders: Vec<String>)
    ensures
        texts(folders@) == daily_folders(now@),
{
    let mut folders: Vec<String> = Vec::new();
    folders.push(String::from_str("Past 30 Days"));
    folders.push(date_folder_name(now.date()));
    folders.push(hour_folder_name(now));
    proof {
        assert(texts(folders@) =~= daily_folders(now@));
    }
    folders
}

fn snapshot_path(date: Date) -> (folders: Vec<String>)
    ensures
        texts(folders@) == snapshot_folders(date@),
{
    let mut folders: Vec<String> = Vec::new();
    folders.push(String::from_str("Monthly Snapshots"));
    folders.push(date_folder_name(date));
    proof {
        assert(texts(folders@) =~= snapshot_folders(date@));
    }
    folders
}

/// The daily-backup namespace of every configured location, in order: the
/// directories to look for at startup.
pub fn daily_roots(config: &BackupWardenConfig) -> (roots: Vec<Destination>)
    ensures
        covers_each_location(roots@, config.backup_locations@, seq![daily_namespace()]),
{
    below_each_location(config, &daily_namespace_path())
}

/// What one backup cycle does, in order: a full copy of the watch folder into
/// each directory of `copies`, then a retention pass over each namespace of `prunes`.
#[derive(Debug, PartialEq, Eq)]
pub struct BackupCycle {
    pub copies: Vec<Destination>,
    pub prunes: Vec<Destination>,
}

/// Whether `cycle` is the backup cycle of the instant `now` for `locations`:
/// each location, in order, gets its copy in the folder of that date and hour,
/// so that all locations share one label, and then has its daily-backup
/// namespace pruned.
pub open spec fn is_backup_cycle(
    cycle: BackupCycle,
    locations: Seq<String>,
    now: TimestampView,
) -> bool {
    &&& covers_each_location(cycle.copies@, locations, daily_folders(now))
    &&& covers_each_location(cycle.prunes@, locations, seq![daily_namespace()])
}

/// The backup cycle of a given instant.
pub fn backup_cycle(config: &BackupWardenConfig, now: Timestamp) -> (cycle: BackupCycle)
    ensures
        is_backup_cycle(cycle, config.backup_locations@, now@),
{
    BackupCycle {
        copies: below_each_location(config, &daily_path(now)),
        prunes: daily_roots(config),
    }
}

/// The backup cycle of the present instant. The clock is read once, so every
/// location gets the same date and hour.
pub fn backup_folder(config: &BackupWardenConfig) -> (cycle: BackupCycle)
    ensures
        exists|now: TimestampView|
            is_timestamp(now) && #[trigger] is_backup_cycle(cycle, config.backup_locations@, now),
{
    let now = local_now();
    backup_cycle(config, now)
}

/// One snapshot cycle for `date`: for each configured location, in order, the
/// directory that receives a full copy of the watch folder. Snapshots are never
/// pruned.
pub fn create_monthly_snapshot(config: &BackupWardenConfig, date: Date) -> (plan: Vec<
    Destination,
>)
    ensures
        covers_each_location(plan@, config.backup_locations@, snapshot_folders(date@)),
{
    below_each_location(config, &snapshot_path(date))
}

} // verus!

use vstd::prelude::*;

verus! {

/// What the daemon protects, where the copies go, and how many days of them it keeps.
#[derive(Debug, PartialEq, Eq)]
pub struct BackupWardenConfig {
    /// The directory being protected.
    pub watch_folder: String,
    /// The roots that receive daily backups and monthly snapshots, in processing order.
    pub backup_locations: Vec<String>,
    /// The largest number of dated folders kept per location.
    pub retention_days: usize,
}

impl BackupWardenConfig {
    /// What a configuration has to satisfy: it keeps at least one dated folder
    /// per location, and no location is listed twice.
    pub open spec fn wf(&self) -> bool {
        &&& self.retention_days > 0
        &&& forall|i: int, j: int|
            0 <= i < j < self.backup_locations.len() ==> self.backup_locations[i]@
                != self.backup_locations[j]@
    }

    /// Checks a loaded configuration against `wf`.
    pub fn is_well_formed(&self) -> (ok: bool)
        ensures
            ok == self.wf(),
    {
        if self.retention_days == 0 {
            return false;
        }
        let mut j: usize = 0;
        while j < self.backup_locations.len()
            invariant
                j <= self.backup_locations.len(),
                forall|a: int, b: int|
                    0 <= a < b < j ==> self.backup_locations[a]@ != self.backup_locations[b]@,
            decreases self.backup_locations.len() - j,
        {
            let mut i: usize = 0;
            while i < j
                invariant
                    i <= j < self.backup_locations.len(),
                    forall|a: int|
                        0 <= a < i ==> self.backup_locations[a]@
                            != self.backup_locations[j as int]@,
                decreases j - i,
            {
                if self.backup_locations[i] == self.backup_locations[j] {
                    return false;
                }
                i = i + 1;
            }
            j = j + 1;
        }
        true
    }
}

} // verus!

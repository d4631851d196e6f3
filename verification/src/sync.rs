//! Headless sync: for each repository found, fetch, read its summary, and
//! pull it when it is clean and behind; dirty repositories and those with
//! conflicts are skipped. The fetching, reading and pulling are the
//! caller's; the decisions and the tally are here.

use vstd::prelude::*;
use crate::git_ops::RepoStatus;
use crate::paths::{relative_path, spec_relative_path};

verus! {

/// What to do with a repository whose summary was read.
#[derive(Debug, Clone, Copy, PartialEq, Eq, Structural)]
pub enum SyncStep {
    /// Leave it: it has local changes (`conflicts` tells whether they are
    /// merge conflicts).
    Skip { conflicts: bool },
    /// Nothing to pull.
    UpToDate,
    /// Pull its current branch.
    Pull,
}

/// How one repository ended.
#[derive(Debug, Clone, Copy, PartialEq, Eq, Structural)]
pub enum SyncOutcome {
    FetchFailed,
    InfoFailed,
    Skipped,
    UpToDate,
    Pulled,
    PullFailed,
}

/// The counts shown at the end of a sync.
#[derive(Debug, Clone, Copy, PartialEq, Eq, Structural)]
pub struct SyncTally {
    pub synced: usize,
    pub up_to_date: usize,
    pub skipped: usize,
    pub errors: usize,
}

/// The step for a repository with status `status`, `behind` commits behind
/// its upstream.
pub open spec fn spec_sync_step(status: RepoStatus, behind: usize) -> SyncStep {
    match status {
        RepoStatus::Dirty => SyncStep::Skip { conflicts: false },
        RepoStatus::Conflicts => SyncStep::Skip { conflicts: true },
        RepoStatus::Clean => if behind == 0 {
            SyncStep::UpToDate
        } else {
            SyncStep::Pull
        },
    }
}

pub fn sync_step(status: RepoStatus, behind: usize) -> (r: SyncStep)
    ensures
        r == spec_sync_step(status, behind),
{
    match status {
        RepoStatus::Dirty => SyncStep::Skip { conflicts: false },
        RepoStatus::Conflicts => SyncStep::Skip { conflicts: true },
        RepoStatus::Clean => if behind == 0 {
            SyncStep::UpToDate
        } else {
            SyncStep::Pull
        },
    }
}

/// Only a clean repository that is behind is ever pulled.
pub proof fn law_pull_only_clean_and_behind(status: RepoStatus, behind: usize)
    ensures
        spec_sync_step(status, behind) == SyncStep::Pull <==> status == RepoStatus::Clean && behind > 0,
{
}

/// Why a repository was skipped, as the sync output shows it.
pub fn skip_label(conflicts: bool) -> (r: &'static str)
    ensures
        r@ == if conflicts {
            "conflicts"@
        } else {
            "dirty"@
        },
{
    if conflicts {
        "conflicts"
    } else {
        "dirty"
    }
}

/// The name a repository is reported under: its path below the root, or
/// the whole path when it is not below the root.
pub fn sync_display(path: &String, root: &String) -> (r: String)
    ensures
        r@ == match spec_relative_path(path@, root@) {
            Some(rel) => rel,
            None => path@,
        },
{
    match relative_path(path.as_str(), root.as_str()) {
        Some(rel) => rel,
        None => path.clone(),
    }
}

impl SyncTally {
    /// All the repositories counted.
    pub open spec fn total(self) -> int {
        self.synced + self.up_to_date + self.skipped + self.errors
    }

    pub fn new() -> (t: Self)
        ensures
            t == (SyncTally { synced: 0, up_to_date: 0, skipped: 0, errors: 0 }),
    {
        SyncTally { synced: 0, up_to_date: 0, skipped: 0, errors: 0 }
    }

    /// Counts one repository: failures as errors, skips as skipped, up to
    /// date ones as such, and pulled ones as synced.
    pub fn record(&mut self, outcome: SyncOutcome)
        requires
            old(self).total() < usize::MAX,
        ensures
            final(self).total() == old(self).total() + 1,
            *final(self) == match outcome {
                SyncOutcome::FetchFailed | SyncOutcome::InfoFailed | SyncOutcome::PullFailed => SyncTally {
                    errors: (old(self).errors + 1) as usize,
                    ..*old(self)
                },
                SyncOutcome::Skipped => SyncTally { skipped: (old(self).skipped + 1) as usize, ..*old(self) },
                SyncOutcome::UpToDate => SyncTally {
                    up_to_date: (old(self).up_to_date + 1) as usize,
                    ..*old(self)
                },
                SyncOutcome::Pulled => SyncTally { synced: (old(self).synced + 1) as usize, ..*old(self) },
            },
    {
        match outcome {
            SyncOutcome::FetchFailed | SyncOutcome::InfoFailed | SyncOutcome::PullFailed => {
                self.errors = self.errors + 1;
            },
            SyncOutcome::Skipped => {
                self.skipped = self.skipped + 1;
            },
            SyncOutcome::UpToDate => {
                self.up_to_date = self.up_to_date + 1;
            },
            SyncOutcome::Pulled => {
                self.synced = self.synced + 1;
            },
        }
    }
}

} // verus!

//! Command-line arguments and the settings they resolve to together with
//! the settings file.

use vstd::prelude::*;
use crate::app::SortOrder;
use crate::config::Config;

verus! {

/// The subcommands.
#[derive(Debug, Clone, Copy, PartialEq, Eq, Structural)]
pub enum Command {
    /// Show version and git commit hash.
    Version,
    /// Update to the latest release.
    Update,
}

/// The command line.
pub struct Args {
    pub command: Option<Command>,
    /// Fetch and pull all clean repositories, then exit.
    pub sync: bool,
    /// Maximum recursion depth for repository discovery.
    pub depth: Option<usize>,
    /// Refresh interval in seconds.
    pub interval: Option<u64>,
    /// Root directory to scan (the directory picker opens when it is absent).
    pub path: Option<String>,
    /// Days without commits before a repository counts as stale.
    pub stale_days: Option<u64>,
}

/// What a run works with: the command line first, then the settings file,
/// then the defaults.
pub struct Settings {
    pub depth: usize,
    pub interval_secs: u64,
    pub stale_days: u64,
    pub default_sort: SortOrder,
    pub notifications: bool,
    pub excluded: Vec<String>,
}

/// Depth searched when neither the command line nor the settings file says.
pub const DEFAULT_DEPTH: usize = 10;

/// Refresh interval, in seconds, when neither says.
pub const DEFAULT_INTERVAL_SECS: u64 = 5;

/// Days before a repository is stale when neither says.
pub const DEFAULT_STALE_DAYS: u64 = 30;

/// The first of `a`, `b` that is present, else `d`.
pub open spec fn first_of<T>(a: Option<T>, b: Option<T>, d: T) -> T {
    match a {
        Some(x) => x,
        None => match b {
            Some(y) => y,
            None => d,
        },
    }
}

fn copy_strings(v: &Vec<String>) -> (r: Vec<String>)
    ensures
        r.len() == v.len(),
        forall|i: int| 0 <= i < v.len() ==> (#[trigger] r[i])@ == v[i]@,
{
    let mut r: Vec<String> = Vec::new();
    let mut i: usize = 0;
    while i < v.len()
        invariant
            i <= v.len(),
            r.len() == i,
            forall|k: int| 0 <= k < i ==> (#[trigger] r[k])@ == v[k]@,
        decreases v.len() - i,
    {
        r.push(v[i].clone());
        i = i + 1;
    }
    r
}

/// The settings of a run from the command line and the settings file.
pub fn resolve_settings(args: &Args, config: &Config) -> (s: Settings)
    ensures
        s.depth == first_of(args.depth, config.depth, DEFAULT_DEPTH),
        s.interval_secs == first_of(args.interval, config.interval, DEFAULT_INTERVAL_SECS),
        s.stale_days == first_of(args.stale_days, config.stale_days, DEFAULT_STALE_DAYS),
        s.default_sort == SortOrder::spec_from_str(
            match config.default_sort {
                Some(d) => d@,
                None => "name"@,
            },
        ),
        s.notifications == first_of(None, config.notifications, true),
        match config.excluded_paths {
            Some(ex) => s.excluded.len() == ex.len() && forall|i: int|
                0 <= i < ex.len() ==> (#[trigger] s.excluded[i])@ == ex[i]@,
            None => s.excluded.len() == 0,
        },
{
    let depth = match args.depth {
        Some(d) => d,
        None => match config.depth {
            Some(d) => d,
            None => DEFAULT_DEPTH,
        },
    };
    let interval_secs = match args.interval {
        Some(i) => i,
        None => match config.interval {
            Some(i) => i,
            None => DEFAULT_INTERVAL_SECS,
        },
    };
    let stale_days = match args.stale_days {
        Some(d) => d,
        None => match config.stale_days {
            Some(d) => d,
            None => DEFAULT_STALE_DAYS,
        },
    };
    let default_sort = match &config.default_sort {
        Some(d) => SortOrder::from_str(d.as_str()),
        None => SortOrder::from_str("name"),
    };
    let notifications = match config.notifications {
        Some(n) => n,
        None => true,
    };
    let excluded = match &config.excluded_paths {
        Some(ex) => copy_strings(ex),
        None => Vec::new(),
    };
    Settings { depth, interval_secs, stale_days, default_sort, notifications, excluded }
}

} // verus!

//! Application state: the repositories being watched, the filtered and
//! sorted view of them, selection, search, refresh bookkeeping, the detail
//! pane, the overlays (help, error details, theme picker), feedback
//! messages, and what each result of background work does to the state.
//!
//! Times are milliseconds of a monotonic clock that the caller reads; the
//! refresh interval is in seconds.

use vstd::prelude::*;
use crate::config::{PresetTheme, Theme, preset_count, preset_name, preset_theme, spec_default_theme};
use crate::git_ops::{BranchEntry, CommitEntry, GitInfo, RepoDetails, RepoStatus};
use crate::paths::{file_name, opt_view, relative_path, spec_file_name, spec_relative_path};
use crate::text::{chars_contain, chars_eq, chars_lt, chars_of, contains_seq, lex_lt, lemma_lex_irreflexive, lemma_lex_total, lemma_lex_transitive, spec_lowercase, to_lowercase};

verus! {

// --- Enums ---

/// Whether keys edit the search query or drive the dashboard.
#[derive(Debug, Clone, Copy, PartialEq, Eq, Structural)]
pub enum InputMode {
    Normal,
    Search,
    /// The keyboard help overlay is open.
    Help,
    /// The error of the selected repository is shown.
    ErrorInfo,
    /// The theme picker is open.
    ThemePicker,
}

/// Which repositories the dashboard shows.
#[derive(Debug, Clone, Copy, PartialEq, Eq, Structural)]
pub enum StatusFilter {
    All,
    Clean,
    Dirty,
    Behind,
    Ahead,
    Errors,
    Stale,
}

impl StatusFilter {
    /// The filter's label as shown in the footer.
    pub open spec fn spec_label(self) -> Seq<char> {
        match self {
            StatusFilter::All => "all"@,
            StatusFilter::Clean => "clean"@,
            StatusFilter::Dirty => "dirty"@,
            StatusFilter::Behind => "behind"@,
            StatusFilter::Ahead => "ahead"@,
            StatusFilter::Errors => "errors"@,
            StatusFilter::Stale => "stale"@,
        }
    }

    /// The filter that follows this one in the cycle.
    pub open spec fn spec_next(self) -> StatusFilter {
        match self {
            StatusFilter::All => StatusFilter::Clean,
            StatusFilter::Clean => StatusFilter::Dirty,
            StatusFilter::Dirty => StatusFilter::Behind,
            StatusFilter::Behind => StatusFilter::Ahead,
            StatusFilter::Ahead => StatusFilter::Errors,
            StatusFilter::Errors => StatusFilter::Stale,
            StatusFilter::Stale => StatusFilter::All,
        }
    }

    pub fn label(&self) -> (r: &'static str)
        ensures
            r@ == self.spec_label(),
    {
        match self {
            StatusFilter::All => "all",
            StatusFilter::Clean => "clean",
            StatusFilter::Dirty => "dirty",
            StatusFilter::Behind => "behind",
            StatusFilter::Ahead => "ahead",
            StatusFilter::Errors => "errors",
            StatusFilter::Stale => "stale",
        }
    }

    pub fn next(&self) -> (r: Self)
        ensures
            r == self.spec_next(),
    {
        match self {
            StatusFilter::All => StatusFilter::Clean,
            StatusFilter::Clean => StatusFilter::Dirty,
            StatusFilter::Dirty => StatusFilter::Behind,
            StatusFilter::Behind => StatusFilter::Ahead,
            StatusFilter::Ahead => StatusFilter::Errors,
            StatusFilter::Errors => StatusFilter::Stale,
            StatusFilter::Stale => StatusFilter::All,
        }
    }
}

/// `n` steps of the filter cycle from `f`.
pub open spec fn filter_after(f: StatusFilter, n: nat) -> StatusFilter
    decreases n,
{
    if n == 0 {
        f
    } else {
        filter_after(f, (n - 1) as nat).spec_next()
    }
}

/// Position of a filter in the cycle.
pub open spec fn filter_index(f: StatusFilter) -> int {
    match f {
        StatusFilter::All => 0,
        StatusFilter::Clean => 1,
        StatusFilter::Dirty => 2,
        StatusFilter::Behind => 3,
        StatusFilter::Ahead => 4,
        StatusFilter::Errors => 5,
        StatusFilter::Stale => 6,
    }
}

proof fn lemma_filter_after_index(f: StatusFilter, n: nat)
    ensures
        filter_index(filter_after(f, n)) == (filter_index(f) + n) % 7,
    decreases n,
{
    if n > 0 {
        lemma_filter_after_index(f, (n - 1) as nat);
    }
}

proof fn lemma_filter_index_injective(f: StatusFilter, g: StatusFilter)
    requires
        filter_index(f) == filter_index(g),
    ensures
        f == g,
{
}

/// Cycling the status filter comes back to the start after seven steps, and
/// the seven filters met on the way are all different, so every filter is
/// reached.
pub proof fn law_status_filter_cycle(f: StatusFilter)
    ensures
        filter_after(f, 7) == f,
        forall|i: nat, j: nat|
            i < 7 && j < 7 && i != j ==> #[trigger] filter_after(f, i) != #[trigger] filter_after(f, j),
{
    lemma_filter_after_index(f, 7);
    lemma_filter_index_injective(filter_after(f, 7), f);
    assert forall|i: nat, j: nat|
        i < 7 && j < 7 && i != j implies #[trigger] filter_after(f, i) != #[trigger] filter_after(f, j) by {
        lemma_filter_after_index(f, i);
        lemma_filter_after_index(f, j);
    }
}

/// How the dashboard orders repositories.
#[derive(Debug, Clone, Copy, PartialEq, Eq, Structural)]
pub enum SortOrder {
    Name,
    Status,
    LastCommit,
    Behind,
}

impl SortOrder {
    /// The order's label as shown in the footer and read from the config.
    pub open spec fn spec_label(self) -> Seq<char> {
        match self {
            SortOrder::Name => "name"@,
            SortOrder::Status => "status"@,
            SortOrder::LastCommit => "commit"@,
            SortOrder::Behind => "behind"@,
        }
    }

    /// The order that follows this one in the cycle.
    pub open spec fn spec_next(self) -> SortOrder {
        match self {
            SortOrder::Name => SortOrder::Status,
            SortOrder::Status => SortOrder::LastCommit,
            SortOrder::LastCommit => SortOrder::Behind,
            SortOrder::Behind => SortOrder::Name,
        }
    }

    /// The order a configuration string names; anything unknown is `Name`.
    pub open spec fn spec_from_str(s: Seq<char>) -> SortOrder {
        if s == "status"@ {
            SortOrder::Status
        } else if s == "commit"@ {
            SortOrder::LastCommit
        } else if s == "behind"@ {
            SortOrder::Behind
        } else {
            SortOrder::Name
        }
    }

    pub fn label(&self) -> (r: &'static str)
        ensures
            r@ == self.spec_label(),
    {
        match self {
            SortOrder::Name => "name",
            SortOrder::Status => "status",
            SortOrder::LastCommit => "commit",
            SortOrder::Behind => "behind",
        }
    }

    pub fn next(&self) -> (r: Self)
        ensures
            r == self.spec_next(),
    {
        match self {
            SortOrder::Name => SortOrder::Status,
            SortOrder::Status => SortOrder::LastCommit,
            SortOrder::LastCommit => SortOrder::Behind,
            SortOrder::Behind => SortOrder::Name,
        }
    }

    pub fn from_str(s: &str) -> (r: Self)
        ensures
            r == Self::spec_from_str(s@),
    {
        let cs = chars_of(s);
        if chars_eq(&cs, &chars_of("status")) {
            SortOrder::Status
        } else if chars_eq(&cs, &chars_of("commit")) {
            SortOrder::LastCommit
        } else if chars_eq(&cs, &chars_of("behind")) {
            SortOrder::Behind
        } else {
            SortOrder::Name
        }
    }
}

/// Reading an order back from its label gives the order itself.
pub proof fn law_sort_label_round_trip(o: SortOrder)
    ensures
        SortOrder::spec_from_str(o.spec_label()) == o,
{
    reveal_strlit("name");
    reveal_strlit("status");
    reveal_strlit("commit");
    reveal_strlit("behind");
    assert("name"@ != "status"@ && "name"@ != "commit"@ && "name"@ != "behind"@) by {
        assert("name"@.len() != "status"@.len());
        assert("name"@.len() != "commit"@.len());
        assert("name"@.len() != "behind"@.len());
    }
    assert("commit"@ != "status"@) by {
        assert("commit"@[0] != "status"@[0]);
    }
    assert("behind"@ != "status"@ && "behind"@ != "commit"@) by {
        assert("behind"@[0] != "status"@[0]);
        assert("behind"@[0] != "commit"@[0]);
    }
}

/// Cycling the sort order comes back to the start after four steps.
pub proof fn law_sort_cycle(o: SortOrder)
    ensures
        o.spec_next().spec_next().spec_next().spec_next() == o,
        o.spec_next() != o,
{
}

// --- RepoInfo ---

/// The name a repository is shown under: its path below the scan root, or
/// when that is empty its last component (`"."` when it has none).
pub open spec fn spec_display_name(path: Seq<char>, root: Seq<char>) -> Seq<char> {
    let shown = match spec_relative_path(path, root) {
        Some(rel) => rel,
        None => path,
    };
    if shown.len() == 0 {
        match spec_file_name(path) {
            Some(name) => name,
            None => "."@,
        }
    } else {
        shown
    }
}

/// One watched repository and what is known of it.
#[derive(Debug, Clone)]
pub struct RepoInfo {
    pub path: String,
    pub display_name: String,
    pub branch: String,
    pub status: RepoStatus,
    pub ahead: usize,
    pub behind: usize,
    pub last_commit_age: String,
    pub last_commit_secs: u64,
    pub branch_count: usize,
    pub last_updated: Option<u64>,
    pub error: Option<String>,
    pub fetching: bool,
    /// A pull of it is under way.
    pub pulling: bool,
    /// How its last pull ended: the pull's message or its error.
    pub pull_result: Option<Result<String, String>>,
}

impl RepoInfo {
    /// A repository at `path` under `root`, not yet examined.
    pub fn new(path: String, root: &String) -> (r: Self)
        ensures
            r.path@ == path@,
            r.display_name@ == spec_display_name(path@, root@),
            r.branch@ == "..."@,
            r.status == RepoStatus::Clean,
            r.ahead == 0,
            r.behind == 0,
            r.last_commit_age@ == "..."@,
            r.last_commit_secs == 0,
            r.branch_count == 0,
            r.last_updated is None,
            r.error is None,
            r.fetching,
            !r.pulling,
            r.pull_result is None,
    {
        let shown = match relative_path(path.as_str(), root.as_str()) {
            Some(rel) => rel,
            None => path.clone(),
        };
        let display_name = if shown.as_str().is_empty() {
            match file_name(path.as_str()) {
                Some(name) => name,
                None => ".".to_string(),
            }
        } else {
            shown
        };
        RepoInfo {
            path,
            display_name,
            branch: "...".to_string(),
            status: RepoStatus::Clean,
            ahead: 0,
            behind: 0,
            last_commit_age: "...".to_string(),
            last_commit_secs: 0,
            branch_count: 0,
            last_updated: None,
            error: None,
            fetching: true,
            pulling: false,
            pull_result: None,
        }
    }

    /// This repository with a fresh summary read at time `now` taken in.
    pub open spec fn with_info(self, info: GitInfo, now: u64) -> RepoInfo {
        RepoInfo {
            branch: info.branch,
            status: info.status,
            ahead: info.ahead,
            behind: info.behind,
            last_commit_age: info.last_commit_age,
            last_commit_secs: info.last_commit_secs,
            branch_count: info.branch_count,
            last_updated: Some(now),
            error: None,
            fetching: false,
            ..self
        }
    }

    /// This repository with a failed read at time `now` recorded.
    pub open spec fn with_error(self, err: String, now: u64) -> RepoInfo {
        RepoInfo { error: Some(err), last_updated: Some(now), fetching: false, ..self }
    }

    /// Takes in a fresh summary read at time `now`; clears any error.
    pub fn update_from_git_info(&mut self, info: GitInfo, now: u64)
        ensures
            *final(self) == old(self).with_info(info, now),
    {
        self.branch = info.branch;
        self.status = info.status;
        self.ahead = info.ahead;
        self.behind = info.behind;
        self.last_commit_age = info.last_commit_age;
        self.last_commit_secs = info.last_commit_secs;
        self.branch_count = info.branch_count;
        self.last_updated = Some(now);
        self.error = None;
        self.fetching = false;
    }

    /// Records that reading the repository failed at time `now`.
    pub fn set_error(&mut self, err: String, now: u64)
        ensures
            *final(self) == old(self).with_error(err, now),
    {
        self.error = Some(err);
        self.last_updated = Some(now);
        self.fetching = false;
    }

    /// The read result `result` takes the repository from synced to behind.
    pub open spec fn spec_goes_behind(self, result: Result<GitInfo, String>) -> bool {
        !self.fetching && self.error is None && self.behind == 0 && match result {
            Ok(info) => info.behind > 0,
            Err(_) => false,
        }
    }

    /// Whether the read result `result` takes the repository from synced to
    /// behind: it had been read without error and was not behind, and the
    /// new summary is behind its upstream. This is when a desktop
    /// notification is due.
    pub fn goes_behind(&self, result: &Result<GitInfo, String>) -> (r: bool)
        ensures
            r == self.spec_goes_behind(*result),
    {
        if self.fetching || self.error.is_some() || self.behind != 0 {
            return false;
        }
        match result {
            Ok(info) => info.behind > 0,
            Err(_) => false,
        }
    }
}

// --- Detail Pane ---

/// The detail pane of one repository.
pub struct DetailPane {
    pub display_name: String,
    pub commits: Vec<CommitEntry>,
    pub changed_files: Vec<String>,
    pub remote_urls: Vec<(String, String)>,
    pub branches: Vec<BranchEntry>,
    pub scroll: usize,
}

impl DetailPane {
    pub fn from_details(repo: &RepoInfo, details: RepoDetails) -> (r: Self)
        ensures
            r.display_name@ == repo.display_name@,
            r.commits == details.recent_commits,
            r.changed_files == details.changed_files,
            r.remote_urls == details.remote_urls,
            r.branches == details.branches,
            r.scroll == 0,
    {
        DetailPane {
            display_name: repo.display_name.clone(),
            commits: details.recent_commits,
            changed_files: details.changed_files,
            remote_urls: details.remote_urls,
            branches: details.branches,
            scroll: 0,
        }
    }

    pub fn scroll_down(&mut self)
        ensures
            final(self).scroll == if old(self).scroll == usize::MAX { usize::MAX } else { (old(self).scroll + 1) as usize },
            final(self).display_name == old(self).display_name,
            final(self).commits == old(self).commits,
            final(self).changed_files == old(self).changed_files,
            final(self).remote_urls == old(self).remote_urls,
            final(self).branches == old(self).branches,
    {
        self.scroll = self.scroll.saturating_add(1);
    }

    pub fn scroll_up(&mut self)
        ensures
            final(self).scroll == if old(self).scroll == 0 { 0 } else { (old(self).scroll - 1) as usize },
            final(self).display_name == old(self).display_name,
            final(self).commits == old(self).commits,
            final(self).changed_files == old(self).changed_files,
            final(self).remote_urls == old(self).remote_urls,
            final(self).branches == old(self).branches,
    {
        self.scroll = self.scroll.saturating_sub(1);
    }
}

// --- Filtering and sorting ---

/// The stale threshold `stale_days` days, in seconds, fits in a `u64`.
pub open spec fn stale_threshold_fits(stale_days: u64) -> bool {
    stale_days * 86400 <= u64::MAX
}

/// A repository whose last commit is `secs` seconds old is stale: at least
/// `stale_days` days old, and its age is known (not zero).
pub open spec fn spec_is_stale(stale_days: u64, secs: u64) -> bool {
    secs >= stale_days * 86400 && secs > 0
}

/// `repo` passes the status filter.
pub open spec fn passes_status(filter: StatusFilter, repo: RepoInfo, stale_days: u64) -> bool {
    match filter {
        StatusFilter::All => true,
        StatusFilter::Clean => repo.status == RepoStatus::Clean && repo.error is None,
        StatusFilter::Dirty => repo.status == RepoStatus::Dirty,
        StatusFilter::Behind => repo.behind > 0,
        StatusFilter::Ahead => repo.ahead > 0,
        StatusFilter::Errors => repo.error is Some,
        StatusFilter::Stale => spec_is_stale(stale_days, repo.last_commit_secs),
    }
}

/// `repo` passes the search for `query`: the query is empty, or its lower
/// case occurs in the lower-cased display name.
pub open spec fn passes_search(repo: RepoInfo, query: Seq<char>) -> bool {
    query.len() == 0 || contains_seq(spec_lowercase(repo.display_name@), spec_lowercase(query))
}

/// Rank of a repository in the status order: errors, then conflicts, then
/// dirty, then clean.
pub open spec fn status_rank(repo: RepoInfo) -> int {
    if repo.error is Some {
        0
    } else {
        match repo.status {
            RepoStatus::Conflicts => 1,
            RepoStatus::Dirty => 2,
            RepoStatus::Clean => 3,
        }
    }
}

/// Repository `i` comes before repository `j` by name; equal names keep
/// their order in the repository list (the sort is stable).
pub open spec fn name_before(repos: Seq<RepoInfo>, i: int, j: int) -> bool {
    lex_lt(repos[i].display_name@, repos[j].display_name@) || (repos[i].display_name@
        == repos[j].display_name@ && i < j)
}

/// Repository `i` comes before repository `j` in `order`: by name; by status
/// rank then name; by last-commit age (youngest first) then name; or by
/// commits behind (most first) then name.
pub open spec fn sorted_before(order: SortOrder, repos: Seq<RepoInfo>, i: int, j: int) -> bool {
    match order {
        SortOrder::Name => name_before(repos, i, j),
        SortOrder::Status => status_rank(repos[i]) < status_rank(repos[j]) || (status_rank(repos[i])
            == status_rank(repos[j]) && name_before(repos, i, j)),
        SortOrder::LastCommit => repos[i].last_commit_secs < repos[j].last_commit_secs || (
        repos[i].last_commit_secs == repos[j].last_commit_secs && name_before(repos, i, j)),
        SortOrder::Behind => repos[i].behind > repos[j].behind || (repos[i].behind
            == repos[j].behind && name_before(repos, i, j)),
    }
}

/// The indices `s` are in strictly increasing `order`.
pub open spec fn sorted_by(order: SortOrder, repos: Seq<RepoInfo>, s: Seq<usize>) -> bool {
    forall|a: int, b: int|
        0 <= a < b < s.len() ==> sorted_before(order, repos, #[trigger] s[a] as int, #[trigger] s[b] as int)
}

/// Two different repositories are ordered one way or the other, never both.
pub proof fn lemma_sorted_before_total(order: SortOrder, repos: Seq<RepoInfo>, i: int, j: int)
    requires
        0 <= i < repos.len(),
        0 <= j < repos.len(),
        i != j,
    ensures
        sorted_before(order, repos, i, j) || sorted_before(order, repos, j, i),
        !(sorted_before(order, repos, i, j) && sorted_before(order, repos, j, i)),
{
    lemma_lex_total(repos[i].display_name@, repos[j].display_name@);
}

/// The repository order is transitive.
pub proof fn lemma_sorted_before_transitive(
    order: SortOrder,
    repos: Seq<RepoInfo>,
    i: int,
    j: int,
    k: int,
)
    requires
        sorted_before(order, repos, i, j),
        sorted_before(order, repos, j, k),
    ensures
        sorted_before(order, repos, i, k),
{
    let (a, b, c) = (repos[i].display_name@, repos[j].display_name@, repos[k].display_name@);
    if lex_lt(a, b) && lex_lt(b, c) {
        lemma_lex_transitive(a, b, c);
    }
}

proof fn lemma_insert_sorted(order: SortOrder, repos: Seq<RepoInfo>, s: Seq<usize>, k: int, x: usize)
    requires
        sorted_by(order, repos, s),
        0 <= k <= s.len(),
        forall|m: int| 0 <= m < k ==> sorted_before(order, repos, #[trigger] s[m] as int, x as int),
        k < s.len() ==> sorted_before(order, repos, x as int, s[k] as int),
    ensures
        sorted_by(order, repos, s.insert(k, x)),
{
    s.insert_ensures(k, x);
    let t = s.insert(k, x);
    assert forall|a: int, b: int| 0 <= a < b < t.len() implies sorted_before(
        order,
        repos,
        #[trigger] t[a] as int,
        #[trigger] t[b] as int,
    ) by {
        if b < k {
            assert(t[a] == s[a] && t[b] == s[b]);
        } else if b == k {
            assert(t[a] == s[a]);
        } else if a < k {
            assert(t[a] == s[a] && t[b] == s[b - 1]);
        } else if a == k {
            assert(t[b] == s[b - 1]);
            if b - 1 > k {
                lemma_sorted_before_transitive(order, repos, x as int, s[k] as int, s[b - 1] as int);
            }
        } else {
            assert(t[a] == s[a - 1] && t[b] == s[b - 1]);
        }
    }
}

/// `min(selected, max(len, 1) - 1)`: the selection clamped into a list of `len` rows.
pub open spec fn clamp_selection(selected: usize, len: nat) -> usize {
    if len == 0 {
        0
    } else if selected < len {
        selected
    } else {
        (len - 1) as usize
    }
}

/// The rank of a repository in the status sort (see `status_rank`).
fn rank_of(repo: &RepoInfo) -> (k: u8)
    ensures
        k as int == status_rank(*repo),
{
    if repo.error.is_some() {
        0
    } else {
        match repo.status {
            RepoStatus::Conflicts => 1,
            RepoStatus::Dirty => 2,
            RepoStatus::Clean => 3,
        }
    }
}

/// Whether repository `i` comes before repository `j` in `order`; `names`
/// holds the display names as characters.
fn repo_before(
    order: SortOrder,
    repos: &Vec<RepoInfo>,
    names: &Vec<Vec<char>>,
    i: usize,
    j: usize,
) -> (r: bool)
    requires
        i < repos.len(),
        j < repos.len(),
        i < names.len(),
        j < names.len(),
        names[i as int]@ == repos[i as int].display_name@,
        names[j as int]@ == repos[j as int].display_name@,
    ensures
        r == sorted_before(order, repos@, i as int, j as int),
{
    let by_name = chars_lt(&names[i], &names[j]) || (chars_eq(&names[i], &names[j]) && i < j);
    match order {
        SortOrder::Name => by_name,
        SortOrder::Status => {
            let ri = rank_of(&repos[i]);
            let rj = rank_of(&repos[j]);
            ri < rj || (ri == rj && by_name)
        },
        SortOrder::LastCommit => {
            let si = repos[i].last_commit_secs;
            let sj = repos[j].last_commit_secs;
            si < sj || (si == sj && by_name)
        },
        SortOrder::Behind => {
            let bi = repos[i].behind;
            let bj = repos[j].behind;
            bi > bj || (bi == bj && by_name)
        },
    }
}

/// Whether a repository whose last commit is `secs` seconds old is stale.
fn stale_secs(stale_days: u64, secs: u64) -> (r: bool)
    requires
        stale_threshold_fits(stale_days),
    ensures
        r == spec_is_stale(stale_days, secs),
{
    secs >= stale_days * 86400 && secs > 0
}

// --- AppState ---

/// The colour role of a feedback message.
#[derive(Debug, Clone, Copy, PartialEq, Eq, Structural)]
pub enum ToastLevel {
    Info,
    Success,
    Warning,
    Error,
}

/// A feedback message, with the time it was shown (milliseconds).
pub struct Toast {
    pub message: String,
    pub level: ToastLevel,
    pub created: u64,
}

/// How long a feedback message stays, in milliseconds.
pub const TOAST_MS: u64 = 5000;

/// A message shown at `created` is still up at `now`.
pub open spec fn toast_live(created: u64, now: u64) -> bool {
    now < created || now - created < TOAST_MS
}

/// The messages of `toasts` still up at `now`, in order.
pub open spec fn live_toasts(toasts: Seq<Toast>, now: u64) -> Seq<Toast>
    decreases toasts.len(),
{
    if toasts.len() == 0 {
        seq![]
    } else {
        let rest = live_toasts(toasts.drop_last(), now);
        if toast_live(toasts.last().created, now) {
            rest.push(toasts.last())
        } else {
            rest
        }
    }
}

/// Everything the dashboard shows and remembers.
pub struct AppState {
    pub repos: Vec<RepoInfo>,
    pub selected: usize,
    pub scan_root: String,
    /// Refresh interval, in seconds.
    pub interval: u64,
    pub scanning: bool,
    /// When the last full refresh started, in milliseconds.
    pub last_full_refresh: Option<u64>,
    pub tick: usize,
    pub pending_refreshes: usize,
    pub stale_days: u64,
    pub input_mode: InputMode,
    pub search_query: String,
    pub status_filter: StatusFilter,
    pub filtered_indices: Vec<usize>,
    pub sort_order: SortOrder,
    pub detail_pane: Option<DetailPane>,
    /// How far the help overlay is scrolled.
    pub help_scroll: usize,
    /// The error shown by the error overlay.
    pub error_info_text: Option<String>,
    /// The theme in use (previewed while the theme picker is open).
    pub theme: Theme,
    /// The preset highlighted in the theme picker.
    pub theme_picker_index: usize,
    /// The theme in use when the picker was opened, restored on cancel.
    pub theme_before_picker: Theme,
    /// Feedback messages, oldest first.
    pub toasts: Vec<Toast>,
}

/// The spinner frame shown at tick `tick`.
pub open spec fn spinner_frame(tick: usize) -> Seq<char> {
    let k = tick % 10;
    if k == 0 {
        "⠋"@
    } else if k == 1 {
        "⠙"@
    } else if k == 2 {
        "⠹"@
    } else if k == 3 {
        "⠸"@
    } else if k == 4 {
        "⠼"@
    } else if k == 5 {
        "⠴"@
    } else if k == 6 {
        "⠦"@
    } else if k == 7 {
        "⠧"@
    } else if k == 8 {
        "⠇"@
    } else {
        "⠏"@
    }
}

/// Repository counts over a list, by a property.
pub open spec fn count_where(s: Seq<RepoInfo>, p: spec_fn(RepoInfo) -> bool) -> nat
    decreases s.len(),
{
    if s.len() == 0 {
        0
    } else {
        count_where(s.drop_last(), p) + if p(s.last()) {
            1nat
        } else {
            0nat
        }
    }
}

/// Clean and error-free.
pub open spec fn is_clean_ok(r: RepoInfo) -> bool {
    r.status == RepoStatus::Clean && r.error is None
}

/// Dirty.
pub open spec fn is_dirty(r: RepoInfo) -> bool {
    r.status == RepoStatus::Dirty
}

/// Reading failed.
pub open spec fn has_error(r: RepoInfo) -> bool {
    r.error is Some
}

impl AppState {
    /// Repository `i` is shown under the current search and status filter.
    pub open spec fn shows(self, i: int) -> bool {
        &&& passes_search(self.repos@[i], self.search_query@)
        &&& passes_status(self.status_filter, self.repos@[i], self.stale_days)
    }

    /// The filtered list holds exactly the shown repositories, each once, in
    /// the current sort order. These conditions determine the list.
    pub open spec fn filtered_ok(self) -> bool {
        let f = self.filtered_indices@;
        &&& f.no_duplicates()
        &&& forall|k: int|
            0 <= k < f.len() ==> #[trigger] f[k] < self.repos@.len() && self.shows(f[k] as int)
        &&& forall|i: int|
            0 <= i < self.repos@.len() && #[trigger] self.shows(i) ==> f.contains(i as usize)
        &&& sorted_by(self.sort_order, self.repos@, f)
    }

    /// Computing the filter does not overflow: the stale threshold fits
    /// when the stale filter is active.
    pub open spec fn filter_computable(self) -> bool {
        self.stale_ok(self.repos@.len())
    }

    /// With `n` repositories the status filter can be computed: the stale
    /// filter tests a repository's age against the threshold, which must
    /// then fit.
    pub open spec fn stale_ok(self, n: nat) -> bool {
        self.status_filter == StatusFilter::Stale && n > 0 ==> stale_threshold_fits(self.stale_days)
    }

    /// The overlays and the theme are the same in `prev` and `next`.
    pub open spec fn same_extras(prev: AppState, next: AppState) -> bool {
        &&& next.help_scroll == prev.help_scroll
        &&& next.error_info_text == prev.error_info_text
        &&& next.theme == prev.theme
        &&& next.theme_picker_index == prev.theme_picker_index
        &&& next.theme_before_picker == prev.theme_before_picker
        &&& next.toasts == prev.toasts
    }

    /// `next` differs from `prev` only in the filtered list and selection.
    pub open spec fn same_but_view(prev: AppState, next: AppState) -> bool {
        &&& next.repos == prev.repos
        &&& next.scan_root == prev.scan_root
        &&& next.interval == prev.interval
        &&& next.scanning == prev.scanning
        &&& next.last_full_refresh == prev.last_full_refresh
        &&& next.tick == prev.tick
        &&& next.pending_refreshes == prev.pending_refreshes
        &&& next.stale_days == prev.stale_days
        &&& next.input_mode == prev.input_mode
        &&& next.search_query == prev.search_query
        &&& next.status_filter == prev.status_filter
        &&& next.sort_order == prev.sort_order
        &&& next.detail_pane == prev.detail_pane
        &&& Self::same_extras(prev, next)
    }

    /// `next` differs from `prev` only in the selection.
    pub open spec fn same_but_selection(prev: AppState, next: AppState) -> bool {
        &&& Self::same_but_view(prev, next)
        &&& next.filtered_indices == prev.filtered_indices
    }

    /// `next` differs from `prev` only in the detail pane.
    pub open spec fn same_but_pane(prev: AppState, next: AppState) -> bool {
        &&& next.repos == prev.repos
        &&& next.selected == prev.selected
        &&& next.scan_root == prev.scan_root
        &&& next.interval == prev.interval
        &&& next.scanning == prev.scanning
        &&& next.last_full_refresh == prev.last_full_refresh
        &&& next.tick == prev.tick
        &&& next.pending_refreshes == prev.pending_refreshes
        &&& next.stale_days == prev.stale_days
        &&& next.input_mode == prev.input_mode
        &&& next.search_query == prev.search_query
        &&& next.status_filter == prev.status_filter
        &&& next.filtered_indices == prev.filtered_indices
        &&& next.sort_order == prev.sort_order
        &&& Self::same_extras(prev, next)
    }

    /// `next` differs from `prev` only in the refresh bookkeeping.
    pub open spec fn same_but_refresh(prev: AppState, next: AppState) -> bool {
        &&& next.repos == prev.repos
        &&& next.selected == prev.selected
        &&& next.scan_root == prev.scan_root
        &&& next.interval == prev.interval
        &&& next.scanning == prev.scanning
        &&& next.tick == prev.tick
        &&& next.stale_days == prev.stale_days
        &&& next.input_mode == prev.input_mode
        &&& next.search_query == prev.search_query
        &&& next.status_filter == prev.status_filter
        &&& next.filtered_indices == prev.filtered_indices
        &&& next.sort_order == prev.sort_order
        &&& next.detail_pane == prev.detail_pane
        &&& Self::same_extras(prev, next)
    }

    pub fn new(scan_root: String, interval: u64, stale_days: u64, sort_order: SortOrder) -> (r: Self)
        ensures
            r.repos@.len() == 0,
            r.selected == 0,
            r.scan_root == scan_root,
            r.interval == interval,
            r.scanning,
            r.last_full_refresh is None,
            r.tick == 0,
            r.pending_refreshes == 0,
            r.stale_days == stale_days,
            r.input_mode == InputMode::Normal,
            r.search_query@.len() == 0,
            r.status_filter == StatusFilter::All,
            r.filtered_indices@.len() == 0,
            r.sort_order == sort_order,
            r.detail_pane is None,
            r.help_scroll == 0,
            r.error_info_text is None,
            r.theme == spec_default_theme(),
            r.theme_picker_index == 0,
            r.theme_before_picker == spec_default_theme(),
            r.toasts@.len() == 0,
            r.filtered_ok(),
    {
        AppState {
            repos: Vec::new(),
            selected: 0,
            scan_root,
            interval,
            scanning: true,
            last_full_refresh: None,
            tick: 0,
            pending_refreshes: 0,
            stale_days,
            input_mode: InputMode::Normal,
            search_query: String::new(),
            status_filter: StatusFilter::All,
            filtered_indices: Vec::new(),
            sort_order,
            detail_pane: None,
            help_scroll: 0,
            error_info_text: None,
            theme: Theme::default(),
            theme_picker_index: 0,
            theme_before_picker: Theme::default(),
            toasts: Vec::new(),
        }
    }

    fn shows_repo(&self, i: usize, query: &Vec<char>) -> (r: bool)
        requires
            i < self.repos.len(),
            query@ == spec_lowercase(self.search_query@),
            query@.len() == 0 <==> self.search_query@.len() == 0,
            self.filter_computable(),
        ensures
            r == self.shows(i as int),
    {
        let repo = &self.repos[i];
        if query.len() > 0 {
            let lowered = chars_of(to_lowercase(repo.display_name.as_str()).as_str());
            if !chars_contain(&lowered, query) {
                return false;
            }
        }
        match self.status_filter {
            StatusFilter::All => true,
            StatusFilter::Clean => repo.status == RepoStatus::Clean && repo.error.is_none(),
            StatusFilter::Dirty => repo.status == RepoStatus::Dirty,
            StatusFilter::Behind => repo.behind > 0,
            StatusFilter::Ahead => repo.ahead > 0,
            StatusFilter::Errors => repo.error.is_some(),
            StatusFilter::Stale => stale_secs(self.stale_days, repo.last_commit_secs),
        }
    }

    /// Rebuilds the filtered list from the repositories, the search query,
    /// the status filter and the sort order, and clamps the selection.
    pub fn recompute_filtered(&mut self)
        requires
            old(self).filter_computable(),
        ensures
            Self::same_but_view(*old(self), *final(self)),
            final(self).filtered_ok(),
            final(self).selected == clamp_selection(
                old(self).selected,
                final(self).filtered_indices@.len(),
            ),
    {
        let lowered = to_lowercase(self.search_query.as_str());
        let query = chars_of(lowered.as_str());
        let n = self.repos.len();
        let order = self.sort_order;
        let mut names: Vec<Vec<char>> = Vec::new();
        let mut sorted: Vec<usize> = Vec::new();
        let mut i: usize = 0;
        while i < n
            invariant
                n == self.repos.len(),
                order == self.sort_order,
                i <= n,
                query@ == spec_lowercase(self.search_query@),
                query@.len() == 0 <==> self.search_query@.len() == 0,
                self.filter_computable(),
                names.len() == i,
                forall|k: int| 0 <= k < i ==> (#[trigger] names[k])@ == self.repos[k].display_name@,
                sorted@.no_duplicates(),
                forall|k: int|
                    0 <= k < sorted@.len() ==> #[trigger] sorted@[k] < i && self.shows(
                        sorted@[k] as int,
                    ),
                forall|x: int| 0 <= x < i && #[trigger] self.shows(x) ==> sorted@.contains(x as usize),
                sorted_by(order, self.repos@, sorted@),
            decreases n - i,
        {
            names.push(chars_of(self.repos[i].display_name.as_str()));
            if self.shows_repo(i, &query) {
                let mut k: usize = 0;
                while k < sorted.len() && repo_before(order, &self.repos, &names, sorted[k], i)
                    invariant
                        n == self.repos.len(),
                        i < n,
                        names.len() == i + 1,
                        forall|m: int| 0 <= m <= i ==> (#[trigger] names[m])@ == self.repos[m].display_name@,
                        forall|m: int| 0 <= m < sorted@.len() ==> #[trigger] sorted@[m] < i,
                        k <= sorted.len(),
                        forall|m: int|
                            0 <= m < k ==> sorted_before(
                                order,
                                self.repos@,
                                #[trigger] sorted@[m] as int,
                                i as int,
                            ),
                    decreases sorted.len() - k,
                {
                    k = k + 1;
                }
                let ghost s0 = sorted@;
                proof {
                    if k < s0.len() {
                        lemma_sorted_before_total(order, self.repos@, s0[k as int] as int, i as int);
                    }
                    lemma_insert_sorted(order, self.repos@, s0, k as int, i);
                    s0.insert_ensures(k as int, i);
                }
                sorted.insert(k, i);
                proof {
                    let t = sorted@;
                    assert forall|m: int| 0 <= m < t.len() implies #[trigger] t[m] < i + 1
                        && self.shows(t[m] as int) by {
                        if m > k {
                            assert(t[m] == s0[m - 1]);
                        }
                    }
                    assert forall|x: int| 0 <= x < i + 1 && #[trigger] self.shows(x) implies t.contains(
                        x as usize,
                    ) by {
                        if x == i {
                            assert(t[k as int] == i);
                        } else {
                            let m = choose|m: int| 0 <= m < s0.len() && s0[m] == x as usize;
                            if m < k {
                                assert(t[m] == x as usize);
                            } else {
                                assert(t[m + 1] == x as usize);
                            }
                        }
                    }
                    assert forall|a: int, b: int| 0 <= a < b < t.len() implies t[a] != t[b] by {
                        if a < k && b < k {
                        } else if a < k && b == k {
                            assert(t[a] == s0[a]);
                        } else if a < k {
                            assert(t[a] == s0[a] && t[b] == s0[b - 1]);
                        } else if a == k {
                            assert(t[b] == s0[b - 1]);
                        } else {
                            assert(t[a] == s0[a - 1] && t[b] == s0[b - 1]);
                        }
                    }
                }
            } else {
                proof {
                    assert forall|x: int| 0 <= x < i + 1 && #[trigger] self.shows(x) implies sorted@.contains(
                        x as usize,
                    ) by {}
                }
            }
            i = i + 1;
        }
        let len = sorted.len();
        let ghost pre = *self;
        let new_selected = if len == 0 {
            0
        } else if self.selected >= len {
            len - 1
        } else {
            self.selected
        };
        self.filtered_indices = sorted;
        self.selected = new_selected;
        assert forall|x: int| #[trigger] self.shows(x) == pre.shows(x) by {}
        assert forall|x: int| 0 <= x < n && #[trigger] self.shows(x) implies self.filtered_indices@.contains(x as usize) by {
            assert(pre.shows(x));
        }
        let ghost f = self.filtered_indices@;
        assert(f.no_duplicates());
        assert(forall|k: int| 0 <= k < f.len() ==> #[trigger] f[k] < self.repos@.len() && self.shows(f[k] as int));
        assert(forall|i: int| 0 <= i < self.repos@.len() && #[trigger] self.shows(i) ==> f.contains(i as usize));
        assert(sorted_by(self.sort_order, self.repos@, f));
    }
}

/// `r` is a repository just added for `path` under `root`, not yet examined.
pub open spec fn is_fresh_repo(r: RepoInfo, path: Seq<char>, root: Seq<char>) -> bool {
    &&& r.path@ == path
    &&& r.display_name@ == spec_display_name(path, root)
    &&& r.branch@ == "..."@
    &&& r.status == RepoStatus::Clean
    &&& r.ahead == 0
    &&& r.behind == 0
    &&& r.last_commit_age@ == "..."@
    &&& r.last_commit_secs == 0
    &&& r.branch_count == 0
    &&& r.last_updated is None
    &&& r.error is None
    &&& r.fetching
    &&& !r.pulling
    &&& r.pull_result is None
}

/// `k` is the first repository whose path is `path`.
pub open spec fn first_with_path(repos: Seq<RepoInfo>, path: Seq<char>, k: int) -> bool {
    &&& 0 <= k < repos.len()
    &&& repos[k].path@ == path
    &&& forall|j: int| 0 <= j < k ==> (#[trigger] repos[j]).path@ != path
}

/// The repositories after a read result for `path` at time `now` came in:
/// the first repository with that path takes it in; none changes when no
/// repository has that path.
pub open spec fn repos_after_result(
    repos: Seq<RepoInfo>,
    path: Seq<char>,
    result: Result<GitInfo, String>,
    now: u64,
) -> Seq<RepoInfo> {
    if exists|k: int| first_with_path(repos, path, k) {
        let k = choose|k: int| first_with_path(repos, path, k);
        repos.update(
            k,
            match result {
                Ok(info) => repos[k].with_info(info, now),
                Err(err) => repos[k].with_error(err, now),
            },
        )
    } else {
        repos
    }
}

proof fn lemma_first_with_path_unique(repos: Seq<RepoInfo>, path: Seq<char>, k: int, j: int)
    requires
        first_with_path(repos, path, k),
        first_with_path(repos, path, j),
    ensures
        k == j,
{
    if j < k {
        assert(repos[j].path@ != path);
    }
    if k < j {
        assert(repos[k].path@ != path);
    }
}

proof fn lemma_count_where_push(s: Seq<RepoInfo>, i: int, p: spec_fn(RepoInfo) -> bool)
    requires
        0 <= i < s.len(),
    ensures
        count_where(s.take(i + 1), p) == count_where(s.take(i), p) + if p(s[i]) {
            1nat
        } else {
            0nat
        },
{
    assert(s.take(i + 1).drop_last() =~= s.take(i));
}

/// The repository at `path` after a rescan of `old`: the state of the first
/// repository already watched at that path, else a fresh entry.
pub open spec fn reconciled_entry(old: Seq<RepoInfo>, path: Seq<char>, root: Seq<char>, r: RepoInfo) -> bool {
    if exists|k: int| first_with_path(old, path, k) {
        r == old[choose|k: int| first_with_path(old, path, k)]
    } else {
        is_fresh_repo(r, path, root)
    }
}

/// The repositories after a rescan of `old` found `paths`.
pub open spec fn reconciled(old: Seq<RepoInfo>, paths: Seq<String>, root: Seq<char>, new: Seq<RepoInfo>) -> bool {
    &&& new.len() == paths.len()
    &&& forall|i: int| 0 <= i < paths.len() ==> reconciled_entry(old, paths[i]@, root, #[trigger] new[i])
}

/// A rescan keeps the repositories it finds again with their state, adds
/// the new ones fresh, and drops those it no longer finds: the watched
/// paths are exactly the paths found.
pub proof fn law_rescan_keeps_state(old: Seq<RepoInfo>, paths: Seq<String>, root: Seq<char>, new: Seq<RepoInfo>)
    requires
        reconciled(old, paths, root, new),
    ensures
        forall|i: int| 0 <= i < new.len() ==> (#[trigger] new[i]).path@ == paths[i]@,
        forall|i: int, k: int|
            0 <= i < new.len() && first_with_path(old, paths[i]@, k) ==> #[trigger] new[i] == #[trigger] old[k],
        forall|i: int|
            0 <= i < new.len() && (forall|k: int| 0 <= k < old.len() ==> (#[trigger] old[k]).path@ != paths[i]@)
                ==> is_fresh_repo(#[trigger] new[i], paths[i]@, root),
{
    assert forall|i: int| 0 <= i < new.len() implies (#[trigger] new[i]).path@ == paths[i]@ by {
        assert(reconciled_entry(old, paths[i]@, root, new[i]));
        if exists|k: int| first_with_path(old, paths[i]@, k) {
            let c = choose|k: int| first_with_path(old, paths[i]@, k);
            assert(first_with_path(old, paths[i]@, c));
        }
    }
    assert forall|i: int, k: int|
        0 <= i < new.len() && first_with_path(old, paths[i]@, k) implies #[trigger] new[i] == #[trigger] old[k] by {
        assert(reconciled_entry(old, paths[i]@, root, new[i]));
        let c = choose|k: int| first_with_path(old, paths[i]@, k);
        lemma_first_with_path_unique(old, paths[i]@, k, c);
    }
    assert forall|i: int|
        0 <= i < new.len() && (forall|k: int| 0 <= k < old.len() ==> (#[trigger] old[k]).path@ != paths[i]@)
            implies is_fresh_repo(#[trigger] new[i], paths[i]@, root) by {
        assert(reconciled_entry(old, paths[i]@, root, new[i]));
        if exists|k: int| first_with_path(old, paths[i]@, k) {
            let c = choose|k: int| first_with_path(old, paths[i]@, k);
            assert(old[c].path@ == paths[i]@);
        }
    }
}

fn copy_opt_string(o: &Option<String>) -> (r: Option<String>)
    ensures
        r == *o,
{
    match o {
        Some(s) => Some(s.clone()),
        None => None,
    }
}

fn copy_repo(r: &RepoInfo) -> (c: RepoInfo)
    ensures
        c == *r,
{
    RepoInfo {
        path: r.path.clone(),
        display_name: r.display_name.clone(),
        branch: r.branch.clone(),
        status: r.status,
        ahead: r.ahead,
        behind: r.behind,
        last_commit_age: r.last_commit_age.clone(),
        last_commit_secs: r.last_commit_secs,
        branch_count: r.branch_count,
        last_updated: r.last_updated,
        error: copy_opt_string(&r.error),
        fetching: r.fetching,
        pulling: r.pulling,
        pull_result: match &r.pull_result {
            Some(Ok(m)) => Some(Ok(m.clone())),
            Some(Err(e)) => Some(Err(e.clone())),
            None => None,
        },
    }
}

fn find_path(repos: &Vec<RepoInfo>, path: &String) -> (r: Option<usize>)
    ensures
        match r {
            Some(k) => first_with_path(repos@, path@, k as int),
            None => forall|k: int| !first_with_path(repos@, path@, k),
        },
{
    let mut k: usize = 0;
    while k < repos.len()
        invariant
            k <= repos.len(),
            forall|j: int| 0 <= j < k ==> (#[trigger] repos@[j]).path@ != path@,
        decreases repos.len() - k,
    {
        if repos[k].path == *path {
            return Some(k);
        }
        k = k + 1;
    }
    proof {
        assert forall|c: int| !first_with_path(repos@, path@, c) by {
            if 0 <= c < repos@.len() && repos@[c].path@ == path@ {
                assert(c < k);
            }
        }
    }
    None
}

impl AppState {
    /// Takes in the paths a rescan found: repositories found again keep
    /// their state, new ones are added fresh, the others are dropped; the
    /// filtered list is rebuilt.
    pub fn reconcile_repos(&mut self, paths: Vec<String>)
        requires
            old(self).stale_ok(paths@.len()),
        ensures
            reconciled(old(self).repos@, paths@, old(self).scan_root@, final(self).repos@),
            final(self).filtered_ok(),
            final(self).selected == clamp_selection(
                old(self).selected,
                final(self).filtered_indices@.len(),
            ),
            Self::same_but_view(AppState { repos: final(self).repos, ..*old(self) }, *final(self)),
    {
        let mut repos: Vec<RepoInfo> = Vec::new();
        let mut i: usize = 0;
        while i < paths.len()
            invariant
                i <= paths.len(),
                repos@.len() == i,
                forall|k: int|
                    0 <= k < i ==> reconciled_entry(
                        self.repos@,
                        paths@[k]@,
                        self.scan_root@,
                        #[trigger] repos@[k],
                    ),
            decreases paths.len() - i,
        {
            let r = match find_path(&self.repos, &paths[i]) {
                Some(k) => {
                    proof {
                        let c = choose|c: int| first_with_path(self.repos@, paths@[i as int]@, c);
                        lemma_first_with_path_unique(self.repos@, paths@[i as int]@, k as int, c);
                    }
                    copy_repo(&self.repos[k])
                },
                None => RepoInfo::new(paths[i].clone(), &self.scan_root),
            };
            repos.push(r);
            i = i + 1;
        }
        self.repos = repos;
        self.recompute_filtered();
    }
}

impl AppState {
    /// Replaces the repositories with fresh entries for `paths` (in order)
    /// and ends the scan.
    pub fn set_repos(&mut self, paths: Vec<String>)
        requires
            old(self).stale_ok(paths@.len()),
        ensures
            final(self).repos@.len() == paths@.len(),
            forall|i: int|
                0 <= i < paths@.len() ==> is_fresh_repo(
                    #[trigger] final(self).repos@[i],
                    paths@[i]@,
                    old(self).scan_root@,
                ),
            !final(self).scanning,
            final(self).filtered_ok(),
            final(self).selected == clamp_selection(
                old(self).selected,
                final(self).filtered_indices@.len(),
            ),
            final(self).scan_root == old(self).scan_root,
            final(self).interval == old(self).interval,
            final(self).last_full_refresh == old(self).last_full_refresh,
            final(self).tick == old(self).tick,
            final(self).pending_refreshes == old(self).pending_refreshes,
            final(self).stale_days == old(self).stale_days,
            final(self).input_mode == old(self).input_mode,
            final(self).search_query == old(self).search_query,
            final(self).status_filter == old(self).status_filter,
            final(self).sort_order == old(self).sort_order,
            final(self).detail_pane == old(self).detail_pane,
            Self::same_extras(*old(self), *final(self)),
    {
        let mut repos: Vec<RepoInfo> = Vec::new();
        let mut i: usize = 0;
        while i < paths.len()
            invariant
                i <= paths.len(),
                repos@.len() == i,
                forall|k: int|
                    0 <= k < i ==> is_fresh_repo(#[trigger] repos@[k], paths@[k]@, self.scan_root@),
            decreases paths.len() - i,
        {
            let repo = RepoInfo::new(paths[i].clone(), &self.scan_root);
            repos.push(repo);
            i = i + 1;
        }
        self.repos = repos;
        self.scanning = false;
        self.recompute_filtered();
    }

    /// Takes in a read result for `path` at time `now`: the first repository
    /// with that path is updated, one pending refresh is counted done, and
    /// the filtered list is rebuilt.
    pub fn update_repo(&mut self, path: &String, result: Result<GitInfo, String>, now: u64)
        requires
            old(self).filter_computable(),
        ensures
            final(self).repos@ == repos_after_result(old(self).repos@, path@, result, now),
            final(self).pending_refreshes == if old(self).pending_refreshes == 0 {
                0
            } else {
                (old(self).pending_refreshes - 1) as usize
            },
            final(self).filtered_ok(),
            final(self).selected == clamp_selection(
                old(self).selected,
                final(self).filtered_indices@.len(),
            ),
            final(self).scan_root == old(self).scan_root,
            final(self).interval == old(self).interval,
            final(self).scanning == old(self).scanning,
            final(self).last_full_refresh == old(self).last_full_refresh,
            final(self).tick == old(self).tick,
            final(self).stale_days == old(self).stale_days,
            final(self).input_mode == old(self).input_mode,
            final(self).search_query == old(self).search_query,
            final(self).status_filter == old(self).status_filter,
            final(self).sort_order == old(self).sort_order,
            final(self).detail_pane == old(self).detail_pane,
            Self::same_extras(*old(self), *final(self)),
    {
        let ghost repos0 = self.repos@;
        let mut k: usize = 0;
        while k < self.repos.len() && self.repos[k].path != *path
            invariant
                self.repos@ == repos0,
                k <= self.repos.len(),
                forall|j: int| 0 <= j < k ==> (#[trigger] repos0[j]).path@ != path@,
            decreases self.repos.len() - k,
        {
            k = k + 1;
        }
        if k < self.repos.len() {
            proof {
                assert(first_with_path(repos0, path@, k as int));
                let c = choose|c: int| first_with_path(repos0, path@, c);
                lemma_first_with_path_unique(repos0, path@, k as int, c);
            }
            let mut repo = self.repos.remove(k);
            match result {
                Ok(info) => repo.update_from_git_info(info, now),
                Err(err) => repo.set_error(err, now),
            }
            self.repos.insert(k, repo);
            proof {
                assert(self.repos@ =~= repos_after_result(repos0, path@, result, now));
            }
        } else {
            proof {
                assert forall|c: int| !first_with_path(repos0, path@, c) by {
                    if 0 <= c < repos0.len() && repos0[c].path@ == path@ {
                        assert(c < k);
                    }
                }
            }
        }
        self.pending_refreshes = self.pending_refreshes.saturating_sub(1);
        self.recompute_filtered();
    }

    /// A full refresh is due at time `now`: the interval has passed since
    /// the last one, or none happened yet and the scan is over.
    pub fn should_refresh(&self, now: u64) -> (r: bool)
        ensures
            r == match self.last_full_refresh {
                Some(last) => (if now >= last { now - last } else { 0 }) >= self.interval * 1000,
                None => !self.scanning,
            },
    {
        match self.last_full_refresh {
            Some(last) => {
                let elapsed = now.saturating_sub(last);
                let secs = elapsed / 1000;
                proof {
                    assert(secs >= self.interval <==> elapsed >= self.interval * 1000) by (nonlinear_arith)
                        requires
                            secs == elapsed / 1000,
                    ;
                }
                secs >= self.interval
            },
            None => !self.scanning,
        }
    }

    /// Starts a full refresh at time `now`: every repository is pending.
    pub fn mark_refreshing(&mut self, now: u64)
        ensures
            final(self).last_full_refresh == Some(now),
            final(self).pending_refreshes == old(self).repos@.len(),
            Self::same_but_refresh(*old(self), *final(self)),
    {
        self.last_full_refresh = Some(now);
        self.pending_refreshes = self.repos.len();
    }

    /// Advances the animation tick, wrapping around.
    pub fn tick(&mut self)
        ensures
            final(self).tick == if old(self).tick == usize::MAX {
                0
            } else {
                (old(self).tick + 1) as usize
            },
            *final(self) == (AppState { tick: final(self).tick, ..*old(self) }),
    {
        self.tick = self.tick.wrapping_add(1);
    }

    /// The spinner frame for the current tick.
    pub fn spinner(&self) -> (r: &'static str)
        ensures
            r@ == spinner_frame(self.tick),
    {
        let k = self.tick % 10;
        if k == 0 {
            "⠋"
        } else if k == 1 {
            "⠙"
        } else if k == 2 {
            "⠹"
        } else if k == 3 {
            "⠸"
        } else if k == 4 {
            "⠼"
        } else if k == 5 {
            "⠴"
        } else if k == 6 {
            "⠦"
        } else if k == 7 {
            "⠧"
        } else if k == 8 {
            "⠇"
        } else {
            "⠏"
        }
    }

    pub fn is_refreshing(&self) -> (r: bool)
        ensures
            r == (self.pending_refreshes > 0 || self.scanning),
    {
        self.pending_refreshes > 0 || self.scanning
    }

    // --- Stale ---

    pub fn is_stale(&self, repo: &RepoInfo) -> (r: bool)
        requires
            stale_threshold_fits(self.stale_days),
        ensures
            r == spec_is_stale(self.stale_days, repo.last_commit_secs),
    {
        stale_secs(self.stale_days, repo.last_commit_secs)
    }

    pub fn stale_count(&self) -> (r: usize)
        requires
            self.repos@.len() > 0 ==> stale_threshold_fits(self.stale_days),
        ensures
            r == count_where(
                self.repos@,
                |x: RepoInfo| spec_is_stale(self.stale_days, x.last_commit_secs),
            ),
    {
        let ghost p = |x: RepoInfo| spec_is_stale(self.stale_days, x.last_commit_secs);
        let mut n: usize = 0;
        let mut i: usize = 0;
        while i < self.repos.len()
            invariant
                i <= self.repos.len(),
                n <= i,
                self.repos@.len() > 0 ==> stale_threshold_fits(self.stale_days),
                p == (|x: RepoInfo| spec_is_stale(self.stale_days, x.last_commit_secs)),
                n == count_where(self.repos@.take(i as int), p),
            decreases self.repos.len() - i,
        {
            proof {
                lemma_count_where_push(self.repos@, i as int, p);
            }
            if self.is_stale(&self.repos[i]) {
                n = n + 1;
            }
            i = i + 1;
        }
        assert(self.repos@.take(i as int) =~= self.repos@);
        n
    }

    // --- Navigation ---

    pub fn select_next(&mut self)
        requires
            old(self).filtered_indices@.len() == 0 || old(self).selected < usize::MAX,
        ensures
            final(self).selected == if old(self).filtered_indices@.len() == 0 {
                old(self).selected
            } else if old(self).selected + 1 < old(self).filtered_indices@.len() {
                (old(self).selected + 1) as usize
            } else {
                (old(self).filtered_indices@.len() - 1) as usize
            },
            Self::same_but_selection(*old(self), *final(self)),
    {
        if !self.filtered_indices.is_empty() {
            let up = self.selected + 1;
            let last = self.filtered_indices.len() - 1;
            self.selected = if up < last { up } else { last };
        }
    }

    pub fn select_prev(&mut self)
        ensures
            final(self).selected == if old(self).selected == 0 {
                0
            } else {
                (old(self).selected - 1) as usize
            },
            Self::same_but_selection(*old(self), *final(self)),
    {
        self.selected = self.selected.saturating_sub(1);
    }

    /// The repository at the selected row, if any.
    pub open spec fn spec_selected_index(self) -> Option<int> {
        if self.selected < self.filtered_indices@.len() && self.filtered_indices@[self.selected as int]
            < self.repos@.len() {
            Some(self.filtered_indices@[self.selected as int] as int)
        } else {
            None
        }
    }

    pub fn selected_repo(&self) -> (r: Option<&RepoInfo>)
        ensures
            match self.spec_selected_index() {
                Some(k) => r == Some(&self.repos@[k]),
                None => r is None,
            },
    {
        if self.selected < self.filtered_indices.len() {
            let idx = self.filtered_indices[self.selected];
            if idx < self.repos.len() {
                return Some(&self.repos[idx]);
            }
        }
        None
    }

    // --- Filter/Search ---

    pub fn cycle_filter(&mut self)
        requires
            old(self).status_filter.spec_next() == StatusFilter::Stale && old(self).repos@.len() > 0
                ==> stale_threshold_fits(old(self).stale_days),
        ensures
            final(self).status_filter == old(self).status_filter.spec_next(),
            Self::same_but_view(AppState { status_filter: final(self).status_filter, ..*old(self) }, *final(self)),
            final(self).filtered_ok(),
            final(self).selected == clamp_selection(
                old(self).selected,
                final(self).filtered_indices@.len(),
            ),
    {
        self.status_filter = self.status_filter.next();
        self.recompute_filtered();
    }

    pub fn cycle_sort(&mut self)
        requires
            old(self).filter_computable(),
        ensures
            final(self).sort_order == old(self).sort_order.spec_next(),
            Self::same_but_view(AppState { sort_order: final(self).sort_order, ..*old(self) }, *final(self)),
            final(self).filtered_ok(),
            final(self).selected == clamp_selection(
                old(self).selected,
                final(self).filtered_indices@.len(),
            ),
    {
        self.sort_order = self.sort_order.next();
        self.recompute_filtered();
    }

    // --- Detail Pane ---

    /// Opens the detail pane for the selected repository with `details`;
    /// nothing changes when no repository is selected.
    pub fn open_detail_pane(&mut self, details: RepoDetails)
        ensures
            match old(self).spec_selected_index() {
                Some(k) => final(self).detail_pane matches Some(pane) && pane.display_name@
                    == old(self).repos@[k].display_name@ && pane.commits == details.recent_commits
                    && pane.changed_files == details.changed_files && pane.remote_urls
                    == details.remote_urls && pane.branches == details.branches && pane.scroll == 0,
                None => final(self).detail_pane == old(self).detail_pane,
            },
            Self::same_but_pane(*old(self), *final(self)),
    {
        let pane = match self.selected_repo() {
            Some(repo) => Some(DetailPane::from_details(repo, details)),
            None => None,
        };
        if pane.is_some() {
            self.detail_pane = pane;
        }
    }

    pub fn close_detail_pane(&mut self)
        ensures
            final(self).detail_pane is None,
            Self::same_but_pane(*old(self), *final(self)),
    {
        self.detail_pane = None;
    }

    // --- Stats ---

    pub fn repo_count(&self) -> (r: usize)
        ensures
            r == self.filtered_indices@.len(),
    {
        self.filtered_indices.len()
    }

    pub fn total_count(&self) -> (r: usize)
        ensures
            r == self.repos@.len(),
    {
        self.repos.len()
    }

    pub fn clean_count(&self) -> (r: usize)
        ensures
            r == count_where(self.repos@, |x: RepoInfo| is_clean_ok(x)),
    {
        let ghost p = |x: RepoInfo| is_clean_ok(x);
        let mut n: usize = 0;
        let mut i: usize = 0;
        while i < self.repos.len()
            invariant
                i <= self.repos.len(),
                n <= i,
                p == (|x: RepoInfo| is_clean_ok(x)),
                n == count_where(self.repos@.take(i as int), p),
            decreases self.repos.len() - i,
        {
            proof {
                lemma_count_where_push(self.repos@, i as int, p);
            }
            if self.repos[i].status == RepoStatus::Clean && self.repos[i].error.is_none() {
                n = n + 1;
            }
            i = i + 1;
        }
        assert(self.repos@.take(i as int) =~= self.repos@);
        n
    }

    pub fn dirty_count(&self) -> (r: usize)
        ensures
            r == count_where(self.repos@, |x: RepoInfo| is_dirty(x)),
    {
        let ghost p = |x: RepoInfo| is_dirty(x);
        let mut n: usize = 0;
        let mut i: usize = 0;
        while i < self.repos.len()
            invariant
                i <= self.repos.len(),
                n <= i,
                p == (|x: RepoInfo| is_dirty(x)),
                n == count_where(self.repos@.take(i as int), p),
            decreases self.repos.len() - i,
        {
            proof {
                lemma_count_where_push(self.repos@, i as int, p);
            }
            if self.repos[i].status == RepoStatus::Dirty {
                n = n + 1;
            }
            i = i + 1;
        }
        assert(self.repos@.take(i as int) =~= self.repos@);
        n
    }

    pub fn error_count(&self) -> (r: usize)
        ensures
            r == count_where(self.repos@, |x: RepoInfo| has_error(x)),
    {
        let ghost p = |x: RepoInfo| has_error(x);
        let mut n: usize = 0;
        let mut i: usize = 0;
        while i < self.repos.len()
            invariant
                i <= self.repos.len(),
                n <= i,
                p == (|x: RepoInfo| has_error(x)),
                n == count_where(self.repos@.take(i as int), p),
            decreases self.repos.len() - i,
        {
            proof {
                lemma_count_where_push(self.repos@, i as int, p);
            }
            if self.repos[i].error.is_some() {
                n = n + 1;
            }
            i = i + 1;
        }
        assert(self.repos@.take(i as int) =~= self.repos@);
        n
    }
}

// --- Laws of the filtered view ---

/// The dashboard never shows more rows than there are repositories.
pub proof fn law_repo_count_at_most_total(s: AppState)
    requires
        s.filtered_ok(),
    ensures
        s.filtered_indices@.len() <= s.repos@.len(),
{
    let f = s.filtered_indices@;
    let g = f.map_values(|x: usize| x as int);
    assert forall|a: int, b: int| 0 <= a < b < g.len() implies g[a] != g[b] by {
        assert(f[a] != f[b]);
    }
    assert(g.no_duplicates());
    g.unique_seq_to_set();
    vstd::set_lib::lemma_int_range(0, s.repos@.len() as int);
    assert forall|x: int| g.to_set().contains(x) implies vstd::set_lib::set_int_range(
        0,
        s.repos@.len() as int,
    ).contains(x) by {
        let k = choose|k: int| 0 <= k < g.len() && g[k] == x;
        assert(f[k] < s.repos@.len());
    }
    vstd::set_lib::lemma_len_subset(g.to_set(), vstd::set_lib::set_int_range(0, s.repos@.len() as int));
}

proof fn lemma_sorted_unique(order: SortOrder, repos: Seq<RepoInfo>, s1: Seq<usize>, s2: Seq<usize>)
    requires
        s1.no_duplicates(),
        s2.no_duplicates(),
        sorted_by(order, repos, s1),
        sorted_by(order, repos, s2),
        forall|k: int| 0 <= k < s1.len() ==> #[trigger] s1[k] < repos.len(),
        forall|x: usize| s1.contains(x) <==> s2.contains(x),
    ensures
        s1 == s2,
    decreases s1.len(),
{
    if s1.len() == 0 {
        if s2.len() > 0 {
            assert(s2.contains(s2[0]));
        }
        assert(s1 =~= s2);
    } else {
        assert(s1.contains(s1[0]));
        let x = s1[0];
        let y = s2[0];
        if x != y {
            assert(s2.contains(y));
            let m = choose|m: int| 0 <= m < s1.len() && s1[m] == y;
            let m2 = choose|m2: int| 0 <= m2 < s2.len() && s2[m2] == x;
            assert(m > 0 && m2 > 0);
            assert(sorted_before(order, repos, s1[0] as int, s1[m] as int));
            assert(sorted_before(order, repos, s2[0] as int, s2[m2] as int));
            lemma_sorted_before_total(order, repos, x as int, y as int);
        }
        let t1 = s1.drop_first();
        let t2 = s2.drop_first();
        assert forall|z: usize| t1.contains(z) <==> t2.contains(z) by {
            if t1.contains(z) {
                let k = choose|k: int| 0 <= k < t1.len() && t1[k] == z;
                assert(s1[k + 1] == z && z != x);
                assert(s1.contains(z));
                let k2 = choose|k2: int| 0 <= k2 < s2.len() && s2[k2] == z;
                assert(k2 > 0);
                assert(t2[k2 - 1] == z);
            }
            if t2.contains(z) {
                let k = choose|k: int| 0 <= k < t2.len() && t2[k] == z;
                assert(s2[k + 1] == z && z != y);
                assert(s2.contains(z));
                let k1 = choose|k1: int| 0 <= k1 < s1.len() && s1[k1] == z;
                assert(k1 > 0);
                assert(t1[k1 - 1] == z);
            }
        }
        assert(sorted_by(order, repos, t1)) by {
            assert forall|a: int, b: int| 0 <= a < b < t1.len() implies sorted_before(
                order,
                repos,
                #[trigger] t1[a] as int,
                #[trigger] t1[b] as int,
            ) by {
                assert(t1[a] == s1[a + 1] && t1[b] == s1[b + 1]);
            }
        }
        assert(sorted_by(order, repos, t2)) by {
            assert forall|a: int, b: int| 0 <= a < b < t2.len() implies sorted_before(
                order,
                repos,
                #[trigger] t2[a] as int,
                #[trigger] t2[b] as int,
            ) by {
                assert(t2[a] == s2[a + 1] && t2[b] == s2[b + 1]);
            }
        }
        assert forall|k: int| 0 <= k < t1.len() implies #[trigger] t1[k] < repos.len() by {
            assert(t1[k] == s1[k + 1]);
        }
        lemma_sorted_unique(order, repos, t1, t2);
        assert(s1 =~= seq![x] + t1);
        assert(s2 =~= seq![y] + t2);
    }
}

/// The filtered list is determined by the repositories, the search query,
/// the status filter, the stale threshold and the sort order: two states
/// that agree on these and both have a correct filtered list have the same
/// one.
pub proof fn law_filtered_view_unique(a: AppState, b: AppState)
    requires
        a.filtered_ok(),
        b.filtered_ok(),
        a.repos == b.repos,
        a.search_query@ == b.search_query@,
        a.status_filter == b.status_filter,
        a.stale_days == b.stale_days,
        a.sort_order == b.sort_order,
    ensures
        a.filtered_indices@ == b.filtered_indices@,
{
    let f1 = a.filtered_indices@;
    let f2 = b.filtered_indices@;
    assert forall|i: int| #[trigger] a.shows(i) == b.shows(i) by {}
    assert forall|x: usize| f1.contains(x) <==> f2.contains(x) by {
        if f1.contains(x) {
            let k = choose|k: int| 0 <= k < f1.len() && f1[k] == x;
            assert(f1[k] < a.repos@.len() && a.shows(x as int));
            assert(b.shows(x as int));
        }
        if f2.contains(x) {
            let k = choose|k: int| 0 <= k < f2.len() && f2[k] == x;
            assert(f2[k] < b.repos@.len() && b.shows(x as int));
            assert(a.shows(x as int));
        }
    }
    lemma_sorted_unique(a.sort_order, a.repos@, f1, f2);
}


// --- Overlays: help, error details, theme picker ---

/// The position of the first preset that is `t`, searching from `i`; 0
/// when none is.
pub open spec fn preset_position(t: Theme, i: nat) -> nat
    decreases preset_count() - i,
{
    if i >= preset_count() {
        0
    } else if preset_theme(i as int) == t {
        i
    } else {
        preset_position(t, i + 1)
    }
}

/// The preset after `i` in the picker, wrapping around.
pub open spec fn next_preset(i: usize) -> usize {
    if i + 1 < preset_count() {
        (i + 1) as usize
    } else {
        0
    }
}

/// The preset before `i` in the picker, wrapping around.
pub open spec fn prev_preset(i: usize) -> usize {
    if i == 0 || i >= preset_count() {
        (preset_count() - 1) as usize
    } else {
        (i - 1) as usize
    }
}

/// The repositories after a pull of the repository at `path` started: the
/// first repository with that path is marked as pulling.
pub open spec fn repos_pulling(repos: Seq<RepoInfo>, path: Seq<char>) -> Seq<RepoInfo> {
    if exists|k: int| first_with_path(repos, path, k) {
        let k = choose|k: int| first_with_path(repos, path, k);
        repos.update(k, RepoInfo { pulling: true, ..repos[k] })
    } else {
        repos
    }
}

/// The repositories after a pull of the repository at `path` ended with
/// `result`: the first repository with that path is no longer pulling and
/// keeps the result.
pub open spec fn repos_pulled(repos: Seq<RepoInfo>, path: Seq<char>, result: Result<String, String>) -> Seq<RepoInfo> {
    if exists|k: int| first_with_path(repos, path, k) {
        let k = choose|k: int| first_with_path(repos, path, k);
        repos.update(k, RepoInfo { pulling: false, pull_result: Some(result), ..repos[k] })
    } else {
        repos
    }
}

impl AppState {
    /// Opens the keyboard help, scrolled to the top.
    pub fn open_help(&mut self)
        ensures
            *final(self) == (AppState { input_mode: InputMode::Help, help_scroll: 0, ..*old(self) }),
    {
        self.input_mode = InputMode::Help;
        self.help_scroll = 0;
    }

    /// Closes the keyboard help.
    pub fn close_help(&mut self)
        ensures
            *final(self) == (AppState { input_mode: InputMode::Normal, ..*old(self) }),
    {
        self.input_mode = InputMode::Normal;
    }

    /// Shows the error of the selected repository; nothing happens when no
    /// repository is selected or the selected one has no error.
    pub fn show_error_info(&mut self)
        ensures
            match old(self).spec_selected_index() {
                Some(k) => match old(self).repos@[k].error {
                    Some(e) => *final(self) == (AppState {
                        input_mode: InputMode::ErrorInfo,
                        error_info_text: Some(e),
                        ..*old(self)
                    }),
                    None => *final(self) == *old(self),
                },
                None => *final(self) == *old(self),
            },
    {
        let text = match self.selected_repo() {
            Some(repo) => match &repo.error {
                Some(e) => Some(e.clone()),
                None => None,
            },
            None => None,
        };
        if text.is_some() {
            self.error_info_text = text;
            self.input_mode = InputMode::ErrorInfo;
        }
    }

    /// Closes the error overlay.
    pub fn close_error_info(&mut self)
        ensures
            *final(self) == (AppState { input_mode: InputMode::Normal, error_info_text: None, ..*old(self) }),
    {
        self.input_mode = InputMode::Normal;
        self.error_info_text = None;
    }

    /// Opens the theme picker on the preset in use (the first preset when
    /// the theme in use is none of them), remembering the theme in use.
    pub fn open_theme_picker(&mut self)
        ensures
            *final(self) == (AppState {
                input_mode: InputMode::ThemePicker,
                theme_picker_index: preset_position(old(self).theme, 0) as usize,
                theme_before_picker: old(self).theme,
                ..*old(self)
            }),
    {
        let presets = Theme::presets();
        let mut i: usize = 0;
        while i < presets.len() && presets[i].theme != self.theme
            invariant
                i <= presets@.len(),
                presets@.len() == preset_count(),
                forall|k: int|
                    0 <= k < presets@.len() ==> (#[trigger] presets@[k]).name@ == preset_name(k)
                        && presets@[k].theme == preset_theme(k),
                preset_position(self.theme, 0) == preset_position(self.theme, i as nat),
            decreases presets.len() - i,
        {
            i = i + 1;
        }
        let index = if i < presets.len() {
            i
        } else {
            0
        };
        self.theme_before_picker = self.theme;
        self.theme_picker_index = index;
        self.input_mode = InputMode::ThemePicker;
    }

    fn preview(&mut self, index: usize)
        requires
            index < preset_count(),
        ensures
            *final(self) == (AppState {
                theme_picker_index: index,
                theme: preset_theme(index as int),
                ..*old(self)
            }),
    {
        let presets = Theme::presets();
        self.theme_picker_index = index;
        self.theme = presets[index].theme;
    }

    /// Highlights and previews the next preset, wrapping around.
    pub fn theme_picker_next(&mut self)
        ensures
            *final(self) == (AppState {
                theme_picker_index: next_preset(old(self).theme_picker_index),
                theme: preset_theme(next_preset(old(self).theme_picker_index) as int),
                ..*old(self)
            }),
    {
        let n: usize = 8;
        let i = self.theme_picker_index;
        let next = if i < n - 1 {
            i + 1
        } else {
            0
        };
        self.preview(next);
    }

    /// Highlights and previews the previous preset, wrapping around.
    pub fn theme_picker_prev(&mut self)
        ensures
            *final(self) == (AppState {
                theme_picker_index: prev_preset(old(self).theme_picker_index),
                theme: preset_theme(prev_preset(old(self).theme_picker_index) as int),
                ..*old(self)
            }),
    {
        let n: usize = 8;
        let i = self.theme_picker_index;
        let prev = if i == 0 || i >= n {
            n - 1
        } else {
            i - 1
        };
        self.preview(prev);
    }

    /// Keeps the previewed theme and closes the picker; gives the name of
    /// the highlighted preset.
    pub fn theme_picker_confirm(&mut self) -> (name: Option<&'static str>)
        ensures
            *final(self) == (AppState { input_mode: InputMode::Normal, ..*old(self) }),
            match name {
                Some(n) => old(self).theme_picker_index < preset_count() && n@ == preset_name(
                    old(self).theme_picker_index as int,
                ),
                None => old(self).theme_picker_index >= preset_count(),
            },
    {
        self.input_mode = InputMode::Normal;
        let presets = Theme::presets();
        if self.theme_picker_index < presets.len() {
            Some(presets[self.theme_picker_index].name)
        } else {
            None
        }
    }

    /// Restores the theme in use before the picker opened and closes it.
    pub fn theme_picker_cancel(&mut self)
        ensures
            *final(self) == (AppState {
                input_mode: InputMode::Normal,
                theme: old(self).theme_before_picker,
                ..*old(self)
            }),
    {
        self.theme = self.theme_before_picker;
        self.input_mode = InputMode::Normal;
    }

    /// Marks the repository at `path` as being pulled.
    pub fn set_pulling(&mut self, path: &String)
        ensures
            *final(self) == (AppState { repos: final(self).repos, ..*old(self) }),
            final(self).repos@ == repos_pulling(old(self).repos@, path@),
    {
        match find_path(&self.repos, path) {
            Some(k) => {
                proof {
                    let c = choose|c: int| first_with_path(self.repos@, path@, c);
                    lemma_first_with_path_unique(self.repos@, path@, k as int, c);
                }
                let mut repo = self.repos.remove(k);
                repo.pulling = true;
                self.repos.insert(k, repo);
                proof {
                    assert(self.repos@ =~= repos_pulling(old(self).repos@, path@));
                }
            },
            None => {},
        }
    }

    /// Records how the pull of the repository at `path` ended.
    pub fn set_pull_result(&mut self, path: &String, result: Result<String, String>)
        ensures
            *final(self) == (AppState { repos: final(self).repos, ..*old(self) }),
            final(self).repos@ == repos_pulled(old(self).repos@, path@, result),
    {
        match find_path(&self.repos, path) {
            Some(k) => {
                proof {
                    let c = choose|c: int| first_with_path(self.repos@, path@, c);
                    lemma_first_with_path_unique(self.repos@, path@, k as int, c);
                }
                let mut repo = self.repos.remove(k);
                repo.pulling = false;
                repo.pull_result = Some(result);
                self.repos.insert(k, repo);
                proof {
                    assert(self.repos@ =~= repos_pulled(old(self).repos@, path@, result));
                }
            },
            None => {},
        }
    }
}


// --- Feedback messages ---

impl AppState {
    /// Shows the message `message` from time `now`.
    pub fn toast(&mut self, message: String, level: ToastLevel, now: u64)
        ensures
            final(self).toasts@ == old(self).toasts@.push(Toast { message, level, created: now }),
            *final(self) == (AppState { toasts: final(self).toasts, ..*old(self) }),
    {
        self.toasts.push(Toast { message, level, created: now });
    }

    /// Drops the messages shown for `TOAST_MS` or longer at time `now`.
    pub fn expire_toasts(&mut self, now: u64)
        ensures
            final(self).toasts@ == live_toasts(old(self).toasts@, now),
            *final(self) == (AppState { toasts: final(self).toasts, ..*old(self) }),
    {
        let mut old_toasts: Vec<Toast> = Vec::new();
        std::mem::swap(&mut old_toasts, &mut self.toasts);
        let ghost all = old_toasts@;
        let mut kept: Vec<Toast> = Vec::new();
        let mut i: usize = 0;
        while i < old_toasts.len()
            invariant
                i <= old_toasts.len(),
                old_toasts@ == all,
                kept@ == live_toasts(all.take(i as int), now),
            decreases old_toasts.len() - i,
        {
            assert(all.take(i + 1).drop_last() =~= all.take(i as int));
            assert(all.take(i + 1).last() == all[i as int]);
            let created = old_toasts[i].created;
            if now < created || now - created < TOAST_MS {
                let t = &old_toasts[i];
                kept.push(Toast { message: t.message.clone(), level: t.level, created: t.created });
            }
            i = i + 1;
        }
        assert(all.take(i as int) =~= all);
        self.toasts = kept;
    }

    /// The newest message, if any is up.
    pub fn active_toast(&self) -> (r: Option<&Toast>)
        ensures
            match r {
                Some(t) => self.toasts@.len() > 0 && *t == self.toasts@.last(),
                None => self.toasts@.len() == 0,
            },
    {
        if self.toasts.len() > 0 {
            Some(&self.toasts[self.toasts.len() - 1])
        } else {
            None
        }
    }
}


// --- The clock ---

impl AppState {
    /// What a tick of the clock at `now` does: advances the animation, drops
    /// expired messages, and, when a full refresh is due and there are
    /// repositories, starts one; the result tells whether it started (the
    /// caller then rescans).
    pub fn on_tick(&mut self, now: u64) -> (rescan: bool)
        ensures
            rescan == (match old(self).last_full_refresh {
                Some(last) => (if now >= last { now - last } else { 0 }) >= old(self).interval * 1000,
                None => !old(self).scanning,
            } && old(self).repos@.len() > 0),
            final(self).tick == if old(self).tick == usize::MAX {
                0
            } else {
                (old(self).tick + 1) as usize
            },
            final(self).toasts@ == live_toasts(old(self).toasts@, now),
            final(self).last_full_refresh == if rescan {
                Some(now)
            } else {
                old(self).last_full_refresh
            },
            final(self).pending_refreshes == if rescan {
                old(self).repos@.len() as usize
            } else {
                old(self).pending_refreshes
            },
            *final(self) == (AppState {
                tick: final(self).tick,
                toasts: final(self).toasts,
                last_full_refresh: final(self).last_full_refresh,
                pending_refreshes: final(self).pending_refreshes,
                ..*old(self)
            }),
    {
        self.tick();
        self.expire_toasts(now);
        let rescan = self.should_refresh(now) && self.repos.len() > 0;
        if rescan {
            self.mark_refreshing(now);
        }
        rescan
    }
}


// --- Results of background work ---

/// The filtered list stays right when nothing it depends on changes.
proof fn lemma_filtered_ok_transfer(a: AppState, b: AppState)
    requires
        a.filtered_ok(),
        b.repos == a.repos,
        b.search_query@ == a.search_query@,
        b.status_filter == a.status_filter,
        b.stale_days == a.stale_days,
        b.sort_order == a.sort_order,
        b.filtered_indices == a.filtered_indices,
    ensures
        b.filtered_ok(),
{
    assert forall|i: int| #[trigger] b.shows(i) == a.shows(i) by {}
}

/// The name to notify about when the read result `result` for `path` comes
/// in: the first repository with that path, when the result takes it from
/// synced to behind.
pub open spec fn notified_name(repos: Seq<RepoInfo>, path: Seq<char>, result: Result<GitInfo, String>) -> Option<Seq<char>> {
    if exists|k: int| first_with_path(repos, path, k) {
        let k = choose|k: int| first_with_path(repos, path, k);
        if repos[k].spec_goes_behind(result) {
            Some(repos[k].display_name@)
        } else {
            None
        }
    } else {
        None
    }
}

impl AppState {
    /// The first scan found `paths` at time `now`: the repositories are set
    /// and, when there are any, a full refresh starts (the result tells the
    /// caller to refresh them all).
    pub fn on_scan_complete(&mut self, paths: Vec<String>, now: u64) -> (refresh: bool)
        requires
            old(self).stale_ok(paths@.len()),
        ensures
            refresh == (paths@.len() > 0),
            final(self).repos@.len() == paths@.len(),
            forall|i: int|
                0 <= i < paths@.len() ==> is_fresh_repo(
                    #[trigger] final(self).repos@[i],
                    paths@[i]@,
                    old(self).scan_root@,
                ),
            final(self).filtered_ok(),
            final(self).selected == clamp_selection(
                old(self).selected,
                final(self).filtered_indices@.len(),
            ),
            Self::same_but_view(
                AppState {
                    repos: final(self).repos,
                    scanning: false,
                    last_full_refresh: if refresh {
                        Some(now)
                    } else {
                        old(self).last_full_refresh
                    },
                    pending_refreshes: if refresh {
                        paths@.len() as usize
                    } else {
                        old(self).pending_refreshes
                    },
                    ..*old(self)
                },
                *final(self),
            ),
    {
        self.set_repos(paths);
        if self.repos.len() > 0 {
            let ghost before = *self;
            self.mark_refreshing(now);
            proof {
                lemma_filtered_ok_transfer(before, *self);
            }
            true
        } else {
            false
        }
    }

    /// A rescan found `paths`: the repositories are reconciled with them and
    /// every one of them is pending a refresh (the caller refreshes them).
    pub fn on_rescan_complete(&mut self, paths: Vec<String>)
        requires
            old(self).stale_ok(paths@.len()),
        ensures
            reconciled(old(self).repos@, paths@, old(self).scan_root@, final(self).repos@),
            final(self).filtered_ok(),
            final(self).selected == clamp_selection(
                old(self).selected,
                final(self).filtered_indices@.len(),
            ),
            Self::same_but_view(
                AppState {
                    repos: final(self).repos,
                    pending_refreshes: paths@.len() as usize,
                    ..*old(self)
                },
                *final(self),
            ),
    {
        self.reconcile_repos(paths);
        let ghost before = *self;
        self.pending_refreshes = self.repos.len();
        proof {
            lemma_filtered_ok_transfer(before, *self);
        }
    }

    /// A read result for `path` came in at time `now`: it is taken in as
    /// `update_repo` does; the result names the repository when it went
    /// from synced to behind, so that the caller can notify.
    pub fn on_repo_updated(&mut self, path: &String, result: Result<GitInfo, String>, now: u64) -> (notify: Option<String>)
        requires
            old(self).filter_computable(),
        ensures
            match notify {
                Some(n) => notified_name(old(self).repos@, path@, result) == Some(n@),
                None => notified_name(old(self).repos@, path@, result) is None,
            },
            final(self).repos@ == repos_after_result(old(self).repos@, path@, result, now),
            final(self).pending_refreshes == if old(self).pending_refreshes == 0 {
                0
            } else {
                (old(self).pending_refreshes - 1) as usize
            },
            final(self).filtered_ok(),
            final(self).selected == clamp_selection(
                old(self).selected,
                final(self).filtered_indices@.len(),
            ),
            Self::same_but_view(
                AppState {
                    repos: final(self).repos,
                    pending_refreshes: final(self).pending_refreshes,
                    ..*old(self)
                },
                *final(self),
            ),
    {
        let notify = match find_path(&self.repos, path) {
            Some(k) => {
                proof {
                    let c = choose|c: int| first_with_path(self.repos@, path@, c);
                    lemma_first_with_path_unique(self.repos@, path@, k as int, c);
                }
                if self.repos[k].goes_behind(&result) {
                    Some(self.repos[k].display_name.clone())
                } else {
                    None
                }
            },
            None => None,
        };
        self.update_repo(path, result, now);
        notify
    }

    /// The details of the repository at `path` came in: the detail pane
    /// opens with them when loading worked and that repository is still the
    /// selected one.
    pub fn on_detail_loaded(&mut self, path: &String, details: Result<RepoDetails, String>)
        ensures
            match (details, old(self).spec_selected_index()) {
                (Ok(d), Some(k)) => if old(self).repos@[k].path@ == path@ {
                    final(self).detail_pane matches Some(pane) && pane.display_name@
                        == old(self).repos@[k].display_name@ && pane.commits == d.recent_commits
                        && pane.changed_files == d.changed_files && pane.remote_urls == d.remote_urls
                        && pane.branches == d.branches && pane.scroll == 0
                } else {
                    final(self).detail_pane == old(self).detail_pane
                },
                _ => final(self).detail_pane == old(self).detail_pane,
            },
            Self::same_but_pane(*old(self), *final(self)),
    {
        if let Ok(d) = details {
            let same = match self.selected_repo() {
                Some(repo) => repo.path == *path,
                None => false,
            };
            if same {
                self.open_detail_pane(d);
            }
        }
    }
}


// --- Counting the view ---

/// The positions among the first `n` of `repos` whose repository satisfies
/// `p`.
pub open spec fn positions_where(repos: Seq<RepoInfo>, p: spec_fn(RepoInfo) -> bool, n: nat) -> Set<int>
    decreases n,
{
    if n == 0 {
        Set::empty()
    } else {
        let rest = positions_where(repos, p, (n - 1) as nat);
        if p(repos[n - 1]) {
            rest.insert(n - 1)
        } else {
            rest
        }
    }
}

proof fn lemma_positions_where(repos: Seq<RepoInfo>, p: spec_fn(RepoInfo) -> bool, n: nat)
    requires
        n <= repos.len(),
    ensures
        positions_where(repos, p, n).finite(),
        positions_where(repos, p, n).len() == count_where(repos.take(n as int), p),
        forall|x: int| #[trigger] positions_where(repos, p, n).contains(x) <==> (0 <= x < n && p(repos[x])),
    decreases n,
{
    if n == 0 {
        assert(repos.take(0) =~= Seq::<RepoInfo>::empty());
    } else {
        lemma_positions_where(repos, p, (n - 1) as nat);
        assert(repos.take(n as int).drop_last() =~= repos.take(n - 1));
        assert(repos.take(n as int).last() == repos[n - 1]);
        let rest = positions_where(repos, p, (n - 1) as nat);
        assert(!rest.contains(n - 1));
        let now = positions_where(repos, p, n);
        assert forall|x: int| #[trigger] now.contains(x) <==> (0 <= x < n && p(repos[x])) by {
            if x == n - 1 {
            } else {
                assert(now.contains(x) == rest.contains(x));
            }
        }
    }
}

/// Counting every repository counts them all.
proof fn lemma_count_all(repos: Seq<RepoInfo>, p: spec_fn(RepoInfo) -> bool)
    requires
        forall|x: RepoInfo| #[trigger] p(x),
    ensures
        count_where(repos, p) == repos.len(),
    decreases repos.len(),
{
    if repos.len() > 0 {
        lemma_count_all(repos.drop_last(), p);
        assert(p(repos.last()));
    }
}

/// The filtered list has as many entries as there are repositories shown.
proof fn lemma_view_len(s: AppState, p: spec_fn(RepoInfo) -> bool)
    requires
        s.filtered_ok(),
        s.repos@.len() <= usize::MAX,
        forall|i: int| 0 <= i < s.repos@.len() ==> (s.shows(i) <==> #[trigger] p(s.repos@[i])),
    ensures
        s.filtered_indices@.len() == count_where(s.repos@, p),
{
    let f = s.filtered_indices@;
    let g = f.map_values(|x: usize| x as int);
    let n = s.repos@.len();
    assert forall|a: int, b: int| 0 <= a < g.len() && 0 <= b < g.len() && a != b implies g[a] != g[b] by {
        assert(f[a] != f[b]);
    }
    assert(g.no_duplicates());
    g.unique_seq_to_set();
    lemma_positions_where(s.repos@, p, n);
    assert(s.repos@.take(n as int) =~= s.repos@);
    let pos = positions_where(s.repos@, p, n);
    assert forall|x: int| #[trigger] g.to_set().contains(x) <==> pos.contains(x) by {
        if g.to_set().contains(x) {
            assert(g.contains(x));
            let k = choose|k: int| 0 <= k < g.len() && g[k] == x;
            assert(f[k] < n && s.shows(f[k] as int));
        }
        if pos.contains(x) {
            assert(0 <= x < n && p(s.repos@[x]));
            assert(s.shows(x));
            assert(f.contains(x as usize));
            let k = choose|k: int| 0 <= k < f.len() && f[k] == x as usize;
            assert(g[k] == x);
        }
    }
    assert(g.to_set() =~= pos);
}

/// With an empty search the view shows as many repositories as pass the
/// status filter: all of them, or as many as the clean, dirty, error or
/// stale counts give, or as many as are behind or ahead.
pub proof fn law_empty_search_counts(s: AppState)
    requires
        s.filtered_ok(),
        s.repos@.len() <= usize::MAX,
        s.search_query@.len() == 0,
    ensures
        s.filtered_indices@.len() == count_where(
            s.repos@,
            |x: RepoInfo| passes_status(s.status_filter, x, s.stale_days),
        ),
        s.status_filter == StatusFilter::All ==> s.filtered_indices@.len() == s.repos@.len(),
        s.status_filter == StatusFilter::Clean ==> s.filtered_indices@.len() == count_where(
            s.repos@,
            |x: RepoInfo| is_clean_ok(x),
        ),
        s.status_filter == StatusFilter::Dirty ==> s.filtered_indices@.len() == count_where(
            s.repos@,
            |x: RepoInfo| is_dirty(x),
        ),
        s.status_filter == StatusFilter::Errors ==> s.filtered_indices@.len() == count_where(
            s.repos@,
            |x: RepoInfo| has_error(x),
        ),
        s.status_filter == StatusFilter::Stale ==> s.filtered_indices@.len() == count_where(
            s.repos@,
            |x: RepoInfo| spec_is_stale(s.stale_days, x.last_commit_secs),
        ),
        s.status_filter == StatusFilter::Behind ==> s.filtered_indices@.len() == count_where(
            s.repos@,
            |x: RepoInfo| x.behind > 0,
        ),
        s.status_filter == StatusFilter::Ahead ==> s.filtered_indices@.len() == count_where(
            s.repos@,
            |x: RepoInfo| x.ahead > 0,
        ),
{
    let p = |x: RepoInfo| passes_status(s.status_filter, x, s.stale_days);
    lemma_view_len(s, p);
    match s.status_filter {
        StatusFilter::All => {
            lemma_count_all(s.repos@, p);
        },
        StatusFilter::Clean => {
            assert(p =~= |x: RepoInfo| is_clean_ok(x));
        },
        StatusFilter::Dirty => {
            assert(p =~= |x: RepoInfo| is_dirty(x));
        },
        StatusFilter::Errors => {
            assert(p =~= |x: RepoInfo| has_error(x));
        },
        StatusFilter::Stale => {
            assert(p =~= |x: RepoInfo| spec_is_stale(s.stale_days, x.last_commit_secs));
        },
        StatusFilter::Behind => {
            assert(p =~= |x: RepoInfo| x.behind > 0);
        },
        StatusFilter::Ahead => {
            assert(p =~= |x: RepoInfo| x.ahead > 0);
        },
    }
}

/// Changing the sort order only reorders the view: the same repositories
/// are shown, each once, and a selection that was on a row stays there.
pub proof fn law_sort_reorders_only(old: AppState, new: AppState)
    requires
        old.filtered_ok(),
        new.filtered_ok(),
        old.repos@.len() <= usize::MAX,
        new.sort_order == old.sort_order.spec_next(),
        AppState::same_but_view(AppState { sort_order: new.sort_order, ..old }, new),
        new.selected == clamp_selection(old.selected, new.filtered_indices@.len()),
        old.selected == clamp_selection(old.selected, old.filtered_indices@.len()),
    ensures
        new.filtered_indices@.len() == old.filtered_indices@.len(),
        forall|x: usize| new.filtered_indices@.contains(x) <==> old.filtered_indices@.contains(x),
        new.filtered_indices@.to_multiset() == old.filtered_indices@.to_multiset(),
        new.selected == old.selected,
        new.repos == old.repos,
        new.search_query == old.search_query,
        new.status_filter == old.status_filter,
{
    let p = |x: RepoInfo| passes_search(x, old.search_query@) && passes_status(old.status_filter, x, old.stale_days);
    assert forall|i: int| 0 <= i < old.repos@.len() implies (old.shows(i) <==> #[trigger] p(old.repos@[i])) by {}
    assert forall|i: int| 0 <= i < new.repos@.len() implies (new.shows(i) <==> #[trigger] p(new.repos@[i])) by {}
    lemma_view_len(old, p);
    lemma_view_len(new, p);
    let f = old.filtered_indices@;
    let g = new.filtered_indices@;
    assert forall|x: usize| g.contains(x) <==> f.contains(x) by {
        if g.contains(x) {
            let k = choose|k: int| 0 <= k < g.len() && g[k] == x;
            assert(g[k] < new.repos@.len() && new.shows(g[k] as int));
            assert(old.shows(x as int));
        }
        if f.contains(x) {
            let k = choose|k: int| 0 <= k < f.len() && f[k] == x;
            assert(f[k] < old.repos@.len() && old.shows(f[k] as int));
            assert(new.shows(x as int));
        }
    }
    lemma_same_members_multiset(f, g);
}

/// Two sequences without duplicates that hold the same elements hold them
/// the same number of times.
proof fn lemma_same_members_multiset(f: Seq<usize>, g: Seq<usize>)
    requires
        f.no_duplicates(),
        g.no_duplicates(),
        forall|x: usize| g.contains(x) <==> f.contains(x),
    ensures
        f.to_multiset() == g.to_multiset(),
{
    broadcast use vstd::seq_lib::group_to_multiset_ensures;

    assert forall|x: usize| f.to_multiset().count(x) == g.to_multiset().count(x) by {
        lemma_count_unique(f, x);
        lemma_count_unique(g, x);
    }
    assert(f.to_multiset() =~= g.to_multiset());
}

/// In a sequence without duplicates an element occurs once or not at all.
proof fn lemma_count_unique(f: Seq<usize>, x: usize)
    requires
        f.no_duplicates(),
    ensures
        f.to_multiset().count(x) == if f.contains(x) {
            1nat
        } else {
            0nat
        },
    decreases f.len(),
{
    broadcast use vstd::seq_lib::group_to_multiset_ensures;

    if f.len() > 0 {
        let rest = f.drop_last();
        assert(rest.no_duplicates()) by {
            assert forall|a: int, b: int| 0 <= a < rest.len() && 0 <= b < rest.len() && a != b implies rest[a]
                != rest[b] by {
                assert(f[a] != f[b]);
            }
        }
        lemma_count_unique(rest, x);
        assert(f =~= rest.push(f.last()));
        if x == f.last() {
            assert(!rest.contains(x)) by {
                if rest.contains(x) {
                    let k = choose|k: int| 0 <= k < rest.len() && rest[k] == x;
                    assert(f[k] == f[f.len() - 1]);
                }
            }
        } else {
            assert(f.contains(x) == rest.contains(x)) by {
                if f.contains(x) {
                    let k = choose|k: int| 0 <= k < f.len() && f[k] == x;
                    assert(rest[k] == x);
                }
            }
        }
    }
}

/// The shown repositories come in the chosen order: by name, A before B
/// for names in ascending order; by status, errors first, then conflicts,
/// then dirty, then clean, and by name within one status; by last commit,
/// ascending commit time, then by name; by commits behind, most first,
/// then by name. A name never comes after a name that sorts below it
/// unless the primary key puts it there.
pub proof fn law_shown_order(s: AppState)
    requires
        s.filtered_ok(),
    ensures
        forall|a: int, b: int|
            #![trigger s.filtered_indices@[a], s.filtered_indices@[b]]
            0 <= a < b < s.filtered_indices@.len() ==> {
                let x = s.repos@[s.filtered_indices@[a] as int];
                let y = s.repos@[s.filtered_indices@[b] as int];
                let names_up = !lex_lt(y.display_name@, x.display_name@);
                match s.sort_order {
                    SortOrder::Name => names_up,
                    SortOrder::Status => status_rank(x) < status_rank(y) || (status_rank(x)
                        == status_rank(y) && names_up),
                    SortOrder::LastCommit => x.last_commit_secs < y.last_commit_secs || (
                    x.last_commit_secs == y.last_commit_secs && names_up),
                    SortOrder::Behind => x.behind > y.behind || (x.behind == y.behind && names_up),
                }
            },
{
    let f = s.filtered_indices@;
    assert forall|a: int, b: int|
        #![trigger f[a], f[b]]
        0 <= a < b < f.len() implies {
            let x = s.repos@[f[a] as int];
            let y = s.repos@[f[b] as int];
            let names_up = !lex_lt(y.display_name@, x.display_name@);
            match s.sort_order {
                SortOrder::Name => names_up,
                SortOrder::Status => status_rank(x) < status_rank(y) || (status_rank(x)
                    == status_rank(y) && names_up),
                SortOrder::LastCommit => x.last_commit_secs < y.last_commit_secs || (
                x.last_commit_secs == y.last_commit_secs && names_up),
                SortOrder::Behind => x.behind > y.behind || (x.behind == y.behind && names_up),
            }
        } by {
        let x = s.repos@[f[a] as int];
        let y = s.repos@[f[b] as int];
        assert(sorted_before(s.sort_order, s.repos@, f[a] as int, f[b] as int));
        lemma_lex_total(x.display_name@, y.display_name@);
        lemma_lex_irreflexive(x.display_name@);
    }
}

/// Taking in a summary read from git replaces every summary field with the
/// summary's own (branch, status, ahead and behind counts, last commit age
/// and time, branch count), records the time of the read, clears the error
/// and the fetching mark, and keeps the path, the name and the pull state.
/// Of two summaries taken in one after the other, only the later one counts.
pub proof fn law_info_taken_in(r: RepoInfo, info: GitInfo, later: GitInfo, now: u64, then: u64)
    ensures
        r.with_info(info, now).branch == info.branch,
        r.with_info(info, now).status == info.status,
        r.with_info(info, now).ahead == info.ahead,
        r.with_info(info, now).behind == info.behind,
        r.with_info(info, now).last_commit_age == info.last_commit_age,
        r.with_info(info, now).last_commit_secs == info.last_commit_secs,
        r.with_info(info, now).branch_count == info.branch_count,
        r.with_info(info, now).last_updated == Some(now),
        r.with_info(info, now).error is None,
        !r.with_info(info, now).fetching,
        r.with_info(info, now).path == r.path,
        r.with_info(info, now).display_name == r.display_name,
        r.with_info(info, now).pulling == r.pulling,
        r.with_info(info, now).pull_result == r.pull_result,
        r.with_info(info, now).with_info(later, then) == r.with_info(later, then),
{
}

} // verus!

//! What the library knows of a repository: its status, summary and details,
//! and the decisions that turn raw repository facts into them.

use vstd::prelude::*;
use crate::text::{chars_of, decimal, decimal_chars, first_line, first_line_of, push_all, string_of};

verus! {

/// Working-tree status of a repository.
#[derive(Debug, Clone, Copy, PartialEq, Eq, Structural)]
pub enum RepoStatus {
    Clean,
    Dirty,
    Conflicts,
}

/// Summary of a repository: branch, status, ahead/behind counts and the age
/// of the last commit.
#[derive(Debug, Clone)]
pub struct GitInfo {
    pub branch: String,
    pub status: RepoStatus,
    pub ahead: usize,
    pub behind: usize,
    pub last_commit_age: String,
    pub last_commit_secs: u64,
    pub branch_count: usize,
}

/// One commit of the recent history.
#[derive(Debug, Clone)]
pub struct CommitEntry {
    pub message: String,
    pub author: String,
    pub date: String,
}

/// One local branch.
#[derive(Debug, Clone)]
pub struct BranchEntry {
    pub name: String,
    pub is_head: bool,
    pub upstream_gone: bool,
    pub is_merged: bool,
}

/// Detailed view of a repository.
#[derive(Debug, Clone)]
pub struct RepoDetails {
    pub recent_commits: Vec<CommitEntry>,
    pub changed_files: Vec<String>,
    pub remote_urls: Vec<(String, String)>,
    pub branches: Vec<BranchEntry>,
}

// --- Ages ---

/// `format_duration`: an age in seconds as the dashboard shows it, in the
/// largest unit that fits: seconds, minutes, hours, days, weeks (under 30
/// days) or months of 30 days.
pub open spec fn spec_format_duration(secs: nat) -> Seq<char> {
    if secs <= 59 {
        decimal(secs) + "s ago"@
    } else if secs <= 3599 {
        decimal(secs / 60) + "m ago"@
    } else if secs <= 86399 {
        decimal(secs / 3600) + "h ago"@
    } else if secs <= 604799 {
        decimal(secs / 86400) + "d ago"@
    } else if secs <= 2591999 {
        decimal(secs / 604800) + "w ago"@
    } else {
        decimal(secs / 2592000) + "mo ago"@
    }
}

/// An age of `secs` seconds, as "12s ago", "5m ago", "3h ago", "2d ago",
/// "1w ago" or "4mo ago".
pub fn format_duration(secs: u64) -> (r: String)
    ensures
        r@ == spec_format_duration(secs as nat),
{
    let (n, unit) = if secs <= 59 {
        (secs, "s ago")
    } else if secs <= 3599 {
        (secs / 60, "m ago")
    } else if secs <= 86399 {
        (secs / 3600, "h ago")
    } else if secs <= 604799 {
        (secs / 86400, "d ago")
    } else if secs <= 2591999 {
        (secs / 604800, "w ago")
    } else {
        (secs / 2592000, "mo ago")
    };
    let mut out = decimal_chars(n);
    let tail = chars_of(unit);
    push_all(&mut out, tail.as_slice());
    string_of(out.as_slice())
}

/// The first second chrono represents: -262143-01-01 00:00:00 UTC.
pub const FIRST_DATETIME_SECS: i64 = -8334601228800;

/// The last second chrono represents: +262142-12-31 23:59:59 UTC.
pub const LAST_DATETIME_SECS: i64 = 8210266876799;

/// Whether a commit time of `secs` seconds since the Unix epoch is within the
/// range of dates chrono represents, from `NaiveDate::MIN` to `NaiveDate::MAX`.
pub open spec fn spec_timestamp_in_range(secs: i64) -> bool {
    FIRST_DATETIME_SECS <= secs <= LAST_DATETIME_SECS
}

/// Trusted: calls `chrono::DateTime::from_timestamp(secs, 0)` and reports
/// whether it gave a time. With no nanoseconds, chrono gives one exactly when
/// the day falls between its first and last date (-262143-01-01 and
/// +262142-12-31), which are the bounds above in seconds.
#[verifier::external_body]
fn timestamp_in_range(secs: i64) -> (r: bool)
    ensures
        r == spec_timestamp_in_range(secs),
{
    chrono::DateTime::from_timestamp(secs, 0).is_some()
}

/// The age in seconds of a commit made at `commit_secs`, seen at `now_secs`
/// (both seconds since the Unix epoch); 0 for a commit in the future.
pub open spec fn spec_age_secs(commit_secs: i64, now_secs: i64) -> int {
    if now_secs >= commit_secs {
        now_secs - commit_secs
    } else {
        0
    }
}

/// The age of the last commit, as text and in seconds: `("n/a", 0)` when
/// there is no commit or its time is out of range.
pub open spec fn spec_last_commit_age(commit_secs: Option<i64>, now_secs: i64) -> (Seq<char>, int) {
    match commit_secs {
        Some(c) => if spec_timestamp_in_range(c) {
            (spec_format_duration(spec_age_secs(c, now_secs) as nat), spec_age_secs(c, now_secs))
        } else {
            ("n/a"@, 0)
        },
        None => ("n/a"@, 0),
    }
}

/// The age of the last commit made at `commit_secs` (`None` when the
/// repository has none) at time `now_secs`.
pub fn last_commit_age(commit_secs: Option<i64>, now_secs: i64) -> (r: (String, u64))
    ensures
        (r.0@, r.1 as int) == spec_last_commit_age(commit_secs, now_secs),
{
    match commit_secs {
        Some(c) => {
            if timestamp_in_range(c) {
                let age: u64 = if now_secs >= c {
                    (now_secs as i128 - c as i128) as u64
                } else {
                    0
                };
                (format_duration(age), age)
            } else {
                ("n/a".to_string(), 0)
            }
        },
        None => ("n/a".to_string(), 0),
    }
}

// --- Branch and status ---

/// What HEAD of a repository is.
pub enum HeadState {
    /// HEAD cannot be read.
    Missing,
    /// HEAD is a branch, with its short name when it has one.
    Branch(Option<String>),
    /// HEAD is detached, at a commit given by its hexadecimal id when it has one.
    Detached(Option<String>),
}

/// The branch label the dashboard shows for HEAD.
pub open spec fn spec_branch_label(head: HeadState) -> Seq<char> {
    match head {
        HeadState::Missing => "no HEAD"@,
        HeadState::Branch(Some(name)) => name@,
        HeadState::Branch(None) => "unknown"@,
        HeadState::Detached(Some(oid)) => oid@.take(if oid@.len() < 7 { oid@.len() as int } else { 7 }),
        HeadState::Detached(None) => "detached"@,
    }
}

/// The branch label: the branch name, the first seven characters of a
/// detached commit id, or `"unknown"`, `"detached"`, `"no HEAD"`.
pub fn branch_label(head: HeadState) -> (r: String)
    ensures
        r@ == spec_branch_label(head),
{
    match head {
        HeadState::Missing => "no HEAD".to_string(),
        HeadState::Branch(Some(name)) => name,
        HeadState::Branch(None) => "unknown".to_string(),
        HeadState::Detached(Some(oid)) => {
            let cs = chars_of(oid.as_str());
            let n: usize = if cs.len() < 7 {
                cs.len()
            } else {
                7
            };
            let mut out: Vec<char> = Vec::new();
            let mut i: usize = 0;
            while i < n
                invariant
                    i <= n,
                    n <= cs.len(),
                    out@ == cs@.take(i as int),
                decreases n - i,
            {
                out.push(cs[i]);
                assert(cs@.take(i + 1) =~= cs@.take(i as int).push(cs@[i as int]));
                i = i + 1;
            }
            string_of(out.as_slice())
        },
        HeadState::Detached(None) => "detached".to_string(),
    }
}

/// The status flags of one changed path, as git reports them.
#[derive(Debug, Clone, Copy, PartialEq, Eq, Structural)]
pub struct StatusFlags {
    pub conflicted: bool,
    pub ignored: bool,
    pub index_new: bool,
    pub wt_new: bool,
    pub index_modified: bool,
    pub wt_modified: bool,
    pub index_deleted: bool,
    pub wt_deleted: bool,
    pub index_renamed: bool,
    pub wt_renamed: bool,
}

/// One entry of the working-tree status: its path (when it is valid UTF-8)
/// and its flags.
pub struct StatusEntry {
    pub path: Option<String>,
    pub flags: StatusFlags,
}

/// The repository status of a list of status entries: conflicts when any
/// entry is conflicted, otherwise dirty when any entry is not ignored,
/// otherwise clean.
pub open spec fn spec_status_of(entries: Seq<StatusEntry>) -> RepoStatus {
    if exists|i: int| 0 <= i < entries.len() && (#[trigger] entries[i]).flags.conflicted {
        RepoStatus::Conflicts
    } else if exists|i: int| 0 <= i < entries.len() && !(#[trigger] entries[i]).flags.ignored {
        RepoStatus::Dirty
    } else {
        RepoStatus::Clean
    }
}

pub fn status_of(entries: &Vec<StatusEntry>) -> (r: RepoStatus)
    ensures
        r == spec_status_of(entries@),
{
    let mut has_changes = false;
    let mut i: usize = 0;
    while i < entries.len()
        invariant
            i <= entries.len(),
            forall|k: int| 0 <= k < i ==> !(#[trigger] entries@[k]).flags.conflicted,
            has_changes == exists|k: int| 0 <= k < i && !(#[trigger] entries@[k]).flags.ignored,
        decreases entries.len() - i,
    {
        if entries[i].flags.conflicted {
            return RepoStatus::Conflicts;
        }
        if !entries[i].flags.ignored {
            has_changes = true;
        }
        i = i + 1;
    }
    if has_changes {
        RepoStatus::Dirty
    } else {
        RepoStatus::Clean
    }
}

/// The letter a changed path is listed with: added, modified, deleted,
/// renamed, or `?`.
pub open spec fn change_letter(f: StatusFlags) -> char {
    if f.index_new || f.wt_new {
        'A'
    } else if f.index_modified || f.wt_modified {
        'M'
    } else if f.index_deleted || f.wt_deleted {
        'D'
    } else if f.index_renamed || f.wt_renamed {
        'R'
    } else {
        '?'
    }
}

/// The changed-file lines of `entries`: `"<letter> <path>"` for each entry
/// with a path, in order.
pub open spec fn spec_changed_files(entries: Seq<StatusEntry>) -> Seq<Seq<char>>
    decreases entries.len(),
{
    if entries.len() == 0 {
        seq![]
    } else {
        let rest = spec_changed_files(entries.drop_last());
        match entries.last().path {
            Some(p) => rest.push(seq![change_letter(entries.last().flags), ' '] + p@),
            None => rest,
        }
    }
}

/// The view of a list of strings.
pub open spec fn strings_view(v: Seq<String>) -> Seq<Seq<char>> {
    v.map_values(|s: String| s@)
}

pub fn changed_files(entries: &Vec<StatusEntry>) -> (r: Vec<String>)
    ensures
        strings_view(r@) == spec_changed_files(entries@),
{
    let mut out: Vec<String> = Vec::new();
    let mut i: usize = 0;
    while i < entries.len()
        invariant
            i <= entries.len(),
            strings_view(out@) == spec_changed_files(entries@.take(i as int)),
        decreases entries.len() - i,
    {
        let e = &entries[i];
        assert(entries@.take(i + 1).drop_last() =~= entries@.take(i as int));
        assert(entries@.take(i + 1).last() == entries@[i as int]);
        match &e.path {
            Some(p) => {
                let f = e.flags;
                let letter = if f.index_new || f.wt_new {
                    'A'
                } else if f.index_modified || f.wt_modified {
                    'M'
                } else if f.index_deleted || f.wt_deleted {
                    'D'
                } else if f.index_renamed || f.wt_renamed {
                    'R'
                } else {
                    '?'
                };
                assert(letter == change_letter(e.flags));
                let mut line: Vec<char> = Vec::new();
                line.push(letter);
                line.push(' ');
                let pc = chars_of(p.as_str());
                push_all(&mut line, pc.as_slice());
                let ghost before = out@;
                out.push(string_of(line.as_slice()));
                assert(line@ =~= seq![change_letter(e.flags), ' '] + p@);
                assert(strings_view(out@) =~= strings_view(before).push(line@));
            },
            None => {},
        }
        i = i + 1;
    }
    assert(entries@.take(i as int) =~= entries@);
    out
}

// --- Commits and branches ---

/// What `DateTime::from_timestamp(secs, 0)` formatted as `%Y-%m-%d %H:%M` gives.
pub uninterp spec fn spec_commit_date(secs: i64) -> Seq<char>;

/// Trusted: formats the commit time with chrono (`%Y-%m-%d %H:%M`, UTC);
/// the text depends on `secs` alone and is named.
#[verifier::external_body]
fn format_commit_date(secs: i64) -> (r: String)
    requires
        spec_timestamp_in_range(secs),
    ensures
        r@ == spec_commit_date(secs),
{
    match chrono::DateTime::from_timestamp(secs, 0) {
        Some(dt) => dt.format("%Y-%m-%d %H:%M").to_string(),
        None => String::new(),
    }
}

/// A commit of the history as the detail pane lists it: the first line of
/// its message, its author (`"unknown"` when not valid text) and its date
/// (`"unknown"` when out of range).
pub fn commit_entry(message: Option<String>, author: Option<String>, secs: i64) -> (r: CommitEntry)
    ensures
        r.message@ == match message {
            Some(m) => first_line(m@),
            None => Seq::<char>::empty(),
        },
        r.author@ == match author {
            Some(a) => a@,
            None => "unknown"@,
        },
        r.date@ == if spec_timestamp_in_range(secs) {
            spec_commit_date(secs)
        } else {
            "unknown"@
        },
{
    let message = match message {
        Some(m) => first_line_of(m.as_str()),
        None => String::new(),
    };
    let author = match author {
        Some(a) => a,
        None => "unknown".to_string(),
    };
    let date = if timestamp_in_range(secs) {
        format_commit_date(secs)
    } else {
        "unknown".to_string()
    };
    CommitEntry { message, author, date }
}

/// A local branch as the detail pane lists it. `upstream_missing` tells that
/// looking up its upstream failed with "not found"; `head_descends` whether
/// HEAD descends from the branch tip, when both are known and the graph
/// could be walked.
pub fn branch_entry(
    name: Option<String>,
    is_head: bool,
    upstream_missing: bool,
    head_descends: Option<bool>,
) -> (r: BranchEntry)
    ensures
        r.name@ == match name {
            Some(n) => n@,
            None => "unknown"@,
        },
        r.is_head == is_head,
        r.upstream_gone == upstream_missing,
        r.is_merged == (!is_head && head_descends == Some(true)),
{
    let name = match name {
        Some(n) => n,
        None => "unknown".to_string(),
    };
    let is_merged = if is_head {
        false
    } else {
        match head_descends {
            Some(d) => d,
            None => false,
        }
    };
    BranchEntry { name, is_head, upstream_gone: upstream_missing, is_merged }
}

// --- Fetch and pull ---

/// How to authenticate when a remote asks for credentials.
#[derive(Debug, Clone, Copy, PartialEq, Eq, Structural)]
pub enum CredentialMethod {
    /// An SSH key from the agent.
    SshAgent,
    /// The default credential.
    Default,
    /// No suitable method.
    Refuse,
}

/// An SSH key from the agent when the remote allows one, else the default
/// credential when allowed, else none.
pub fn credential_method(ssh_key_allowed: bool, default_allowed: bool) -> (r: CredentialMethod)
    ensures
        r == if ssh_key_allowed {
            CredentialMethod::SshAgent
        } else if default_allowed {
            CredentialMethod::Default
        } else {
            CredentialMethod::Refuse
        },
{
    if ssh_key_allowed {
        CredentialMethod::SshAgent
    } else if default_allowed {
        CredentialMethod::Default
    } else {
        CredentialMethod::Refuse
    }
}

/// The user name offered with an SSH key: the one the remote gave, or `git`.
pub fn ssh_user(username: Option<String>) -> (r: String)
    ensures
        r@ == match username {
            Some(u) => u@,
            None => "git"@,
        },
{
    match username {
        Some(u) => u,
        None => "git".to_string(),
    }
}

/// What a fast-forward pull does after the merge analysis.
#[derive(Debug, Clone, Copy, PartialEq, Eq, Structural)]
pub enum PullStep {
    /// Nothing to pull.
    UpToDate,
    /// The histories have diverged; nothing is changed.
    Diverged,
    /// Move the branch to its upstream.
    FastForward,
}

pub fn pull_step(up_to_date: bool, fast_forward: bool) -> (r: PullStep)
    ensures
        r == if up_to_date {
            PullStep::UpToDate
        } else if !fast_forward {
            PullStep::Diverged
        } else {
            PullStep::FastForward
        },
{
    if up_to_date {
        PullStep::UpToDate
    } else if !fast_forward {
        PullStep::Diverged
    } else {
        PullStep::FastForward
    }
}

/// The reference of a local branch: `refs/heads/<branch>`.
pub fn branch_ref(branch: &str) -> (r: String)
    ensures
        r@ == "refs/heads/"@ + branch@,
{
    let mut r = "refs/heads/".to_string();
    r.append(branch);
    r
}

/// The message of a completed fast-forward: `Fast-forwarded <branch>`.
pub fn fast_forward_message(branch: &str) -> (r: String)
    ensures
        r@ == "Fast-forwarded "@ + branch@,
{
    let mut r = "Fast-forwarded ".to_string();
    r.append(branch);
    r
}

/// The flags of a change with its staged and unstaged halves swapped.
pub open spec fn staged_swapped(f: StatusFlags) -> StatusFlags {
    StatusFlags {
        index_new: f.wt_new,
        wt_new: f.index_new,
        index_modified: f.wt_modified,
        wt_modified: f.index_modified,
        index_deleted: f.wt_deleted,
        wt_deleted: f.index_deleted,
        index_renamed: f.wt_renamed,
        wt_renamed: f.index_renamed,
        ..f
    }
}

/// A change gets the same letter whether it is staged or only in the
/// working tree. An added file is `A`; otherwise a modified one `M`;
/// otherwise a deleted one `D`; otherwise a renamed one `R`; anything else
/// `?`.
pub proof fn law_change_letters(f: StatusFlags)
    ensures
        change_letter(f) == change_letter(staged_swapped(f)),
        f.index_new || f.wt_new ==> change_letter(f) == 'A',
        !(f.index_new || f.wt_new) && (f.index_modified || f.wt_modified) ==> change_letter(f) == 'M',
        !(f.index_new || f.wt_new || f.index_modified || f.wt_modified) && (f.index_deleted
            || f.wt_deleted) ==> change_letter(f) == 'D',
        !(f.index_new || f.wt_new || f.index_modified || f.wt_modified || f.index_deleted
            || f.wt_deleted) && (f.index_renamed || f.wt_renamed) ==> change_letter(f) == 'R',
        !(f.index_new || f.wt_new || f.index_modified || f.wt_modified || f.index_deleted
            || f.wt_deleted || f.index_renamed || f.wt_renamed) ==> change_letter(f) == '?',
{
}

/// The changed-file list of two runs of entries is the list of the first
/// followed by that of the second, and one entry with a path gives one
/// line: its letter, a space and the path; one without a path gives none.
pub proof fn law_changed_files_lines(a: Seq<StatusEntry>, b: Seq<StatusEntry>, e: StatusEntry)
    ensures
        spec_changed_files(a + b) == spec_changed_files(a) + spec_changed_files(b),
        spec_changed_files(seq![e]) == match e.path {
            Some(p) => seq![seq![change_letter(e.flags), ' '] + p@],
            None => Seq::<Seq<char>>::empty(),
        },
    decreases b.len(),
{
    if b.len() == 0 {
        assert(a + b =~= a);
        assert(spec_changed_files(a) + spec_changed_files(b) =~= spec_changed_files(a));
    } else {
        law_changed_files_lines(a, b.drop_last(), e);
        assert((a + b).drop_last() =~= a + b.drop_last());
        assert((a + b).last() == b.last());
        let rest_a = spec_changed_files(a);
        let rest_b = spec_changed_files(b.drop_last());
        match b.last().path {
            Some(p) => {
                assert((rest_a + rest_b).push(seq![change_letter(b.last().flags), ' '] + p@)
                    =~= rest_a + rest_b.push(seq![change_letter(b.last().flags), ' '] + p@));
            },
            None => {},
        }
    }
    let one = seq![e];
    assert(one.drop_last() =~= Seq::<StatusEntry>::empty());
    assert(one.last() == e);
    assert(spec_changed_files(one.drop_last()) == Seq::<Seq<char>>::empty());
    match e.path {
        Some(p) => {
            let line = seq![change_letter(e.flags), ' '] + p@;
            assert(Seq::<Seq<char>>::empty().push(line) =~= seq![line]);
        },
        None => {},
    }
}

/// A repository is in conflict as soon as one entry is conflicted, whatever
/// else it holds; it is clean only when every entry is ignored (or there
/// is none); otherwise it is dirty. Adding an ignored, unconflicted entry
/// changes nothing, and adding any other entry makes it no longer clean.
pub proof fn law_status_of_entries(entries: Seq<StatusEntry>, e: StatusEntry)
    ensures
        (exists|i: int| 0 <= i < entries.len() && (#[trigger] entries[i]).flags.conflicted)
            <==> spec_status_of(entries) == RepoStatus::Conflicts,
        (forall|i: int| 0 <= i < entries.len() ==> (#[trigger] entries[i]).flags.ignored
            && !entries[i].flags.conflicted) <==> spec_status_of(entries) == RepoStatus::Clean,
        e.flags.ignored && !e.flags.conflicted ==> spec_status_of(entries.push(e)) == spec_status_of(
            entries,
        ),
        !e.flags.ignored || e.flags.conflicted ==> spec_status_of(entries.push(e)) != RepoStatus::Clean,
{
    let p = entries.push(e);
    assert(p[entries.len() as int] == e);
    assert forall|i: int| 0 <= i < entries.len() implies #[trigger] p[i] == entries[i] by {}
    if e.flags.ignored && !e.flags.conflicted {
        assert((exists|i: int| 0 <= i < p.len() && (#[trigger] p[i]).flags.conflicted) <==> (exists|
            i: int,
        | 0 <= i < entries.len() && (#[trigger] entries[i]).flags.conflicted)) by {
            if exists|i: int| 0 <= i < p.len() && (#[trigger] p[i]).flags.conflicted {
                let i = choose|i: int| 0 <= i < p.len() && (#[trigger] p[i]).flags.conflicted;
                assert(entries[i].flags.conflicted);
            }
            if exists|i: int| 0 <= i < entries.len() && (#[trigger] entries[i]).flags.conflicted {
                let i = choose|i: int| 0 <= i < entries.len() && (#[trigger] entries[i]).flags.conflicted;
                assert(p[i].flags.conflicted);
            }
        }
        assert((exists|i: int| 0 <= i < p.len() && !(#[trigger] p[i]).flags.ignored) <==> (exists|
            i: int,
        | 0 <= i < entries.len() && !(#[trigger] entries[i]).flags.ignored)) by {
            if exists|i: int| 0 <= i < p.len() && !(#[trigger] p[i]).flags.ignored {
                let i = choose|i: int| 0 <= i < p.len() && !(#[trigger] p[i]).flags.ignored;
                assert(!entries[i].flags.ignored);
            }
            if exists|i: int| 0 <= i < entries.len() && !(#[trigger] entries[i]).flags.ignored {
                let i = choose|i: int| 0 <= i < entries.len() && !(#[trigger] entries[i]).flags.ignored;
                assert(!p[i].flags.ignored);
            }
        }
    }
}

} // verus!

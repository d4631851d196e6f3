//! What the dashboard shows, before it is drawn: which columns fit the
//! terminal, the text of the status and sync cells, the colour role of the
//! last-commit cell, the repository count, and the lines of changed files.

use vstd::prelude::*;
use crate::app::{
    AppState, RepoInfo, SortOrder, StatusFilter, count_where, has_error, is_clean_ok, is_dirty,
    spec_is_stale, stale_threshold_fits,
};
use crate::git_ops::{BranchEntry, RepoStatus};
use crate::text::{chars_of, decimal, decimal_chars, push_all, string_of};

verus! {

/// Which optional columns are shown.
#[derive(Debug, Clone, Copy, PartialEq, Eq, Structural)]
pub struct ColumnLayout {
    pub show_branch: bool,
    pub show_sync: bool,
    pub show_commit: bool,
}

/// The layout for a terminal `width` columns wide: the branch from 60
/// columns, the sync state from 80, the last commit from 100.
pub open spec fn spec_layout(width: u16) -> ColumnLayout {
    ColumnLayout { show_branch: width >= 60, show_sync: width >= 80, show_commit: width >= 100 }
}

/// The column widths, in percent of the table, for each layout.
pub open spec fn spec_widths(l: ColumnLayout) -> Seq<u16> {
    if l.show_branch && l.show_sync && l.show_commit {
        seq![35, 18, 15, 15, 17]
    } else if l.show_branch && l.show_sync && !l.show_commit {
        seq![40, 20, 18, 22]
    } else if l.show_branch && !l.show_sync && !l.show_commit {
        seq![50, 25, 25]
    } else if !l.show_branch && !l.show_sync && !l.show_commit {
        seq![60, 40]
    } else {
        seq![35, 18, 15, 15, 17]
    }
}

/// The column headers: repository, branch if shown, status, sync if shown,
/// last commit if shown.
pub open spec fn spec_headers(l: ColumnLayout) -> Seq<Seq<char>> {
    let h = seq!["  Repository"@];
    let h = if l.show_branch { h.push("Branch"@) } else { h };
    let h = h.push("Status"@);
    let h = if l.show_sync { h.push("Sync"@) } else { h };
    if l.show_commit { h.push("Last Commit"@) } else { h }
}

/// The sum of the widths.
pub open spec fn total_width(w: Seq<u16>) -> int
    decreases w.len(),
{
    if w.len() == 0 {
        0
    } else {
        total_width(w.drop_last()) + w.last()
    }
}

impl ColumnLayout {
    pub fn from_width(width: u16) -> (r: Self)
        ensures
            r == spec_layout(width),
    {
        ColumnLayout { show_branch: width >= 60, show_sync: width >= 80, show_commit: width >= 100 }
    }

    pub fn widths(&self) -> (r: Vec<u16>)
        ensures
            r@ == spec_widths(*self),
    {
        if self.show_branch && self.show_sync && self.show_commit {
            vec![35, 18, 15, 15, 17]
        } else if self.show_branch && self.show_sync && !self.show_commit {
            vec![40, 20, 18, 22]
        } else if self.show_branch && !self.show_sync && !self.show_commit {
            vec![50, 25, 25]
        } else if !self.show_branch && !self.show_sync && !self.show_commit {
            vec![60, 40]
        } else {
            vec![35, 18, 15, 15, 17]
        }
    }

    pub fn headers(&self) -> (r: Vec<&'static str>)
        ensures
            r@.map_values(|h: &'static str| h@) == spec_headers(*self),
    {
        let mut h: Vec<&'static str> = Vec::new();
        h.push("  Repository");
        if self.show_branch {
            h.push("Branch");
        }
        h.push("Status");
        if self.show_sync {
            h.push("Sync");
        }
        if self.show_commit {
            h.push("Last Commit");
        }
        assert(h@.map_values(|h: &'static str| h@) =~= spec_headers(*self));
        h
    }
}

/// For every terminal width the columns fill the table exactly, and there
/// are as many widths as headers.
pub proof fn law_columns_fill_table(width: u16)
    ensures
        total_width(spec_widths(spec_layout(width))) == 100,
        spec_widths(spec_layout(width)).len() == spec_headers(spec_layout(width)).len(),
{
    let l = spec_layout(width);
    let w = spec_widths(l);
    reveal_with_fuel(total_width, 6);
    if l.show_branch && l.show_sync && l.show_commit {
        assert(w.drop_last() =~= seq![35u16, 18, 15, 15]);
        assert(w.drop_last().drop_last() =~= seq![35u16, 18, 15]);
        assert(w.drop_last().drop_last().drop_last() =~= seq![35u16, 18]);
        assert(w.drop_last().drop_last().drop_last().drop_last() =~= seq![35u16]);
        assert(w.drop_last().drop_last().drop_last().drop_last().drop_last() =~= Seq::<u16>::empty());
    } else if l.show_branch && l.show_sync {
        assert(w.drop_last() =~= seq![40u16, 20, 18]);
        assert(w.drop_last().drop_last() =~= seq![40u16, 20]);
        assert(w.drop_last().drop_last().drop_last() =~= seq![40u16]);
        assert(w.drop_last().drop_last().drop_last().drop_last() =~= Seq::<u16>::empty());
    } else if l.show_branch {
        assert(w.drop_last() =~= seq![50u16, 25]);
        assert(w.drop_last().drop_last() =~= seq![50u16]);
        assert(w.drop_last().drop_last().drop_last() =~= Seq::<u16>::empty());
    } else {
        assert(w.drop_last() =~= seq![60u16]);
        assert(w.drop_last().drop_last() =~= Seq::<u16>::empty());
    }
}

// --- Cells ---

/// The status cell of a repository row.
#[derive(Debug, Clone, Copy, PartialEq, Eq, Structural)]
pub enum StatusCell {
    Error,
    Fetching,
    Clean,
    Dirty,
    Conflict,
}

/// An error shows first, then a fetch in progress, then the status.
pub open spec fn spec_status_cell(repo: RepoInfo) -> StatusCell {
    if repo.error is Some {
        StatusCell::Error
    } else if repo.fetching {
        StatusCell::Fetching
    } else {
        match repo.status {
            RepoStatus::Clean => StatusCell::Clean,
            RepoStatus::Dirty => StatusCell::Dirty,
            RepoStatus::Conflicts => StatusCell::Conflict,
        }
    }
}

impl StatusCell {
    pub open spec fn spec_text(self) -> Seq<char> {
        match self {
            StatusCell::Error => "✗ error"@,
            StatusCell::Fetching => "◌ ..."@,
            StatusCell::Clean => "● clean"@,
            StatusCell::Dirty => "● dirty"@,
            StatusCell::Conflict => "✖ conflict"@,
        }
    }

    pub fn text(&self) -> (r: &'static str)
        ensures
            r@ == self.spec_text(),
    {
        match self {
            StatusCell::Error => "✗ error",
            StatusCell::Fetching => "◌ ...",
            StatusCell::Clean => "● clean",
            StatusCell::Dirty => "● dirty",
            StatusCell::Conflict => "✖ conflict",
        }
    }
}

pub fn status_cell(repo: &RepoInfo) -> (r: StatusCell)
    ensures
        r == spec_status_cell(*repo),
{
    if repo.error.is_some() {
        StatusCell::Error
    } else if repo.fetching {
        StatusCell::Fetching
    } else {
        match repo.status {
            RepoStatus::Clean => StatusCell::Clean,
            RepoStatus::Dirty => StatusCell::Dirty,
            RepoStatus::Conflicts => StatusCell::Conflict,
        }
    }
}

/// The sync cell of a repository row.
pub enum SyncCell {
    /// A pull is under way.
    Pulling,
    /// The last pull succeeded.
    Pulled,
    /// The last pull failed.
    PullFailed,
    /// The repository has an error: shown as a dash.
    Unknown,
    /// Its summary is still being read.
    Pending,
    /// Neither ahead nor behind.
    Synced,
    /// `↑n` when ahead, `↓n` when behind (both, separated by a space, when
    /// both).
    Counts { ahead: Option<String>, behind: Option<String> },
}

/// The arrow `arrow` followed by the count `n` in decimal.
pub open spec fn arrow_count(arrow: char, n: usize) -> Seq<char> {
    seq![arrow] + decimal(n as nat)
}

pub open spec fn count_text(arrow: char, n: usize) -> Option<Seq<char>> {
    if n > 0 {
        Some(arrow_count(arrow, n))
    } else {
        None
    }
}

pub open spec fn opt_text(o: Option<String>) -> Option<Seq<char>> {
    match o {
        Some(s) => Some(s@),
        None => None,
    }
}

/// The sync cell shows what is known of the repository: a pull under way,
/// else how the last pull ended, else a dash after an error, dots while
/// fetching, else its ahead/behind counts.
pub open spec fn sync_cell_shows(repo: RepoInfo, c: SyncCell) -> bool {
    if repo.pulling {
        c is Pulling
    } else if repo.pull_result matches Some(Ok(_)) {
        c is Pulled
    } else if repo.pull_result matches Some(Err(_)) {
        c is PullFailed
    } else if repo.error is Some {
        c is Unknown
    } else if repo.fetching {
        c is Pending
    } else if repo.ahead == 0 && repo.behind == 0 {
        c is Synced
    } else {
        match c {
            SyncCell::Counts { ahead, behind } => opt_text(ahead) == count_text('↑', repo.ahead)
                && opt_text(behind) == count_text('↓', repo.behind),
            _ => false,
        }
    }
}

fn arrow_text(arrow: char, n: usize) -> (r: String)
    ensures
        r@ == arrow_count(arrow, n),
{
    let mut cs: Vec<char> = Vec::new();
    cs.push(arrow);
    let digits = decimal_chars(n as u64);
    push_all(&mut cs, digits.as_slice());
    string_of(cs.as_slice())
}

/// The text of the ahead/behind counts: `✓ synced` when neither, else
/// `↑a` when ahead and `↓b` when behind, separated by a space when both.
pub open spec fn spec_counts_text(ahead: usize, behind: usize) -> Seq<char> {
    if ahead == 0 && behind == 0 {
        "✓ synced"@
    } else if ahead > 0 && behind > 0 {
        arrow_count('↑', ahead) + " "@ + arrow_count('↓', behind)
    } else if ahead > 0 {
        arrow_count('↑', ahead)
    } else {
        arrow_count('↓', behind)
    }
}

/// The text of a sync cell.
pub open spec fn spec_sync_text(c: SyncCell) -> Seq<char> {
    match c {
        SyncCell::Pulling => "↓ pulling..."@,
        SyncCell::Pulled => "✓ pulled"@,
        SyncCell::PullFailed => "✗ pull failed"@,
        SyncCell::Unknown => "—"@,
        SyncCell::Pending => "..."@,
        SyncCell::Synced => "✓ synced"@,
        SyncCell::Counts { ahead, behind } => match (ahead, behind) {
            (Some(a), Some(b)) => a@ + " "@ + b@,
            (Some(a), None) => a@,
            (None, Some(b)) => b@,
            (None, None) => Seq::empty(),
        },
    }
}

/// The sync text for `ahead` commits ahead and `behind` behind.
pub fn counts_text(ahead: usize, behind: usize) -> (r: String)
    ensures
        r@ == spec_counts_text(ahead, behind),
{
    if ahead == 0 && behind == 0 {
        return "✓ synced".to_string();
    }
    if ahead > 0 && behind > 0 {
        let mut r = arrow_text('↑', ahead);
        r.append(" ");
        let b = arrow_text('↓', behind);
        r.append(b.as_str());
        r
    } else if ahead > 0 {
        arrow_text('↑', ahead)
    } else {
        arrow_text('↓', behind)
    }
}

impl SyncCell {
    pub fn text(&self) -> (r: String)
        ensures
            r@ == spec_sync_text(*self),
    {
        match self {
            SyncCell::Pulling => "↓ pulling...".to_string(),
            SyncCell::Pulled => "✓ pulled".to_string(),
            SyncCell::PullFailed => "✗ pull failed".to_string(),
            SyncCell::Unknown => "—".to_string(),
            SyncCell::Pending => "...".to_string(),
            SyncCell::Synced => "✓ synced".to_string(),
            SyncCell::Counts { ahead, behind } => match (ahead, behind) {
                (Some(a), Some(b)) => {
                    let mut r = a.clone();
                    r.append(" ");
                    r.append(b.as_str());
                    r
                },
                (Some(a), None) => a.clone(),
                (None, Some(b)) => b.clone(),
                (None, None) => String::new(),
            },
        }
    }
}

/// The text the sync cell of a repository shows for its counts is the
/// counts text: `✓ synced`, `↑a`, `↓b` or `↑a ↓b`.
pub proof fn law_sync_text_of_counts(repo: RepoInfo, c: SyncCell)
    requires
        sync_cell_shows(repo, c),
        !repo.pulling,
        repo.pull_result is None,
        repo.error is None,
        !repo.fetching,
    ensures
        spec_sync_text(c) == spec_counts_text(repo.ahead, repo.behind),
{
}

pub fn sync_cell(repo: &RepoInfo) -> (r: SyncCell)
    ensures
        sync_cell_shows(*repo, r),
{
    if repo.pulling {
        return SyncCell::Pulling;
    }
    match &repo.pull_result {
        Some(Ok(_)) => {
            return SyncCell::Pulled;
        },
        Some(Err(_)) => {
            return SyncCell::PullFailed;
        },
        None => {},
    }
    if repo.error.is_some() {
        SyncCell::Unknown
    } else if repo.fetching {
        SyncCell::Pending
    } else if repo.ahead == 0 && repo.behind == 0 {
        SyncCell::Synced
    } else {
        let ahead = if repo.ahead > 0 {
            Some(arrow_text('↑', repo.ahead))
        } else {
            None
        };
        let behind = if repo.behind > 0 {
            Some(arrow_text('↓', repo.behind))
        } else {
            None
        };
        SyncCell::Counts { ahead, behind }
    }
}

/// The colour role of the last-commit cell.
#[derive(Debug, Clone, Copy, PartialEq, Eq, Structural)]
pub enum AgeTone {
    Stale,
    Dim,
    Plain,
}

/// Stale repositories (once read) show in the stale colour, those being
/// read dimmed, the others plainly.
pub open spec fn spec_age_tone(stale_days: u64, repo: RepoInfo) -> AgeTone {
    if !repo.fetching && spec_is_stale(stale_days, repo.last_commit_secs) {
        AgeTone::Stale
    } else if repo.fetching {
        AgeTone::Dim
    } else {
        AgeTone::Plain
    }
}

pub fn age_tone(app: &AppState, repo: &RepoInfo) -> (r: AgeTone)
    requires
        !repo.fetching ==> stale_threshold_fits(app.stale_days),
    ensures
        r == spec_age_tone(app.stale_days, *repo),
{
    if !repo.fetching && app.is_stale(repo) {
        AgeTone::Stale
    } else if repo.fetching {
        AgeTone::Dim
    } else {
        AgeTone::Plain
    }
}

/// `  N repos ` when nothing is filtered out, else `  N/M repos `.
pub open spec fn spec_count_label(shown: usize, total: usize) -> Seq<char> {
    if shown == total {
        "  "@ + decimal(shown as nat) + " repos "@
    } else {
        "  "@ + decimal(shown as nat) + "/"@ + decimal(total as nat) + " repos "@
    }
}

/// The repository count of the footer.
pub fn count_label(app: &AppState) -> (r: String)
    ensures
        r@ == spec_count_label(app.filtered_indices@.len() as usize, app.repos@.len() as usize),
{
    let shown = app.repo_count();
    let total = app.total_count();
    let mut cs: Vec<char> = chars_of("  ");
    let d = decimal_chars(shown as u64);
    push_all(&mut cs, d.as_slice());
    if shown != total {
        push_all(&mut cs, chars_of("/").as_slice());
        let t = decimal_chars(total as u64);
        push_all(&mut cs, t.as_slice());
    }
    push_all(&mut cs, chars_of(" repos ").as_slice());
    string_of(cs.as_slice())
}

// --- Changed files ---

/// The number of bytes of `c` in UTF-8.
pub open spec fn utf8_width(c: char) -> int {
    if (c as u32) < 0x80 {
        1
    } else if (c as u32) < 0x800 {
        2
    } else if (c as u32) < 0x10000 {
        3
    } else {
        4
    }
}

/// The text after the first two bytes of `s`, when those end on a
/// character boundary (`str::get(2..)`).
pub open spec fn after_two_bytes(s: Seq<char>) -> Option<Seq<char>> {
    if s.len() >= 1 && utf8_width(s[0]) == 2 {
        Some(s.skip(1))
    } else if s.len() >= 2 && utf8_width(s[0]) == 1 && utf8_width(s[1]) == 1 {
        Some(s.skip(2))
    } else {
        None
    }
}

/// The kind letter a changed-file line shows: `A`, `M`, `D` or `R` as the
/// entry starts, else `?`.
pub open spec fn spec_change_letter(s: Seq<char>) -> char {
    if s.len() > 0 && (s[0] == 'A' || s[0] == 'M' || s[0] == 'D' || s[0] == 'R') {
        s[0]
    } else {
        '?'
    }
}

fn width_of(c: char) -> (r: usize)
    ensures
        r == utf8_width(c),
{
    let v = c as u32;
    if v < 0x80 {
        1
    } else if v < 0x800 {
        2
    } else if v < 0x10000 {
        3
    } else {
        4
    }
}

/// A changed-file entry (`"M path"`) as its kind letter and its path: the
/// entry without its first two bytes, or the whole entry when those do not
/// end on a character boundary.
pub fn change_line(entry: &str) -> (r: (char, String))
    ensures
        r.0 == spec_change_letter(entry@),
        r.1@ == match after_two_bytes(entry@) {
            Some(rest) => rest,
            None => entry@,
        },
{
    let cs = chars_of(entry);
    let letter = if cs.len() > 0 && (cs[0] == 'A' || cs[0] == 'M' || cs[0] == 'D' || cs[0] == 'R') {
        cs[0]
    } else {
        '?'
    };
    let start: usize = if cs.len() >= 1 && width_of(cs[0]) == 2 {
        1
    } else if cs.len() >= 2 && width_of(cs[0]) == 1 && width_of(cs[1]) == 1 {
        2
    } else {
        0
    };
    let mut rest: Vec<char> = Vec::new();
    let mut i: usize = start;
    while i < cs.len()
        invariant
            start <= i <= cs.len(),
            rest@ == cs@.subrange(start as int, i as int),
        decreases cs.len() - i,
    {
        rest.push(cs[i]);
        assert(cs@.subrange(start as int, i + 1) =~= cs@.subrange(start as int, i as int).push(cs@[i as int]));
        i = i + 1;
    }
    assert(cs@.subrange(start as int, cs.len() as int) =~= cs@.skip(start as int));
    assert(cs@.skip(0) =~= cs@);
    (letter, string_of(rest.as_slice()))
}


// --- Footer, branch and header marks ---

/// `prefix`, the number `n` in decimal, then `suffix`.
pub open spec fn numbered(prefix: Seq<char>, n: nat, suffix: Seq<char>) -> Seq<char> {
    prefix + decimal(n) + suffix
}

fn numbered_text(prefix: &str, n: usize, suffix: &str) -> (r: String)
    ensures
        r@ == numbered(prefix@, n as nat, suffix@),
{
    let mut cs = chars_of(prefix);
    let d = decimal_chars(n as u64);
    push_all(&mut cs, d.as_slice());
    push_all(&mut cs, chars_of(suffix).as_slice());
    string_of(cs.as_slice())
}

/// The footer's count of clean repositories: ` ● N `.
pub fn clean_mark(app: &AppState) -> (r: String)
    ensures
        r@ == numbered(" ● "@, count_where(app.repos@, |x: RepoInfo| is_clean_ok(x)), " "@),
{
    numbered_text(" ● ", app.clean_count(), " ")
}

/// The footer's count of dirty repositories: `● N `.
pub fn dirty_mark(app: &AppState) -> (r: String)
    ensures
        r@ == numbered("● "@, count_where(app.repos@, |x: RepoInfo| is_dirty(x)), " "@),
{
    numbered_text("● ", app.dirty_count(), " ")
}

/// The footer's count of repositories with errors, `✗ N `, when there are
/// any.
pub fn error_mark(app: &AppState) -> (r: Option<String>)
    ensures
        match r {
            Some(t) => count_where(app.repos@, |x: RepoInfo| has_error(x)) > 0 && t@ == numbered(
                "✗ "@,
                count_where(app.repos@, |x: RepoInfo| has_error(x)),
                " "@,
            ),
            None => count_where(app.repos@, |x: RepoInfo| has_error(x)) == 0,
        },
{
    let n = app.error_count();
    if n > 0 {
        Some(numbered_text("✗ ", n, " "))
    } else {
        None
    }
}

/// The footer's count of stale repositories, `⏳N `, when there are any.
pub fn stale_mark(app: &AppState) -> (r: Option<String>)
    requires
        app.repos@.len() > 0 ==> stale_threshold_fits(app.stale_days),
    ensures
        match r {
            Some(t) => count_where(
                app.repos@,
                |x: RepoInfo| spec_is_stale(app.stale_days, x.last_commit_secs),
            ) > 0 && t@ == numbered(
                "⏳"@,
                count_where(app.repos@, |x: RepoInfo| spec_is_stale(app.stale_days, x.last_commit_secs)),
                " "@,
            ),
            None => count_where(
                app.repos@,
                |x: RepoInfo| spec_is_stale(app.stale_days, x.last_commit_secs),
            ) == 0,
        },
{
    let n = app.stale_count();
    if n > 0 {
        Some(numbered_text("⏳", n, " "))
    } else {
        None
    }
}

/// The footer's mark of an active status filter: ` [label]`; none for
/// `all`.
pub fn filter_mark(filter: StatusFilter) -> (r: Option<String>)
    ensures
        match r {
            Some(t) => filter != StatusFilter::All && t@ == " ["@ + filter.spec_label() + "]"@,
            None => filter == StatusFilter::All,
        },
{
    if filter == StatusFilter::All {
        None
    } else {
        let mut t = " [".to_string();
        t.append(filter.label());
        t.append("]");
        Some(t)
    }
}

/// The footer's mark of a sort order other than by name: ` [↕label]`.
pub fn sort_mark(order: SortOrder) -> (r: Option<String>)
    ensures
        match r {
            Some(t) => order != SortOrder::Name && t@ == " [↕"@ + order.spec_label() + "]"@,
            None => order == SortOrder::Name,
        },
{
    if order == SortOrder::Name {
        None
    } else {
        let mut t = " [↕".to_string();
        t.append(order.label());
        t.append("]");
        Some(t)
    }
}

/// The marks of a branch in the detail pane: `* ` for HEAD (else two
/// spaces), ` ⚠ upstream gone` when its upstream is gone, ` (merged)` when
/// it is merged into HEAD.
pub fn branch_marks(b: &BranchEntry) -> (r: (&'static str, Option<&'static str>, Option<&'static str>))
    ensures
        r.0@ == if b.is_head {
            "* "@
        } else {
            "  "@
        },
        match r.1 {
            Some(t) => b.upstream_gone && t@ == " ⚠ upstream gone"@,
            None => !b.upstream_gone,
        },
        match r.2 {
            Some(t) => b.is_merged && t@ == " (merged)"@,
            None => !b.is_merged,
        },
{
    let head = if b.is_head {
        "* "
    } else {
        "  "
    };
    let gone = if b.upstream_gone {
        Some(" ⚠ upstream gone")
    } else {
        None
    };
    let merged = if b.is_merged {
        Some(" (merged)")
    } else {
        None
    };
    (head, gone, merged)
}

/// The header's notice of a newer release `version`: `↑ X available`, with
/// one leading `v` of the tag left out.
pub open spec fn spec_update_notice(version: Seq<char>) -> Seq<char> {
    let v = if version.len() > 0 && version[0] == 'v' {
        version.drop_first()
    } else {
        version
    };
    "↑ "@ + v + " available"@
}

pub fn update_notice(version: &str) -> (r: String)
    ensures
        r@ == spec_update_notice(version@),
{
    let cs = chars_of(version);
    let start: usize = if cs.len() > 0 && cs[0] == 'v' {
        1
    } else {
        0
    };
    let mut out = chars_of("↑ ");
    let mut i: usize = start;
    let ghost head = out@;
    while i < cs.len()
        invariant
            start <= i <= cs.len(),
            out@ == head + cs@.subrange(start as int, i as int),
        decreases cs.len() - i,
    {
        out.push(cs[i]);
        assert(cs@.subrange(start as int, i + 1) =~= cs@.subrange(start as int, i as int).push(cs@[i as int]));
        i = i + 1;
    }
    assert(cs@.subrange(start as int, cs.len() as int) =~= if start == 1 {
        cs@.drop_first()
    } else {
        cs@
    });
    push_all(&mut out, chars_of(" available").as_slice());
    string_of(out.as_slice())
}

} // verus!

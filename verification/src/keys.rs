//! Key handling of the dashboard: what a key press does to the state, and
//! what the caller is asked to do (quit, go back to the picker, load the
//! details of a repository, pull, refresh).
//!
//! In search mode keys edit the query; in normal mode they drive the view;
//! the help, the error details and the theme picker take their own keys
//! while they are open.

use vstd::prelude::*;
use crate::app::{
    AppState, DetailPane, InputMode, RepoInfo, StatusFilter, clamp_selection, law_empty_search_counts,
    law_filtered_view_unique,
    next_preset, preset_position, prev_preset, repos_pulling, stale_threshold_fits,
};
use crate::config::{preset_count, preset_name, preset_theme};
use crate::git_ops::RepoStatus;
use crate::text::{chars_of, string_of};

verus! {

/// The key that was pressed.
#[derive(Debug, Clone, Copy, PartialEq, Eq, Structural)]
pub enum KeyCode {
    Char(char),
    Esc,
    Enter,
    Backspace,
    Up,
    Down,
    Left,
    Right,
    Tab,
    Other,
}

/// A key press: the key and whether it came with Control (and no other
/// modifier).
#[derive(Debug, Clone, Copy, PartialEq, Eq, Structural)]
pub struct Key {
    pub code: KeyCode,
    pub ctrl: bool,
}

/// Whether the selected repository can be pulled, and why not.
#[derive(Debug, Clone, Copy, PartialEq, Eq, Structural)]
pub enum PullVerdict {
    /// A pull of it is already under way.
    AlreadyPulling,
    /// It has local changes: commit or stash first.
    Dirty,
    /// It has merge conflicts: resolve them first.
    Conflicts,
    /// There is nothing to pull.
    UpToDate,
    /// Reading it failed.
    HasErrors,
    /// Pull it.
    Go,
}

/// What the caller is to do after a key press.
pub enum KeyAction {
    /// Nothing beyond the change of state.
    Stay,
    /// Leave the program.
    Quit,
    /// Go back to the directory picker.
    BackToPicker,
    /// Load the details of the repository at this path.
    LoadDetail(String),
    /// Pull the repository at this path.
    Pull(String),
    /// The selected repository (shown under `name`) is not pulled.
    PullRefused { verdict: PullVerdict, name: String },
    /// Pull every repository at these paths.
    PullAll(Vec<String>),
    /// No repository can be pulled.
    NothingToPull,
    /// Refresh every repository.
    RefreshAll,
    /// The theme picker closed on the preset with this name.
    ThemeChosen(&'static str),
}

/// The verdict on pulling `repo`: a pull under way, then local changes, then
/// conflicts, then nothing to pull, then a failed read each stop it, in that
/// order.
pub open spec fn spec_pull_verdict(repo: RepoInfo) -> PullVerdict {
    if repo.pulling {
        PullVerdict::AlreadyPulling
    } else if repo.status == RepoStatus::Dirty {
        PullVerdict::Dirty
    } else if repo.status == RepoStatus::Conflicts {
        PullVerdict::Conflicts
    } else if repo.behind == 0 {
        PullVerdict::UpToDate
    } else if repo.error is Some {
        PullVerdict::HasErrors
    } else {
        PullVerdict::Go
    }
}

/// A repository that pulling everything takes: not already being pulled,
/// clean, behind and readable.
pub open spec fn pullable(repo: RepoInfo) -> bool {
    !repo.pulling && repo.status == RepoStatus::Clean && repo.behind > 0 && repo.error is None
}

/// The repositories after pulls of the repositories at `paths` started, in
/// order.
pub open spec fn repos_all_pulling(repos: Seq<RepoInfo>, paths: Seq<String>) -> Seq<RepoInfo>
    decreases paths.len(),
{
    if paths.len() == 0 {
        repos
    } else {
        repos_pulling(repos_all_pulling(repos, paths.drop_last()), paths.last()@)
    }
}

/// The paths of the pullable repositories, in order.
pub open spec fn pullable_paths(repos: Seq<RepoInfo>) -> Seq<String>
    decreases repos.len(),
{
    if repos.len() == 0 {
        seq![]
    } else {
        let rest = pullable_paths(repos.drop_last());
        if pullable(repos.last()) {
            rest.push(repos.last().path)
        } else {
            rest
        }
    }
}

/// A single pull goes ahead exactly when pulling everything would take
/// the repository.
pub proof fn law_pull_agrees_with_pull_all(repo: RepoInfo)
    ensures
        spec_pull_verdict(repo) == PullVerdict::Go <==> pullable(repo),
{
}

/// `new` is `old` with the query `query`, the status filter `filter` and the
/// mode `mode`, and the filtered list rebuilt for them.
pub open spec fn rebuilt(old: AppState, new: AppState, query: Seq<char>, filter: StatusFilter, mode: InputMode) -> bool {
    &&& new.search_query@ == query
    &&& new.status_filter == filter
    &&& new.input_mode == mode
    &&& AppState::same_but_view(
        AppState { search_query: new.search_query, status_filter: filter, input_mode: mode, ..old },
        new,
    )
    &&& new.filtered_ok()
    &&& new.selected == clamp_selection(old.selected, new.filtered_indices@.len())
}

/// The key moves up: the arrow or `k`.
pub open spec fn is_up(code: KeyCode) -> bool {
    code == KeyCode::Up || code == KeyCode::Char('k')
}

/// The key moves down: the arrow or `j`.
pub open spec fn is_down(code: KeyCode) -> bool {
    code == KeyCode::Down || code == KeyCode::Char('j')
}

/// `new` is `old` with the detail pane closed.
pub open spec fn pane_closed(old: AppState, new: AppState) -> bool {
    new.detail_pane is None && AppState::same_but_pane(old, new)
}

/// What a key does in search mode.
pub open spec fn search_outcome(old: AppState, code: KeyCode, new: AppState, action: KeyAction) -> bool {
    &&& action is Stay
    &&& match code {
        KeyCode::Esc => rebuilt(old, new, seq![], old.status_filter, InputMode::Normal),
        KeyCode::Enter => new == AppState { input_mode: InputMode::Normal, ..old },
        KeyCode::Backspace => rebuilt(
            old,
            new,
            if old.search_query@.len() > 0 {
                old.search_query@.drop_last()
            } else {
                old.search_query@
            },
            old.status_filter,
            InputMode::Search,
        ),
        KeyCode::Char(c) => rebuilt(old, new, old.search_query@.push(c), old.status_filter, InputMode::Search),
        _ => new == old,
    }
}

/// What a key does while the help is open.
pub open spec fn help_outcome(old: AppState, code: KeyCode, new: AppState, action: KeyAction) -> bool {
    &&& action is Stay
    &&& if code == KeyCode::Esc || code == KeyCode::Char('q') || code == KeyCode::Char('?') {
        new == AppState { input_mode: InputMode::Normal, ..old }
    } else if is_up(code) {
        new == AppState {
            help_scroll: if old.help_scroll == 0 { 0 } else { (old.help_scroll - 1) as usize },
            ..old
        }
    } else if is_down(code) {
        new == AppState { help_scroll: (old.help_scroll + 1) as usize, ..old }
    } else {
        new == old
    }
}

/// What a key does while an error is shown.
pub open spec fn error_info_outcome(old: AppState, code: KeyCode, new: AppState, action: KeyAction) -> bool {
    &&& action is Stay
    &&& if code == KeyCode::Esc || code == KeyCode::Char('q') || code == KeyCode::Char('i') || code
        == KeyCode::Enter {
        new == AppState { input_mode: InputMode::Normal, error_info_text: None, ..old }
    } else {
        new == old
    }
}

/// What a key does while the theme picker is open.
pub open spec fn theme_picker_outcome(old: AppState, code: KeyCode, new: AppState, action: KeyAction) -> bool {
    if code == KeyCode::Esc || code == KeyCode::Char('q') {
        action is Stay && new == AppState {
            input_mode: InputMode::Normal,
            theme: old.theme_before_picker,
            ..old
        }
    } else if code == KeyCode::Enter {
        &&& new == AppState { input_mode: InputMode::Normal, ..old }
        &&& if old.theme_picker_index < preset_count() {
            action matches KeyAction::ThemeChosen(n) && n@ == preset_name(old.theme_picker_index as int)
        } else {
            action is Stay
        }
    } else if is_up(code) {
        action is Stay && new == AppState {
            theme_picker_index: prev_preset(old.theme_picker_index),
            theme: preset_theme(prev_preset(old.theme_picker_index) as int),
            ..old
        }
    } else if is_down(code) {
        action is Stay && new == AppState {
            theme_picker_index: next_preset(old.theme_picker_index),
            theme: preset_theme(next_preset(old.theme_picker_index) as int),
            ..old
        }
    } else {
        action is Stay && new == old
    }
}

/// What a key does in normal mode, at time `now`.
pub open spec fn normal_outcome(old: AppState, key: Key, now: u64, new: AppState, action: KeyAction) -> bool {
    let has_pane = old.detail_pane is Some;
    if key.code == KeyCode::Char('c') && key.ctrl {
        action is Quit && new == old
    } else if key.code == KeyCode::Char('b') {
        action is BackToPicker && new == old
    } else if key.code == KeyCode::Char('q') {
        if has_pane {
            action is Stay && pane_closed(old, new)
        } else {
            action is Quit && new == old
        }
    } else if key.code == KeyCode::Esc {
        if has_pane {
            action is Stay && pane_closed(old, new)
        } else if old.status_filter != StatusFilter::All || old.search_query@.len() > 0 {
            action is Stay && rebuilt(old, new, seq![], StatusFilter::All, old.input_mode)
        } else {
            action is Quit && new == old
        }
    } else if key.code == KeyCode::Char('?') {
        action is Stay && new == AppState { input_mode: InputMode::Help, help_scroll: 0, ..old }
    } else if key.code == KeyCode::Char('i') {
        &&& action is Stay
        &&& match old.spec_selected_index() {
            Some(k) => match old.repos@[k].error {
                Some(e) => new == AppState { input_mode: InputMode::ErrorInfo, error_info_text: Some(e), ..old },
                None => new == old,
            },
            None => new == old,
        }
    } else if key.code == KeyCode::Char('t') {
        action is Stay && new == AppState {
            input_mode: InputMode::ThemePicker,
            theme_picker_index: preset_position(old.theme, 0) as usize,
            theme_before_picker: old.theme,
            ..old
        }
    } else if key.code == KeyCode::Char('/') {
        &&& action is Stay
        &&& new.search_query@.len() == 0
        &&& new == AppState { input_mode: InputMode::Search, search_query: new.search_query, ..old }
    } else if key.code == KeyCode::Char('f') {
        action is Stay && rebuilt(old, new, old.search_query@, old.status_filter.spec_next(), old.input_mode)
    } else if key.code == KeyCode::Char('s') {
        &&& action is Stay
        &&& new.sort_order == old.sort_order.spec_next()
        &&& AppState::same_but_view(AppState { sort_order: new.sort_order, ..old }, new)
        &&& new.filtered_ok()
        &&& new.selected == clamp_selection(old.selected, new.filtered_indices@.len())
    } else if key.code == KeyCode::Char('p') {
        match old.spec_selected_index() {
            Some(k) => {
                let repo = old.repos@[k];
                match action {
                    KeyAction::Pull(p) => {
                        &&& spec_pull_verdict(repo) == PullVerdict::Go
                        &&& p == repo.path
                        &&& new.repos@ == repos_pulling(old.repos@, repo.path@)
                        &&& new == AppState { repos: new.repos, ..old }
                    },
                    KeyAction::PullRefused { verdict, name } => spec_pull_verdict(repo) != PullVerdict::Go
                        && verdict == spec_pull_verdict(repo) && name == repo.display_name && new == old,
                    _ => false,
                }
            },
            None => action is Stay && new == old,
        }
    } else if key.code == KeyCode::Char('P') {
        if pullable_paths(old.repos@).len() == 0 {
            action is NothingToPull && new == old
        } else {
            &&& action matches KeyAction::PullAll(paths) && paths@ == pullable_paths(old.repos@)
            &&& new.repos@ == repos_all_pulling(old.repos@, pullable_paths(old.repos@))
            &&& new == AppState { repos: new.repos, ..old }
        }
    } else if key.code == KeyCode::Char('r') {
        &&& action is RefreshAll
        &&& new.last_full_refresh == Some(now)
        &&& new.pending_refreshes == old.repos@.len()
        &&& AppState::same_but_refresh(old, new)
    } else if key.code == KeyCode::Enter {
        if has_pane {
            action is Stay && pane_closed(old, new)
        } else {
            &&& new == old
            &&& match old.spec_selected_index() {
                Some(k) => action matches KeyAction::LoadDetail(p) && p == old.repos@[k].path,
                None => action is Stay,
            }
        }
    } else if is_up(key.code) {
        &&& action is Stay
        &&& match old.detail_pane {
            Some(pane) => new == AppState {
                detail_pane: Some(
                    DetailPane { scroll: if pane.scroll == 0 { 0 } else { (pane.scroll - 1) as usize }, ..pane },
                ),
                ..old
            },
            None => new == AppState {
                selected: if old.selected == 0 { 0 } else { (old.selected - 1) as usize },
                ..old
            },
        }
    } else if is_down(key.code) {
        &&& action is Stay
        &&& match old.detail_pane {
            Some(pane) => new == AppState {
                detail_pane: Some(
                    DetailPane {
                        scroll: if pane.scroll == usize::MAX { usize::MAX } else { (pane.scroll + 1) as usize },
                        ..pane
                    },
                ),
                ..old
            },
            None => new == AppState {
                selected: if old.filtered_indices@.len() == 0 {
                    old.selected
                } else if old.selected + 1 < old.filtered_indices@.len() {
                    (old.selected + 1) as usize
                } else {
                    (old.filtered_indices@.len() - 1) as usize
                },
                ..old
            },
        }
    } else {
        action is Stay && new == old
    }
}

/// What a key press does, at time `now`, in the current mode.
pub open spec fn key_outcome(old: AppState, key: Key, now: u64, new: AppState, action: KeyAction) -> bool {
    match old.input_mode {
        InputMode::Search => search_outcome(old, key.code, new, action),
        InputMode::Normal => normal_outcome(old, key, now, new, action),
        InputMode::Help => help_outcome(old, key.code, new, action),
        InputMode::ErrorInfo => error_info_outcome(old, key.code, new, action),
        InputMode::ThemePicker => theme_picker_outcome(old, key.code, new, action),
    }
}

/// The key press can be handled: the stale threshold fits whenever the key
/// makes the stale filter test some repository, and moving down past the
/// last position of the largest possible list cannot happen.
pub open spec fn key_ok(app: AppState, key: Key) -> bool {
    &&& (app.input_mode == InputMode::Search && (key.code == KeyCode::Esc || key.code
        == KeyCode::Backspace || key.code is Char) ==> app.filter_computable())
    &&& (app.input_mode == InputMode::Normal && key.code == KeyCode::Char('s') ==> app.filter_computable())
    &&& (app.input_mode == InputMode::Normal && key.code == KeyCode::Char('f')
        && app.status_filter.spec_next() == StatusFilter::Stale && app.repos@.len() > 0
        ==> stale_threshold_fits(app.stale_days))
    &&& (app.input_mode == InputMode::Normal && is_down(key.code) && app.detail_pane is None
        && app.filtered_indices@.len() > 0 ==> app.selected < usize::MAX)
    &&& (app.input_mode == InputMode::Help && is_down(key.code) ==> app.help_scroll < usize::MAX)
}

/// In search mode, typing a character and erasing it again gives back the
/// query and the filtered list from before.
pub proof fn law_type_then_erase(old: AppState, mid: AppState, new: AppState, c: char, a1: KeyAction, a2: KeyAction)
    requires
        old.input_mode == InputMode::Search,
        old.filtered_ok(),
        search_outcome(old, KeyCode::Char(c), mid, a1),
        search_outcome(mid, KeyCode::Backspace, new, a2),
    ensures
        new.search_query@ == old.search_query@,
        new.input_mode == InputMode::Search,
        new.filtered_indices@ == old.filtered_indices@,
{
    assert(old.search_query@.push(c).drop_last() =~= old.search_query@);
    law_filtered_view_unique(old, new);
}

/// Leaving search mode with Esc clears the query and goes back to normal
/// mode, with the list showing every repository that passes the status filter.
pub proof fn law_search_escape_clears(old: AppState, new: AppState, a: KeyAction)
    requires
        old.input_mode == InputMode::Search,
        search_outcome(old, KeyCode::Esc, new, a),
    ensures
        new.search_query@.len() == 0,
        new.input_mode == InputMode::Normal,
        new.filtered_ok(),
        new.status_filter == old.status_filter,
{
}

/// Moving through the theme picker previews presets but keeps the theme
/// that was in use when it opened; cancelling gives that theme back.
pub proof fn law_theme_picker_cancel_restores(
    s0: AppState,
    s1: AppState,
    s2: AppState,
    s3: AppState,
    move_key: KeyCode,
    now: u64,
    a1: KeyAction,
    a2: KeyAction,
    a3: KeyAction,
)
    requires
        s0.input_mode == InputMode::Normal,
        normal_outcome(s0, Key { code: KeyCode::Char('t'), ctrl: false }, now, s1, a1),
        is_up(move_key) || is_down(move_key),
        theme_picker_outcome(s1, move_key, s2, a2),
        theme_picker_outcome(s2, KeyCode::Esc, s3, a3),
    ensures
        s1.input_mode == InputMode::ThemePicker,
        s2.input_mode == InputMode::ThemePicker,
        s2.theme_before_picker == s0.theme,
        s3.theme == s0.theme,
        s3.input_mode == InputMode::Normal,
        s3.repos == s0.repos,
{
}

fn pull_verdict(repo: &RepoInfo) -> (v: PullVerdict)
    ensures
        v == spec_pull_verdict(*repo),
{
    if repo.pulling {
        PullVerdict::AlreadyPulling
    } else if repo.status == RepoStatus::Dirty {
        PullVerdict::Dirty
    } else if repo.status == RepoStatus::Conflicts {
        PullVerdict::Conflicts
    } else if repo.behind == 0 {
        PullVerdict::UpToDate
    } else if repo.error.is_some() {
        PullVerdict::HasErrors
    } else {
        PullVerdict::Go
    }
}

fn collect_pullable(repos: &Vec<RepoInfo>) -> (r: Vec<String>)
    ensures
        r@ == pullable_paths(repos@),
{
    let mut r: Vec<String> = Vec::new();
    let mut i: usize = 0;
    while i < repos.len()
        invariant
            i <= repos.len(),
            r@ == pullable_paths(repos@.take(i as int)),
        decreases repos.len() - i,
    {
        assert(repos@.take(i + 1).drop_last() =~= repos@.take(i as int));
        assert(repos@.take(i + 1).last() == repos@[i as int]);
        let repo = &repos[i];
        if !repo.pulling && repo.status == RepoStatus::Clean && repo.behind > 0 && repo.error.is_none() {
            r.push(repo.path.clone());
        }
        i = i + 1;
    }
    assert(repos@.take(repos.len() as int) =~= repos@);
    r
}

impl AppState {
    /// Handles a key press at time `now` (milliseconds).
    pub fn handle_key(&mut self, key: Key, now: u64) -> (action: KeyAction)
        requires
            key_ok(*old(self), key),
        ensures
            key_outcome(*old(self), key, now, *final(self), action),
    {
        match self.input_mode {
            InputMode::Search => self.handle_search_key(key.code),
            InputMode::Normal => self.handle_normal_key(key, now),
            InputMode::Help => self.handle_help_key(key.code),
            InputMode::ErrorInfo => self.handle_error_info_key(key.code),
            InputMode::ThemePicker => self.handle_theme_picker_key(key.code),
        }
    }

    fn handle_help_key(&mut self, code: KeyCode) -> (action: KeyAction)
        requires
            is_down(code) ==> old(self).help_scroll < usize::MAX,
        ensures
            help_outcome(*old(self), code, *final(self), action),
    {
        if code == KeyCode::Esc || code == KeyCode::Char('q') || code == KeyCode::Char('?') {
            self.close_help();
        } else if code == KeyCode::Up || code == KeyCode::Char('k') {
            self.help_scroll = self.help_scroll.saturating_sub(1);
        } else if code == KeyCode::Down || code == KeyCode::Char('j') {
            self.help_scroll = self.help_scroll + 1;
        }
        KeyAction::Stay
    }

    fn handle_error_info_key(&mut self, code: KeyCode) -> (action: KeyAction)
        ensures
            error_info_outcome(*old(self), code, *final(self), action),
    {
        if code == KeyCode::Esc || code == KeyCode::Char('q') || code == KeyCode::Char('i') || code
            == KeyCode::Enter {
            self.close_error_info();
        }
        KeyAction::Stay
    }

    fn handle_theme_picker_key(&mut self, code: KeyCode) -> (action: KeyAction)
        ensures
            theme_picker_outcome(*old(self), code, *final(self), action),
    {
        if code == KeyCode::Esc || code == KeyCode::Char('q') {
            self.theme_picker_cancel();
            KeyAction::Stay
        } else if code == KeyCode::Enter {
            match self.theme_picker_confirm() {
                Some(name) => KeyAction::ThemeChosen(name),
                None => KeyAction::Stay,
            }
        } else if code == KeyCode::Up || code == KeyCode::Char('k') {
            self.theme_picker_prev();
            KeyAction::Stay
        } else if code == KeyCode::Down || code == KeyCode::Char('j') {
            self.theme_picker_next();
            KeyAction::Stay
        } else {
            KeyAction::Stay
        }
    }

    /// Marks each repository at `paths` as being pulled, in order.
    fn set_all_pulling(&mut self, paths: &Vec<String>)
        ensures
            final(self).repos@ == repos_all_pulling(old(self).repos@, paths@),
            *final(self) == (AppState { repos: final(self).repos, ..*old(self) }),
    {
        let mut i: usize = 0;
        while i < paths.len()
            invariant
                i <= paths.len(),
                self.repos@ == repos_all_pulling(old(self).repos@, paths@.take(i as int)),
                *self == (AppState { repos: self.repos, ..*old(self) }),
            decreases paths.len() - i,
        {
            assert(paths@.take(i + 1).drop_last() =~= paths@.take(i as int));
            self.set_pulling(&paths[i]);
            i = i + 1;
        }
        assert(paths@.take(i as int) =~= paths@);
    }

    fn set_query_and_rebuild(&mut self, query: String, filter: StatusFilter, mode: InputMode)
        requires
            filter == StatusFilter::Stale && old(self).repos@.len() > 0 ==> stale_threshold_fits(
                old(self).stale_days,
            ),
        ensures
            rebuilt(*old(self), *final(self), query@, filter, mode),
    {
        self.search_query = query;
        self.status_filter = filter;
        self.input_mode = mode;
        self.recompute_filtered();
    }

    fn handle_search_key(&mut self, code: KeyCode) -> (action: KeyAction)
        requires
            old(self).input_mode == InputMode::Search,
            (code == KeyCode::Esc || code == KeyCode::Backspace || code is Char) ==> old(
                self,
            ).filter_computable(),
        ensures
            search_outcome(*old(self), code, *final(self), action),
    {
        match code {
            KeyCode::Esc => {
                let filter = self.status_filter;
                self.set_query_and_rebuild(String::new(), filter, InputMode::Normal);
            },
            KeyCode::Enter => {
                self.input_mode = InputMode::Normal;
            },
            KeyCode::Backspace => {
                let mut cs = chars_of(self.search_query.as_str());
                if cs.len() > 0 {
                    cs.pop();
                }
                let filter = self.status_filter;
                self.set_query_and_rebuild(string_of(cs.as_slice()), filter, InputMode::Search);
            },
            KeyCode::Char(c) => {
                let mut cs = chars_of(self.search_query.as_str());
                cs.push(c);
                let filter = self.status_filter;
                self.set_query_and_rebuild(string_of(cs.as_slice()), filter, InputMode::Search);
            },
            _ => {},
        }
        KeyAction::Stay
    }

    fn handle_normal_key(&mut self, key: Key, now: u64) -> (action: KeyAction)
        requires
            old(self).input_mode == InputMode::Normal,
            key_ok(*old(self), key),
        ensures
            normal_outcome(*old(self), key, now, *final(self), action),
    {
        let code = key.code;
        let has_pane = self.detail_pane.is_some();
        if code == KeyCode::Char('c') && key.ctrl {
            KeyAction::Quit
        } else if code == KeyCode::Char('b') {
            KeyAction::BackToPicker
        } else if code == KeyCode::Char('q') {
            if has_pane {
                self.close_detail_pane();
                KeyAction::Stay
            } else {
                KeyAction::Quit
            }
        } else if code == KeyCode::Esc {
            if has_pane {
                self.close_detail_pane();
                KeyAction::Stay
            } else if self.status_filter != StatusFilter::All || chars_of(self.search_query.as_str()).len() > 0 {
                let mode = self.input_mode;
                self.set_query_and_rebuild(String::new(), StatusFilter::All, mode);
                KeyAction::Stay
            } else {
                KeyAction::Quit
            }
        } else if code == KeyCode::Char('?') {
            self.open_help();
            KeyAction::Stay
        } else if code == KeyCode::Char('i') {
            self.show_error_info();
            KeyAction::Stay
        } else if code == KeyCode::Char('t') {
            self.open_theme_picker();
            KeyAction::Stay
        } else if code == KeyCode::Char('/') {
            self.input_mode = InputMode::Search;
            self.search_query = String::new();
            KeyAction::Stay
        } else if code == KeyCode::Char('f') {
            self.cycle_filter();
            KeyAction::Stay
        } else if code == KeyCode::Char('s') {
            self.cycle_sort();
            KeyAction::Stay
        } else if code == KeyCode::Char('p') {
            let picked = match self.selected_repo() {
                Some(repo) => Some((pull_verdict(repo), repo.path.clone(), repo.display_name.clone())),
                None => None,
            };
            match picked {
                Some((verdict, path, name)) => {
                    if verdict == PullVerdict::Go {
                        self.set_pulling(&path);
                        KeyAction::Pull(path)
                    } else {
                        KeyAction::PullRefused { verdict, name }
                    }
                },
                None => KeyAction::Stay,
            }
        } else if code == KeyCode::Char('P') {
            let paths = collect_pullable(&self.repos);
            if paths.len() == 0 {
                KeyAction::NothingToPull
            } else {
                self.set_all_pulling(&paths);
                KeyAction::PullAll(paths)
            }
        } else if code == KeyCode::Char('r') {
            self.mark_refreshing(now);
            KeyAction::RefreshAll
        } else if code == KeyCode::Enter {
            if has_pane {
                self.close_detail_pane();
                KeyAction::Stay
            } else {
                match self.selected_repo() {
                    Some(repo) => KeyAction::LoadDetail(repo.path.clone()),
                    None => KeyAction::Stay,
                }
            }
        } else if code == KeyCode::Up || code == KeyCode::Char('k') {
            match &mut self.detail_pane {
                Some(pane) => pane.scroll_up(),
                None => self.select_prev(),
            }
            KeyAction::Stay
        } else if code == KeyCode::Down || code == KeyCode::Char('j') {
            match &mut self.detail_pane {
                Some(pane) => pane.scroll_down(),
                None => self.select_next(),
            }
            KeyAction::Stay
        } else {
            KeyAction::Stay
        }
    }
}

/// Esc on the dashboard first closes the detail pane; without one it clears
/// a search query or a status filter, if either is set, and shows every
/// repository again, staying on the dashboard; only with neither set does
/// it quit. It never quits while a query or a filter is set.
pub proof fn law_escape_clears_before_quitting(old: AppState, key: Key, now: u64, new: AppState, action: KeyAction)
    requires
        old.input_mode == InputMode::Normal,
        key.code == KeyCode::Esc,
        key_outcome(old, key, now, new, action),
        old.repos@.len() <= usize::MAX,
    ensures
        old.detail_pane is Some ==> action is Stay && new.detail_pane is None
            && new.search_query == old.search_query && new.status_filter == old.status_filter,
        old.detail_pane is None && (old.search_query@.len() > 0 || old.status_filter
            != StatusFilter::All) ==> {
            &&& action is Stay
            &&& new.search_query@.len() == 0
            &&& new.status_filter == StatusFilter::All
            &&& new.input_mode == InputMode::Normal
            &&& new.repos == old.repos
            &&& new.filtered_indices@.len() == new.repos@.len()
        },
        old.detail_pane is None && old.search_query@.len() == 0 && old.status_filter
            == StatusFilter::All ==> action is Quit && new == old,
{
    if old.detail_pane is None && (old.search_query@.len() > 0 || old.status_filter
        != StatusFilter::All) {
        law_empty_search_counts(new);
    }
}

/// On the dashboard only three keys leave it: Ctrl-C quits, `q` quits when
/// no detail pane is open, and Esc quits when there is no pane, no search
/// query and no status filter; `b` alone goes back to the directory picker.
/// Whatever leaves changes nothing of the state.
pub proof fn law_normal_exits(old: AppState, key: Key, now: u64, new: AppState, action: KeyAction)
    requires
        old.input_mode == InputMode::Normal,
        key_outcome(old, key, now, new, action),
    ensures
        action is Quit ==> new == old && ((key.code == KeyCode::Char('c') && key.ctrl) || (
        old.detail_pane is None && (key.code == KeyCode::Char('q') || (key.code == KeyCode::Esc
            && old.search_query@.len() == 0 && old.status_filter == StatusFilter::All)))),
        action is BackToPicker ==> new == old && key.code == KeyCode::Char('b'),
{
}

/// Moving up or down the list by one row never leaves it: with no detail
/// pane, a selection on a shown row moves by at most one row, up for the
/// up keys and down for the down keys, and stays on a shown row.
pub proof fn law_moves_stay_in_list(old: AppState, key: Key, now: u64, new: AppState, action: KeyAction)
    requires
        old.input_mode == InputMode::Normal,
        old.detail_pane is None,
        is_up(key.code) || is_down(key.code),
        key_outcome(old, key, now, new, action),
        old.selected < old.filtered_indices@.len(),
    ensures
        action is Stay,
        new.filtered_indices == old.filtered_indices,
        new.selected < new.filtered_indices@.len(),
        is_up(key.code) ==> new.selected <= old.selected && old.selected <= new.selected + 1,
        is_down(key.code) ==> old.selected <= new.selected && new.selected <= old.selected + 1,
        is_down(key.code) && old.selected + 1 < old.filtered_indices@.len() ==> new.selected
            == old.selected + 1,
        is_up(key.code) && old.selected > 0 ==> new.selected + 1 == old.selected,
{
    assert(old.filtered_indices@.len() == old.filtered_indices.len());
}

} // verus!

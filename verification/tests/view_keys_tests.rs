use gruth::app::{AppState, InputMode, SortOrder, StatusFilter};
use gruth::config::Theme;
use gruth::git_ops::{GitInfo, RepoDetails, RepoStatus};
use gruth::keys::{Key, KeyAction, KeyCode, PullVerdict};
use gruth::git_ops::BranchEntry;
use gruth::view::{
    age_tone, branch_marks, change_line, clean_mark, count_label, counts_text, dirty_mark, error_mark,
    filter_mark, sort_mark, stale_mark, status_cell, sync_cell, update_notice, AgeTone, ColumnLayout,
    StatusCell, SyncCell,
};

fn info(status: RepoStatus, ahead: usize, behind: usize, secs: u64) -> GitInfo {
    GitInfo {
        branch: "main".to_string(),
        status,
        ahead,
        behind,
        last_commit_age: "x".to_string(),
        last_commit_secs: secs,
        branch_count: 1,
    }
}

fn app_with(names: &[&str]) -> AppState {
    let mut app = AppState::new("/p".to_string(), 5, 30, SortOrder::Name);
    app.set_repos(names.iter().map(|n| format!("/p/{}", n)).collect());
    app
}

fn key(c: char) -> Key {
    Key { code: KeyCode::Char(c), ctrl: false }
}

fn code(k: KeyCode) -> Key {
    Key { code: k, ctrl: false }
}

fn no_details() -> RepoDetails {
    RepoDetails { recent_commits: vec![], changed_files: vec![], remote_urls: vec![], branches: vec![] }
}

#[test]
fn column_layout_breakpoints() {
    assert_eq!(
        ColumnLayout::from_width(59),
        ColumnLayout { show_branch: false, show_sync: false, show_commit: false }
    );
    assert_eq!(ColumnLayout::from_width(60).headers(), vec!["  Repository", "Branch", "Status"]);
    assert_eq!(ColumnLayout::from_width(80).headers(), vec!["  Repository", "Branch", "Status", "Sync"]);
    assert_eq!(
        ColumnLayout::from_width(100).headers(),
        vec!["  Repository", "Branch", "Status", "Sync", "Last Commit"]
    );
    assert_eq!(ColumnLayout::from_width(10).headers(), vec!["  Repository", "Status"]);
}

#[test]
fn widths_sum_to_100() {
    for w in [0u16, 59, 60, 79, 80, 99, 100, 300] {
        let l = ColumnLayout::from_width(w);
        let widths = l.widths();
        assert_eq!(widths.iter().map(|&x| x as u32).sum::<u32>(), 100);
        assert_eq!(widths.len(), l.headers().len());
    }
    assert_eq!(ColumnLayout::from_width(85).widths(), vec![40, 20, 18, 22]);
    let odd = ColumnLayout { show_branch: false, show_sync: true, show_commit: false };
    assert_eq!(odd.widths(), vec![35, 18, 15, 15, 17]);
}

#[test]
fn status_cell_texts() {
    let mut app = app_with(&["a", "b", "c", "d"]);
    assert_eq!(status_cell(&app.repos[0]), StatusCell::Fetching);
    app.update_repo(&"/p/a".to_string(), Err("e".to_string()), 1);
    app.update_repo(&"/p/b".to_string(), Ok(info(RepoStatus::Dirty, 0, 0, 1)), 1);
    app.update_repo(&"/p/c".to_string(), Ok(info(RepoStatus::Conflicts, 0, 0, 1)), 1);
    app.update_repo(&"/p/d".to_string(), Ok(info(RepoStatus::Clean, 0, 0, 1)), 1);
    assert_eq!(status_cell(&app.repos[0]).text(), "✗ error");
    assert_eq!(status_cell(&app.repos[1]).text(), "● dirty");
    assert_eq!(status_cell(&app.repos[2]).text(), "✖ conflict");
    assert_eq!(status_cell(&app.repos[3]).text(), "● clean");
    assert_eq!(StatusCell::Fetching.text(), "◌ ...");
}

#[test]
fn sync_cell_variants() {
    let mut app = app_with(&["a", "b", "c", "d", "e"]);
    assert!(matches!(sync_cell(&app.repos[4]), SyncCell::Pending));
    app.update_repo(&"/p/a".to_string(), Err("e".to_string()), 1);
    app.update_repo(&"/p/b".to_string(), Ok(info(RepoStatus::Clean, 0, 0, 1)), 1);
    app.update_repo(&"/p/c".to_string(), Ok(info(RepoStatus::Clean, 3, 1, 1)), 1);
    app.update_repo(&"/p/d".to_string(), Ok(info(RepoStatus::Clean, 0, 12, 1)), 1);
    assert!(matches!(sync_cell(&app.repos[0]), SyncCell::Unknown));
    assert!(matches!(sync_cell(&app.repos[1]), SyncCell::Synced));
    match sync_cell(&app.repos[2]) {
        SyncCell::Counts { ahead, behind } => {
            assert_eq!(ahead.as_deref(), Some("↑3"));
            assert_eq!(behind.as_deref(), Some("↓1"));
        }
        _ => panic!("expected counts"),
    }
    match sync_cell(&app.repos[3]) {
        SyncCell::Counts { ahead, behind } => {
            assert_eq!(ahead, None);
            assert_eq!(behind.as_deref(), Some("↓12"));
        }
        _ => panic!("expected counts"),
    }
}

#[test]
fn count_label_texts() {
    let mut app = app_with(&["a", "b", "c"]);
    assert_eq!(count_label(&app), "  3 repos ");
    app.search_query = "b".to_string();
    app.recompute_filtered();
    assert_eq!(count_label(&app), "  1/3 repos ");
}

#[test]
fn age_tone_cases() {
    let mut app = app_with(&["a", "b", "c"]);
    assert_eq!(age_tone(&app, &app.repos[0]), AgeTone::Dim);
    app.update_repo(&"/p/a".to_string(), Ok(info(RepoStatus::Clean, 0, 0, 40 * 86400)), 1);
    app.update_repo(&"/p/b".to_string(), Ok(info(RepoStatus::Clean, 0, 0, 60)), 1);
    assert_eq!(age_tone(&app, &app.repos[0]), AgeTone::Stale);
    assert_eq!(age_tone(&app, &app.repos[1]), AgeTone::Plain);
}

#[test]
fn change_line_parts() {
    assert_eq!(change_line("M src/main.rs"), ('M', "src/main.rs".to_string()));
    assert_eq!(change_line("A x"), ('A', "x".to_string()));
    assert_eq!(change_line("? new"), ('?', "new".to_string()));
    assert_eq!(change_line("X"), ('?', "X".to_string()));
    assert_eq!(change_line("Dé"), ('D', "Dé".to_string()));
    assert_eq!(change_line("éx"), ('?', "x".to_string()));
    assert_eq!(change_line("R "), ('R', "".to_string()));
    assert_eq!(change_line(""), ('?', "".to_string()));
}

#[test]
fn keys_quit_and_back() {
    let mut app = app_with(&["a"]);
    assert!(matches!(app.handle_key(Key { code: KeyCode::Char('c'), ctrl: true }, 0), KeyAction::Quit));
    assert!(matches!(app.handle_key(key('b'), 0), KeyAction::BackToPicker));
    assert!(matches!(app.handle_key(Key { code: KeyCode::Char('b'), ctrl: true }, 0), KeyAction::BackToPicker));
    assert!(matches!(app.handle_key(key('q'), 0), KeyAction::Quit));
    assert!(matches!(app.handle_key(key('c'), 0), KeyAction::Stay));
    assert!(matches!(app.handle_key(key('?'), 0), KeyAction::Stay));
}

#[test]
fn keys_q_and_esc_close_pane_first() {
    let mut app = app_with(&["a"]);
    app.open_detail_pane(no_details());
    assert!(matches!(app.handle_key(key('q'), 0), KeyAction::Stay));
    assert!(app.detail_pane.is_none());
    app.open_detail_pane(no_details());
    assert!(matches!(app.handle_key(code(KeyCode::Esc), 0), KeyAction::Stay));
    assert!(app.detail_pane.is_none());
    app.open_detail_pane(no_details());
    assert!(matches!(app.handle_key(code(KeyCode::Enter), 0), KeyAction::Stay));
    assert!(app.detail_pane.is_none());
}

#[test]
fn keys_esc_clears_filter_then_quits() {
    let mut app = app_with(&["a", "b"]);
    app.handle_key(key('f'), 0);
    assert_eq!(app.status_filter, StatusFilter::Clean);
    assert!(matches!(app.handle_key(code(KeyCode::Esc), 0), KeyAction::Stay));
    assert_eq!(app.status_filter, StatusFilter::All);
    assert_eq!(app.repo_count(), 2);
    assert!(matches!(app.handle_key(code(KeyCode::Esc), 0), KeyAction::Quit));
}

#[test]
fn keys_search_mode_editing() {
    let mut app = app_with(&["alpha", "beta", "gamma"]);
    app.handle_key(key('/'), 0);
    assert_eq!(app.input_mode, InputMode::Search);
    assert_eq!(app.search_query, "");
    app.handle_key(key('a'), 0);
    app.handle_key(key('m'), 0);
    assert_eq!(app.search_query, "am");
    assert_eq!(app.repo_count(), 1);
    app.handle_key(key('q'), 0);
    assert_eq!(app.search_query, "amq");
    assert_eq!(app.repo_count(), 0);
    app.handle_key(code(KeyCode::Backspace), 0);
    assert_eq!(app.search_query, "am");
    assert_eq!(app.repo_count(), 1);
    app.handle_key(code(KeyCode::Enter), 0);
    assert_eq!(app.input_mode, InputMode::Normal);
    assert_eq!(app.search_query, "am");
    app.handle_key(key('/'), 0);
    app.handle_key(key('e'), 0);
    assert!(matches!(app.handle_key(code(KeyCode::Esc), 0), KeyAction::Stay));
    assert_eq!(app.input_mode, InputMode::Normal);
    assert_eq!(app.search_query, "");
    assert_eq!(app.repo_count(), 3);
    app.handle_key(key('/'), 0);
    app.handle_key(code(KeyCode::Backspace), 0);
    assert_eq!(app.search_query, "");
}

#[test]
fn keys_cycle_filter_and_sort() {
    let mut app = app_with(&["a"]);
    app.handle_key(key('s'), 0);
    assert_eq!(app.sort_order, SortOrder::Status);
    app.handle_key(key('f'), 0);
    app.handle_key(key('f'), 0);
    assert_eq!(app.status_filter, StatusFilter::Dirty);
}

#[test]
fn keys_pull_decisions() {
    let mut app = app_with(&["a", "b", "c", "d", "e"]);
    app.update_repo(&"/p/a".to_string(), Ok(info(RepoStatus::Dirty, 0, 2, 1)), 1);
    app.update_repo(&"/p/b".to_string(), Ok(info(RepoStatus::Conflicts, 0, 2, 1)), 1);
    app.update_repo(&"/p/c".to_string(), Ok(info(RepoStatus::Clean, 0, 0, 1)), 1);
    app.update_repo(&"/p/d".to_string(), Ok(info(RepoStatus::Clean, 0, 4, 1)), 1);
    let expected = [
        Some(PullVerdict::Dirty),
        Some(PullVerdict::Conflicts),
        Some(PullVerdict::UpToDate),
        None,
        Some(PullVerdict::UpToDate),
    ];
    for (i, want) in expected.iter().enumerate() {
        app.selected = i;
        match (app.handle_key(key('p'), 0), want) {
            (KeyAction::PullRefused { verdict, name }, Some(v)) => {
                assert_eq!(verdict, *v);
                assert_eq!(name, app.repos[i].display_name);
            }
            (KeyAction::Pull(path), None) => assert_eq!(path, "/p/d"),
            _ => panic!("unexpected action for row {}", i),
        }
    }
    app.update_repo(&"/p/e".to_string(), Err("e".to_string()), 1);
    app.repos[4].behind = 3;
    app.selected = 4;
    assert!(matches!(
        app.handle_key(key('p'), 0),
        KeyAction::PullRefused { verdict: PullVerdict::HasErrors, .. }
    ));
    let mut empty = app_with(&[]);
    assert!(matches!(empty.handle_key(key('p'), 0), KeyAction::Stay));
}

#[test]
fn keys_pull_all() {
    let mut app = app_with(&["a", "b", "c"]);
    assert!(matches!(app.handle_key(key('P'), 0), KeyAction::NothingToPull));
    app.update_repo(&"/p/a".to_string(), Ok(info(RepoStatus::Clean, 0, 2, 1)), 1);
    app.update_repo(&"/p/b".to_string(), Ok(info(RepoStatus::Dirty, 0, 2, 1)), 1);
    app.update_repo(&"/p/c".to_string(), Ok(info(RepoStatus::Clean, 1, 1, 1)), 1);
    match app.handle_key(key('P'), 0) {
        KeyAction::PullAll(paths) => assert_eq!(paths, vec!["/p/a".to_string(), "/p/c".to_string()]),
        _ => panic!("expected pull all"),
    }
}

#[test]
fn keys_refresh_and_detail() {
    let mut app = app_with(&["a", "b"]);
    assert!(matches!(app.handle_key(key('r'), 777), KeyAction::RefreshAll));
    assert_eq!(app.last_full_refresh, Some(777));
    assert_eq!(app.pending_refreshes, 2);
    app.handle_key(code(KeyCode::Down), 0);
    match app.handle_key(code(KeyCode::Enter), 0) {
        KeyAction::LoadDetail(p) => assert_eq!(p, "/p/b"),
        _ => panic!("expected detail load"),
    }
    let mut empty = app_with(&[]);
    assert!(matches!(empty.handle_key(code(KeyCode::Enter), 0), KeyAction::Stay));
}

#[test]
fn keys_navigation_and_pane_scroll() {
    let mut app = app_with(&["a", "b", "c"]);
    app.handle_key(key('j'), 0);
    app.handle_key(code(KeyCode::Down), 0);
    app.handle_key(code(KeyCode::Down), 0);
    assert_eq!(app.selected, 2);
    app.handle_key(key('k'), 0);
    assert_eq!(app.selected, 1);
    app.open_detail_pane(no_details());
    app.handle_key(key('j'), 0);
    app.handle_key(key('j'), 0);
    app.handle_key(code(KeyCode::Up), 0);
    assert_eq!(app.detail_pane.as_ref().unwrap().scroll, 1);
    assert_eq!(app.selected, 1);
}

#[test]
fn keys_help_overlay() {
    let mut app = app_with(&["a"]);
    app.handle_key(key('?'), 0);
    assert_eq!(app.input_mode, InputMode::Help);
    assert_eq!(app.help_scroll, 0);
    app.handle_key(key('k'), 0);
    assert_eq!(app.help_scroll, 0);
    app.handle_key(key('j'), 0);
    app.handle_key(code(KeyCode::Down), 0);
    assert_eq!(app.help_scroll, 2);
    assert!(matches!(app.handle_key(key('q'), 0), KeyAction::Stay));
    assert_eq!(app.input_mode, InputMode::Normal);
    app.handle_key(key('?'), 0);
    assert_eq!(app.help_scroll, 0);
    app.handle_key(key('?'), 0);
    assert_eq!(app.input_mode, InputMode::Normal);
}

#[test]
fn keys_error_info_overlay() {
    let mut app = app_with(&["a", "b"]);
    app.handle_key(key('i'), 0);
    assert_eq!(app.input_mode, InputMode::Normal);
    app.update_repo(&"/p/a".to_string(), Err("fatal: broken".to_string()), 1);
    app.handle_key(key('i'), 0);
    assert_eq!(app.input_mode, InputMode::ErrorInfo);
    assert_eq!(app.error_info_text.as_deref(), Some("fatal: broken"));
    app.handle_key(key('x'), 0);
    assert_eq!(app.input_mode, InputMode::ErrorInfo);
    app.handle_key(code(KeyCode::Enter), 0);
    assert_eq!(app.input_mode, InputMode::Normal);
    assert!(app.error_info_text.is_none());
}

#[test]
fn keys_theme_picker_preview_confirm_cancel() {
    let presets = Theme::presets();
    let mut app = app_with(&["a"]);
    app.handle_key(key('t'), 0);
    assert_eq!(app.input_mode, InputMode::ThemePicker);
    assert_eq!(app.theme_picker_index, 0);
    app.handle_key(key('j'), 0);
    assert_eq!(app.theme_picker_index, 1);
    assert_eq!(app.theme, presets[1].theme);
    app.handle_key(code(KeyCode::Esc), 0);
    assert_eq!(app.input_mode, InputMode::Normal);
    assert_eq!(app.theme, Theme::default());
    app.handle_key(key('t'), 0);
    app.handle_key(key('k'), 0);
    assert_eq!(app.theme_picker_index, 7);
    assert_eq!(app.theme, presets[7].theme);
    match app.handle_key(code(KeyCode::Enter), 0) {
        KeyAction::ThemeChosen(name) => assert_eq!(name, "Matrix"),
        _ => panic!("expected a chosen theme"),
    }
    assert_eq!(app.theme, presets[7].theme);
    app.handle_key(key('t'), 0);
    assert_eq!(app.theme_picker_index, 7);
    app.handle_key(key('j'), 0);
    assert_eq!(app.theme_picker_index, 0);
}

#[test]
fn keys_pull_marks_pulling() {
    let mut app = app_with(&["a", "b"]);
    app.update_repo(&"/p/a".to_string(), Ok(info(RepoStatus::Clean, 0, 2, 1)), 1);
    app.update_repo(&"/p/b".to_string(), Ok(info(RepoStatus::Clean, 0, 3, 1)), 1);
    assert!(matches!(app.handle_key(key('p'), 0), KeyAction::Pull(_)));
    assert!(app.repos[0].pulling);
    assert!(matches!(sync_cell(&app.repos[0]), SyncCell::Pulling));
    assert!(matches!(
        app.handle_key(key('p'), 0),
        KeyAction::PullRefused { verdict: PullVerdict::AlreadyPulling, .. }
    ));
    match app.handle_key(key('P'), 0) {
        KeyAction::PullAll(paths) => assert_eq!(paths, vec!["/p/b".to_string()]),
        _ => panic!("expected pull all"),
    }
    assert!(app.repos[1].pulling);
    assert!(matches!(app.handle_key(key('P'), 0), KeyAction::NothingToPull));
    app.set_pull_result(&"/p/a".to_string(), Ok("Fast-forwarded main".to_string()));
    assert!(!app.repos[0].pulling);
    assert!(matches!(sync_cell(&app.repos[0]), SyncCell::Pulled));
    app.set_pull_result(&"/p/b".to_string(), Err("diverged".to_string()));
    assert!(matches!(sync_cell(&app.repos[1]), SyncCell::PullFailed));
}

#[test]
fn sync_texts() {
    assert_eq!(counts_text(3, 1), "↑3 ↓1");
    assert_eq!(counts_text(0, 5), "↓5");
    assert_eq!(counts_text(2, 0), "↑2");
    assert_eq!(counts_text(0, 0), "✓ synced");
    let mut app = app_with(&["a", "b", "c"]);
    assert_eq!(sync_cell(&app.repos[0]).text(), "...");
    app.update_repo(&"/p/a".to_string(), Ok(info(RepoStatus::Clean, 3, 1, 1)), 1);
    app.update_repo(&"/p/b".to_string(), Ok(info(RepoStatus::Clean, 0, 0, 1)), 1);
    app.update_repo(&"/p/c".to_string(), Err("e".to_string()), 1);
    assert_eq!(sync_cell(&app.repos[0]).text(), "↑3 ↓1");
    assert_eq!(sync_cell(&app.repos[1]).text(), "✓ synced");
    assert_eq!(sync_cell(&app.repos[2]).text(), "—");
    app.set_pulling(&"/p/a".to_string());
    assert_eq!(sync_cell(&app.repos[0]).text(), "↓ pulling...");
    app.set_pull_result(&"/p/a".to_string(), Ok("done".to_string()));
    assert_eq!(sync_cell(&app.repos[0]).text(), "✓ pulled");
    app.set_pull_result(&"/p/a".to_string(), Err("no".to_string()));
    assert_eq!(sync_cell(&app.repos[0]).text(), "✗ pull failed");
}

#[test]
fn footer_marks() {
    let mut app = app_with(&["a", "b", "c"]);
    app.update_repo(&"/p/a".to_string(), Ok(info(RepoStatus::Dirty, 0, 0, 40 * 86400)), 1);
    app.update_repo(&"/p/b".to_string(), Err("e".to_string()), 1);
    assert_eq!(clean_mark(&app), " ● 1 ");
    assert_eq!(dirty_mark(&app), "● 1 ");
    assert_eq!(error_mark(&app), Some("✗ 1 ".to_string()));
    assert_eq!(stale_mark(&app), Some("⏳1 ".to_string()));
    assert_eq!(filter_mark(StatusFilter::All), None);
    assert_eq!(filter_mark(StatusFilter::Behind), Some(" [behind]".to_string()));
    assert_eq!(sort_mark(SortOrder::Name), None);
    assert_eq!(sort_mark(SortOrder::LastCommit), Some(" [↕commit]".to_string()));
    let quiet = app_with(&["x"]);
    assert_eq!(error_mark(&quiet), None);
    assert_eq!(stale_mark(&quiet), None);
}

#[test]
fn branch_and_header_marks() {
    let b = BranchEntry { name: "f".to_string(), is_head: false, upstream_gone: true, is_merged: true };
    assert_eq!(branch_marks(&b), ("  ", Some(" ⚠ upstream gone"), Some(" (merged)")));
    let h = BranchEntry { name: "main".to_string(), is_head: true, upstream_gone: false, is_merged: false };
    assert_eq!(branch_marks(&h), ("* ", None, None));
    assert_eq!(update_notice("v0.7.0"), "↑ 0.7.0 available");
    assert_eq!(update_notice("0.7.0"), "↑ 0.7.0 available");
    assert_eq!(update_notice("vv1"), "↑ v1 available");
}

#[test]
fn huge_stale_days_without_a_stale_test() {
    let mut app = AppState::new("/p".to_string(), 5, u64::MAX, SortOrder::Name);
    for _ in 0..6 {
        app.handle_key(key('f'), 0);
    }
    assert_eq!(app.status_filter, StatusFilter::Stale);
    assert_eq!(app.stale_count(), 0);
    assert!(matches!(app.handle_key(key('p'), 0), KeyAction::Stay));
    assert!(matches!(app.handle_key(key('q'), 0), KeyAction::Quit));
    app.set_repos(vec![]);
    assert_eq!(app.repo_count(), 0);
}

#[test]
fn empty_search_count_matches_counters() {
    let mut app = app_with(&["a", "b", "c", "d"]);
    app.update_repo(&"/p/a".to_string(), Ok(info(RepoStatus::Dirty, 0, 0, 1)), 1);
    app.update_repo(&"/p/b".to_string(), Err("e".to_string()), 1);
    app.update_repo(&"/p/c".to_string(), Ok(info(RepoStatus::Clean, 0, 2, 1)), 1);
    let expected = [4, app.clean_count(), app.dirty_count(), 1, 0, app.error_count(), app.stale_count()];
    for want in expected {
        assert_eq!(app.repo_count(), want);
        app.handle_key(key('f'), 0);
    }
}

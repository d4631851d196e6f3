use gruth::app::{AppState, DetailPane, InputMode, RepoInfo, SortOrder, StatusFilter, ToastLevel};
use gruth::git_ops::{BranchEntry, CommitEntry, GitInfo, RepoDetails, RepoStatus};

fn info(status: RepoStatus, ahead: usize, behind: usize, secs: u64) -> GitInfo {
    GitInfo {
        branch: "main".to_string(),
        status,
        ahead,
        behind,
        last_commit_age: "1h ago".to_string(),
        last_commit_secs: secs,
        branch_count: 1,
    }
}

fn shown_names(app: &AppState) -> Vec<String> {
    app.filtered_indices.iter().map(|&i| app.repos[i].display_name.clone()).collect()
}

fn app_with(names: &[&str]) -> AppState {
    let mut app = AppState::new("/root/p".to_string(), 5, 30, SortOrder::Name);
    let paths: Vec<String> = names.iter().map(|n| format!("/root/p/{}", n)).collect();
    app.set_repos(paths);
    app
}

#[test]
fn status_filter_cycles_through_all_seven() {
    let mut f = StatusFilter::All;
    let mut labels = Vec::new();
    for _ in 0..7 {
        labels.push(f.label());
        f = f.next();
    }
    assert_eq!(labels, vec!["all", "clean", "dirty", "behind", "ahead", "errors", "stale"]);
    assert_eq!(f, StatusFilter::All);
}

#[test]
fn sort_order_labels_round_trip() {
    for o in [SortOrder::Name, SortOrder::Status, SortOrder::LastCommit, SortOrder::Behind] {
        assert_eq!(SortOrder::from_str(o.label()), o);
    }
    assert_eq!(SortOrder::Name.next(), SortOrder::Status);
    assert_eq!(SortOrder::Behind.next(), SortOrder::Name);
    assert_eq!(SortOrder::LastCommit.label(), "commit");
}

#[test]
fn sort_order_from_str_unknown_is_name() {
    assert_eq!(SortOrder::from_str("Status"), SortOrder::Name);
    assert_eq!(SortOrder::from_str(""), SortOrder::Name);
    assert_eq!(SortOrder::from_str("behind"), SortOrder::Behind);
}

#[test]
fn repo_info_new_display_name_relative() {
    let r = RepoInfo::new("/root/p/a/b".to_string(), &"/root/p".to_string());
    assert_eq!(r.display_name, "a/b");
    assert_eq!(r.branch, "...");
    assert_eq!(r.last_commit_age, "...");
    assert!(r.fetching);
    assert_eq!(r.status, RepoStatus::Clean);
    assert!(r.error.is_none());
    assert!(r.last_updated.is_none());
}

#[test]
fn repo_info_new_display_name_root_itself() {
    let r = RepoInfo::new("/root/p".to_string(), &"/root/p".to_string());
    assert_eq!(r.display_name, "p");
    let outside = RepoInfo::new("/other/q".to_string(), &"/root/p".to_string());
    assert_eq!(outside.display_name, "/other/q");
    let top = RepoInfo::new("/".to_string(), &"/".to_string());
    assert_eq!(top.display_name, ".");
}

#[test]
fn repo_info_update_and_error() {
    let mut r = RepoInfo::new("/root/p/a".to_string(), &"/root/p".to_string());
    r.update_from_git_info(info(RepoStatus::Dirty, 2, 3, 7200), 1000);
    assert_eq!(r.status, RepoStatus::Dirty);
    assert_eq!((r.ahead, r.behind), (2, 3));
    assert_eq!(r.last_updated, Some(1000));
    assert!(!r.fetching);
    r.set_error("boom".to_string(), 2000);
    assert_eq!(r.error.as_deref(), Some("boom"));
    assert_eq!(r.last_updated, Some(2000));
    assert_eq!(r.status, RepoStatus::Dirty);
    r.update_from_git_info(info(RepoStatus::Clean, 0, 0, 1), 3000);
    assert!(r.error.is_none());
}

#[test]
fn app_state_new_defaults() {
    let app = AppState::new("/x".to_string(), 5, 30, SortOrder::Status);
    assert!(app.scanning);
    assert!(app.repos.is_empty());
    assert_eq!(app.input_mode, InputMode::Normal);
    assert_eq!(app.status_filter, StatusFilter::All);
    assert_eq!(app.sort_order, SortOrder::Status);
    assert!(app.is_refreshing());
    assert!(!app.should_refresh(0));
}

#[test]
fn set_repos_sorted_by_name() {
    let app = app_with(&["zeta", "alpha", "mid"]);
    assert!(!app.scanning);
    assert_eq!(shown_names(&app), vec!["alpha", "mid", "zeta"]);
    assert_eq!(app.total_count(), 3);
    assert_eq!(app.repo_count(), 3);
}

#[test]
fn update_repo_changes_status_and_pending() {
    let mut app = app_with(&["a", "b"]);
    app.mark_refreshing(100);
    assert_eq!(app.pending_refreshes, 2);
    app.update_repo(&"/root/p/b".to_string(), Ok(info(RepoStatus::Dirty, 0, 1, 10)), 150);
    assert_eq!(app.pending_refreshes, 1);
    assert_eq!(app.repos[1].status, RepoStatus::Dirty);
    assert_eq!(app.repos[1].last_updated, Some(150));
    app.update_repo(&"/root/p/a".to_string(), Err("no repo".to_string()), 160);
    assert_eq!(app.pending_refreshes, 0);
    assert_eq!(app.repos[0].error.as_deref(), Some("no repo"));
    assert!(!app.is_refreshing());
}

#[test]
fn update_repo_unknown_path_still_counts() {
    let mut app = app_with(&["a"]);
    app.update_repo(&"/root/p/none".to_string(), Ok(info(RepoStatus::Dirty, 0, 0, 0)), 5);
    assert_eq!(app.pending_refreshes, 0);
    assert_eq!(app.repos[0].status, RepoStatus::Clean);
    assert!(app.repos[0].fetching);
}

#[test]
fn filter_dirty_and_errors() {
    let mut app = app_with(&["a", "b", "c"]);
    app.update_repo(&"/root/p/a".to_string(), Ok(info(RepoStatus::Dirty, 0, 0, 10)), 1);
    app.update_repo(&"/root/p/b".to_string(), Err("x".to_string()), 1);
    app.update_repo(&"/root/p/c".to_string(), Ok(info(RepoStatus::Clean, 1, 2, 10)), 1);
    app.cycle_filter(); // clean
    assert_eq!(shown_names(&app), vec!["c"]);
    app.cycle_filter(); // dirty
    assert_eq!(shown_names(&app), vec!["a"]);
    app.cycle_filter(); // behind
    assert_eq!(shown_names(&app), vec!["c"]);
    app.cycle_filter(); // ahead
    assert_eq!(shown_names(&app), vec!["c"]);
    app.cycle_filter(); // errors
    assert_eq!(shown_names(&app), vec!["b"]);
    assert_eq!(app.status_filter, StatusFilter::Errors);
}

#[test]
fn search_is_case_insensitive_substring() {
    let mut app = app_with(&["Hero_Lib", "hero_router", "other"]);
    app.search_query = "HERO".to_string();
    app.recompute_filtered();
    assert_eq!(shown_names(&app), vec!["Hero_Lib", "hero_router"]);
    app.search_query = "rout".to_string();
    app.recompute_filtered();
    assert_eq!(shown_names(&app), vec!["hero_router"]);
    app.search_query = "zzz".to_string();
    app.recompute_filtered();
    assert!(shown_names(&app).is_empty());
    assert_eq!(app.selected, 0);
}

#[test]
fn sort_by_status_errors_first() {
    let mut app = app_with(&["clean", "conflict", "dirty", "err"]);
    app.update_repo(&"/root/p/clean".to_string(), Ok(info(RepoStatus::Clean, 0, 0, 1)), 1);
    app.update_repo(&"/root/p/conflict".to_string(), Ok(info(RepoStatus::Conflicts, 0, 0, 1)), 1);
    app.update_repo(&"/root/p/dirty".to_string(), Ok(info(RepoStatus::Dirty, 0, 0, 1)), 1);
    app.update_repo(&"/root/p/err".to_string(), Err("e".to_string()), 1);
    app.cycle_sort();
    assert_eq!(app.sort_order, SortOrder::Status);
    assert_eq!(shown_names(&app), vec!["err", "conflict", "dirty", "clean"]);
}

#[test]
fn sort_by_commit_most_recent_first() {
    let mut app = app_with(&["old", "new", "mid"]);
    app.update_repo(&"/root/p/old".to_string(), Ok(info(RepoStatus::Clean, 0, 0, 900)), 1);
    app.update_repo(&"/root/p/new".to_string(), Ok(info(RepoStatus::Clean, 0, 0, 10)), 1);
    app.update_repo(&"/root/p/mid".to_string(), Ok(info(RepoStatus::Clean, 0, 0, 100)), 1);
    app.sort_order = SortOrder::LastCommit;
    app.recompute_filtered();
    assert_eq!(shown_names(&app), vec!["new", "mid", "old"]);
}

#[test]
fn sort_by_behind_most_behind_first() {
    let mut app = app_with(&["a", "b", "c"]);
    app.update_repo(&"/root/p/a".to_string(), Ok(info(RepoStatus::Clean, 0, 1, 1)), 1);
    app.update_repo(&"/root/p/b".to_string(), Ok(info(RepoStatus::Clean, 0, 5, 1)), 1);
    app.update_repo(&"/root/p/c".to_string(), Ok(info(RepoStatus::Clean, 0, 1, 1)), 1);
    app.sort_order = SortOrder::Behind;
    app.recompute_filtered();
    assert_eq!(shown_names(&app), vec!["b", "a", "c"]);
}

#[test]
fn selection_clamped_after_filter() {
    let mut app = app_with(&["a", "b", "c"]);
    app.selected = 2;
    app.update_repo(&"/root/p/a".to_string(), Ok(info(RepoStatus::Dirty, 0, 0, 1)), 1);
    app.status_filter = StatusFilter::Dirty;
    app.recompute_filtered();
    assert_eq!(app.selected, 0);
    assert_eq!(app.selected_repo().map(|r| r.display_name.clone()), Some("a".to_string()));
}

#[test]
fn select_next_prev_bounds() {
    let mut app = app_with(&["a", "b"]);
    app.select_prev();
    assert_eq!(app.selected, 0);
    app.select_next();
    assert_eq!(app.selected, 1);
    app.select_next();
    assert_eq!(app.selected, 1);
    let mut empty = app_with(&[]);
    empty.select_next();
    assert_eq!(empty.selected, 0);
    assert!(empty.selected_repo().is_none());
}

#[test]
fn should_refresh_timing() {
    let mut app = app_with(&["a"]);
    assert!(app.should_refresh(0));
    app.mark_refreshing(10_000);
    assert!(!app.should_refresh(14_999));
    assert!(app.should_refresh(15_000));
    assert!(!app.should_refresh(5_000));
}

#[test]
fn mark_refreshing_sets_pending() {
    let mut app = app_with(&["a", "b", "c"]);
    app.mark_refreshing(42);
    assert_eq!(app.last_full_refresh, Some(42));
    assert_eq!(app.pending_refreshes, 3);
    assert!(app.is_refreshing());
}

#[test]
fn spinner_frames_cycle() {
    let mut app = app_with(&[]);
    assert_eq!(app.spinner(), "⠋");
    for _ in 0..9 {
        app.tick();
    }
    assert_eq!(app.spinner(), "⠏");
    app.tick();
    assert_eq!(app.spinner(), "⠋");
    app.tick = usize::MAX;
    app.tick();
    assert_eq!(app.tick, 0);
}

#[test]
fn stale_detection_threshold() {
    let mut app = app_with(&["a", "b", "c"]);
    app.update_repo(&"/root/p/a".to_string(), Ok(info(RepoStatus::Clean, 0, 0, 30 * 86400)), 1);
    app.update_repo(&"/root/p/b".to_string(), Ok(info(RepoStatus::Clean, 0, 0, 30 * 86400 - 1)), 1);
    assert!(app.is_stale(&app.repos[0]));
    assert!(!app.is_stale(&app.repos[1]));
    assert!(!app.is_stale(&app.repos[2]));
    assert_eq!(app.stale_count(), 1);
    app.status_filter = StatusFilter::Stale;
    app.recompute_filtered();
    assert_eq!(shown_names(&app), vec!["a"]);
}

#[test]
fn zero_stale_days_needs_a_commit_age() {
    let mut app = AppState::new("/root/p".to_string(), 5, 0, SortOrder::Name);
    app.set_repos(vec!["/root/p/a".to_string()]);
    assert!(!app.is_stale(&app.repos[0]));
    app.update_repo(&"/root/p/a".to_string(), Ok(info(RepoStatus::Clean, 0, 0, 1)), 1);
    assert!(app.is_stale(&app.repos[0]));
}

#[test]
fn counts_clean_dirty_error() {
    let mut app = app_with(&["a", "b", "c", "d"]);
    app.update_repo(&"/root/p/a".to_string(), Ok(info(RepoStatus::Dirty, 0, 0, 1)), 1);
    app.update_repo(&"/root/p/b".to_string(), Err("e".to_string()), 1);
    assert_eq!(app.clean_count(), 2);
    assert_eq!(app.dirty_count(), 1);
    assert_eq!(app.error_count(), 1);
    assert!(app.repo_count() <= app.total_count());
}

#[test]
fn detail_pane_open_close_scroll() {
    let mut app = app_with(&["a", "b"]);
    app.select_next();
    let details = RepoDetails {
        recent_commits: vec![CommitEntry {
            message: "m".to_string(),
            author: "x".to_string(),
            date: "d".to_string(),
        }],
        changed_files: vec!["M f".to_string()],
        remote_urls: vec![("origin".to_string(), "u".to_string())],
        branches: vec![BranchEntry {
            name: "main".to_string(),
            is_head: true,
            upstream_gone: false,
            is_merged: false,
        }],
    };
    app.open_detail_pane(details);
    let pane: &DetailPane = app.detail_pane.as_ref().unwrap();
    assert_eq!(pane.display_name, "b");
    assert_eq!(pane.scroll, 0);
    assert_eq!(pane.commits.len(), 1);
    let pane = app.detail_pane.as_mut().unwrap();
    pane.scroll_up();
    assert_eq!(pane.scroll, 0);
    pane.scroll_down();
    pane.scroll_down();
    assert_eq!(pane.scroll, 2);
    pane.scroll = usize::MAX;
    pane.scroll_down();
    assert_eq!(pane.scroll, usize::MAX);
    app.close_detail_pane();
    assert!(app.detail_pane.is_none());
}

#[test]
fn open_detail_pane_without_selection_does_nothing() {
    let mut app = app_with(&[]);
    app.open_detail_pane(RepoDetails {
        recent_commits: vec![],
        changed_files: vec![],
        remote_urls: vec![],
        branches: vec![],
    });
    assert!(app.detail_pane.is_none());
}

#[test]
fn reconcile_keeps_state_adds_and_drops() {
    let mut app = app_with(&["a", "b"]);
    app.update_repo(&"/root/p/a".to_string(), Ok(info(RepoStatus::Dirty, 1, 0, 5)), 9);
    app.reconcile_repos(vec!["/root/p/a".to_string(), "/root/p/c".to_string()]);
    assert_eq!(app.repos.len(), 2);
    assert_eq!(app.repos[0].status, RepoStatus::Dirty);
    assert_eq!(app.repos[0].last_updated, Some(9));
    assert!(!app.repos[0].fetching);
    assert_eq!(app.repos[1].display_name, "c");
    assert!(app.repos[1].fetching);
    assert_eq!(shown_names(&app), vec!["a", "c"]);
}

#[test]
fn goes_behind_only_from_synced() {
    let mut app = app_with(&["a"]);
    assert!(!app.repos[0].goes_behind(&Ok(info(RepoStatus::Clean, 0, 2, 1))));
    app.update_repo(&"/root/p/a".to_string(), Ok(info(RepoStatus::Clean, 0, 0, 1)), 1);
    assert!(app.repos[0].goes_behind(&Ok(info(RepoStatus::Clean, 0, 2, 1))));
    assert!(!app.repos[0].goes_behind(&Ok(info(RepoStatus::Clean, 0, 0, 1))));
    assert!(!app.repos[0].goes_behind(&Err("x".to_string())));
    app.update_repo(&"/root/p/a".to_string(), Ok(info(RepoStatus::Clean, 0, 1, 1)), 2);
    assert!(!app.repos[0].goes_behind(&Ok(info(RepoStatus::Clean, 0, 3, 1))));
}

#[test]
fn filtered_view_depends_only_on_query_filter_and_order() {
    let mut a = app_with(&["b", "a", "c"]);
    let mut b = app_with(&["b", "a", "c"]);
    a.cycle_sort();
    a.cycle_sort();
    a.cycle_sort();
    a.cycle_sort();
    b.search_query = "x".to_string();
    b.recompute_filtered();
    b.search_query = String::new();
    b.recompute_filtered();
    assert_eq!(a.sort_order, b.sort_order);
    assert_eq!(a.filtered_indices, b.filtered_indices);
}

#[test]
fn toasts_expire_after_five_seconds() {
    let mut app = app_with(&[]);
    assert!(app.active_toast().is_none());
    app.toast("first".to_string(), ToastLevel::Info, 1000);
    app.toast("second".to_string(), ToastLevel::Error, 3000);
    assert_eq!(app.active_toast().unwrap().message, "second");
    app.expire_toasts(5999);
    assert_eq!(app.toasts.len(), 2);
    app.expire_toasts(6000);
    assert_eq!(app.toasts.len(), 1);
    assert_eq!(app.toasts[0].message, "second");
    assert_eq!(app.toasts[0].level, ToastLevel::Error);
    app.expire_toasts(8000);
    assert!(app.active_toast().is_none());
}

#[test]
fn on_tick_starts_refresh_when_due() {
    let mut empty = app_with(&[]);
    assert!(!empty.on_tick(0));
    assert_eq!(empty.tick, 1);
    let mut app = app_with(&["a", "b"]);
    app.toast("old".to_string(), ToastLevel::Info, 0);
    assert!(app.on_tick(100));
    assert_eq!(app.last_full_refresh, Some(100));
    assert_eq!(app.pending_refreshes, 2);
    assert!(!app.on_tick(4_000));
    assert_eq!(app.toasts.len(), 1);
    assert!(app.on_tick(5_100));
    assert!(app.toasts.is_empty());
    assert_eq!(app.last_full_refresh, Some(5_100));
}

#[test]
fn scan_and_rescan_results() {
    let mut app = AppState::new("/root/p".to_string(), 5, 30, SortOrder::Name);
    assert!(!app.on_scan_complete(vec![], 10));
    assert!(!app.scanning);
    assert_eq!(app.last_full_refresh, None);
    assert!(app.on_scan_complete(vec!["/root/p/a".to_string(), "/root/p/b".to_string()], 20));
    assert_eq!(app.last_full_refresh, Some(20));
    assert_eq!(app.pending_refreshes, 2);
    app.update_repo(&"/root/p/a".to_string(), Ok(info(RepoStatus::Dirty, 0, 0, 1)), 30);
    app.on_rescan_complete(vec!["/root/p/a".to_string(), "/root/p/c".to_string(), "/root/p/d".to_string()]);
    assert_eq!(app.pending_refreshes, 3);
    assert_eq!(app.repos[0].status, RepoStatus::Dirty);
    assert_eq!(shown_names(&app), vec!["a", "c", "d"]);
}

#[test]
fn repo_updated_names_repos_that_fall_behind() {
    let mut app = app_with(&["a"]);
    assert_eq!(app.on_repo_updated(&"/root/p/a".to_string(), Ok(info(RepoStatus::Clean, 0, 2, 1)), 1), None);
    app.update_repo(&"/root/p/a".to_string(), Ok(info(RepoStatus::Clean, 0, 0, 1)), 2);
    assert_eq!(
        app.on_repo_updated(&"/root/p/a".to_string(), Ok(info(RepoStatus::Clean, 0, 2, 1)), 3),
        Some("a".to_string())
    );
    assert_eq!(app.repos[0].behind, 2);
    assert_eq!(app.on_repo_updated(&"/root/p/x".to_string(), Ok(info(RepoStatus::Clean, 0, 2, 1)), 4), None);
}

#[test]
fn detail_loaded_only_for_selected_repo() {
    let mut app = app_with(&["a", "b"]);
    let empty = || RepoDetails { recent_commits: vec![], changed_files: vec![], remote_urls: vec![], branches: vec![] };
    app.on_detail_loaded(&"/root/p/b".to_string(), Ok(empty()));
    assert!(app.detail_pane.is_none());
    app.on_detail_loaded(&"/root/p/a".to_string(), Err("x".to_string()));
    assert!(app.detail_pane.is_none());
    app.on_detail_loaded(&"/root/p/a".to_string(), Ok(empty()));
    assert_eq!(app.detail_pane.as_ref().unwrap().display_name, "a");
}

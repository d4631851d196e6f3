use gruth::git_ops::RepoStatus;
use gruth::scanner::{PendingDir, RepoScan, ScanEntry};
use gruth::sync::{skip_label, sync_display, sync_step, SyncOutcome, SyncStep, SyncTally};
use std::collections::BTreeMap;

struct Dir {
    git: bool,
    children: Vec<ScanEntryDesc>,
}

#[derive(Clone)]
struct ScanEntryDesc {
    name: &'static str,
    is_dir: bool,
    is_symlink: Option<bool>,
}

fn d(name: &'static str) -> ScanEntryDesc {
    ScanEntryDesc { name, is_dir: true, is_symlink: Some(false) }
}

fn run(tree: &BTreeMap<String, Dir>, root: &str, max_depth: usize, excluded: Vec<String>) -> (Vec<String>, Vec<String>) {
    let mut scan = RepoScan::new(root.to_string(), max_depth, excluded);
    let mut visited = Vec::new();
    while let Some(dir) = scan.next_dir() {
        visited.push(dir.path.clone());
        let (git, entries) = match tree.get(&dir.path) {
            Some(node) => (
                node.git,
                Some(
                    node.children
                        .iter()
                        .map(|c| ScanEntry {
                            name: c.name.to_string(),
                            path: format!("{}/{}", dir.path, c.name),
                            is_dir: c.is_dir,
                            is_symlink: c.is_symlink,
                        })
                        .collect(),
                ),
            ),
            None => (false, None),
        };
        scan.visit(PendingDir { path: dir.path, depth: dir.depth }, git, entries);
    }
    (scan.finish(), visited)
}

fn tree() -> BTreeMap<String, Dir> {
    let mut t = BTreeMap::new();
    let mut link = d("link");
    link.is_symlink = Some(true);
    let mut file = d("README");
    file.is_dir = false;
    t.insert(
        "/r".to_string(),
        Dir { git: true, children: vec![d("a"), d("a-b"), d(".hidden"), d("node_modules"), link, file] },
    );
    t.insert("/r/a".to_string(), Dir { git: true, children: vec![d("b"), d("deep")] });
    t.insert("/r/a/b".to_string(), Dir { git: true, children: vec![] });
    t.insert("/r/a/deep".to_string(), Dir { git: false, children: vec![d("x")] });
    t.insert("/r/a/deep/x".to_string(), Dir { git: true, children: vec![] });
    t.insert("/r/a-b".to_string(), Dir { git: true, children: vec![] });
    t.insert("/r/.hidden".to_string(), Dir { git: true, children: vec![] });
    t.insert("/r/node_modules".to_string(), Dir { git: true, children: vec![] });
    t.insert("/r/link".to_string(), Dir { git: true, children: vec![] });
    t
}

#[test]
fn scan_records_repos_below_root_in_path_order() {
    let (found, _) = run(&tree(), "/r", 10, vec!["node_*".to_string()]);
    assert_eq!(found, vec!["/r/a", "/r/a/b", "/r/a/deep/x", "/r/a-b"]);
}

#[test]
fn scan_respects_depth() {
    let (found, visited) = run(&tree(), "/r", 1, vec!["node_*".to_string()]);
    assert_eq!(found, vec!["/r/a", "/r/a-b"]);
    assert!(!visited.contains(&"/r/a/b".to_string()));
    let (none, _) = run(&tree(), "/r", 0, vec![]);
    assert!(none.is_empty());
}

#[test]
fn scan_skips_hidden_excluded_symlink() {
    let (found, visited) = run(&tree(), "/r", 10, vec!["node_modules".to_string()]);
    assert!(!visited.contains(&"/r/.hidden".to_string()));
    assert!(!visited.contains(&"/r/node_modules".to_string()));
    assert!(!visited.contains(&"/r/link".to_string()));
    assert!(!found.contains(&"/r".to_string()));
}

#[test]
fn scan_invalid_pattern_ignored() {
    let (found, _) = run(&tree(), "/r", 10, vec!["[".to_string(), "***".to_string()]);
    assert!(found.contains(&"/r/node_modules".to_string()));
}

#[test]
fn scan_unknown_file_type_still_descends() {
    let mut t = BTreeMap::new();
    let mut odd = d("odd");
    odd.is_symlink = None;
    t.insert("/r".to_string(), Dir { git: false, children: vec![odd] });
    t.insert("/r/odd".to_string(), Dir { git: true, children: vec![] });
    let (found, _) = run(&t, "/r", 3, vec![]);
    assert_eq!(found, vec!["/r/odd"]);
}

#[test]
fn scan_visit_beyond_depth_does_nothing() {
    let mut scan = RepoScan::new("/r".to_string(), 1, vec![]);
    let root = scan.next_dir().unwrap();
    assert_eq!(root.depth, 0);
    scan.visit(PendingDir { path: "/r/far/away".to_string(), depth: 2 }, true, Some(vec![]));
    assert!(scan.found.is_empty());
    assert!(scan.pending.is_empty());
}

#[test]
fn sync_step_decisions() {
    assert_eq!(sync_step(RepoStatus::Dirty, 3), SyncStep::Skip { conflicts: false });
    assert_eq!(sync_step(RepoStatus::Conflicts, 0), SyncStep::Skip { conflicts: true });
    assert_eq!(sync_step(RepoStatus::Clean, 0), SyncStep::UpToDate);
    assert_eq!(sync_step(RepoStatus::Clean, 2), SyncStep::Pull);
    assert_eq!(skip_label(true), "conflicts");
    assert_eq!(skip_label(false), "dirty");
}

#[test]
fn sync_tally_counts() {
    let mut t = SyncTally::new();
    for o in [
        SyncOutcome::FetchFailed,
        SyncOutcome::InfoFailed,
        SyncOutcome::PullFailed,
        SyncOutcome::Skipped,
        SyncOutcome::UpToDate,
        SyncOutcome::UpToDate,
        SyncOutcome::Pulled,
    ] {
        t.record(o);
    }
    assert_eq!(t, SyncTally { synced: 1, up_to_date: 2, skipped: 1, errors: 3 });
}

#[test]
fn sync_display_relative() {
    assert_eq!(sync_display(&"/r/a/b".to_string(), &"/r".to_string()), "a/b");
    assert_eq!(sync_display(&"/elsewhere/x".to_string(), &"/r".to_string()), "/elsewhere/x");
    assert_eq!(sync_display(&"/rx/y".to_string(), &"/r".to_string()), "/rx/y");
}

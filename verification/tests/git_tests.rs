use gruth::git_ops::{FIRST_DATETIME_SECS, LAST_DATETIME_SECS};
use gruth::git_ops::{
    branch_entry, branch_label, branch_ref, changed_files, commit_entry, credential_method,
    fast_forward_message, format_duration, last_commit_age, pull_step, ssh_user, status_of,
    CredentialMethod, HeadState, PullStep, RepoStatus, StatusEntry, StatusFlags,
};

fn flags() -> StatusFlags {
    StatusFlags {
        conflicted: false,
        ignored: false,
        index_new: false,
        wt_new: false,
        index_modified: false,
        wt_modified: false,
        index_deleted: false,
        wt_deleted: false,
        index_renamed: false,
        wt_renamed: false,
    }
}

#[test]
fn format_duration_units() {
    assert_eq!(format_duration(0), "0s ago");
    assert_eq!(format_duration(59), "59s ago");
    assert_eq!(format_duration(60), "1m ago");
    assert_eq!(format_duration(3599), "59m ago");
    assert_eq!(format_duration(3600), "1h ago");
    assert_eq!(format_duration(86399), "23h ago");
    assert_eq!(format_duration(86400), "1d ago");
    assert_eq!(format_duration(604799), "6d ago");
    assert_eq!(format_duration(604800), "1w ago");
    assert_eq!(format_duration(2591999), "4w ago");
    assert_eq!(format_duration(2592000), "1mo ago");
    assert_eq!(format_duration(u64::MAX), format!("{}mo ago", u64::MAX / 2592000));
}

#[test]
fn last_commit_age_cases() {
    assert_eq!(last_commit_age(Some(1000), 1000 + 7200), ("2h ago".to_string(), 7200));
    assert_eq!(last_commit_age(Some(5000), 1000), ("0s ago".to_string(), 0));
    assert_eq!(last_commit_age(None, 1000), ("n/a".to_string(), 0));
    assert_eq!(last_commit_age(Some(i64::MAX), 0), ("n/a".to_string(), 0));
}

#[test]
fn branch_label_cases() {
    assert_eq!(branch_label(HeadState::Branch(Some("main".to_string()))), "main");
    assert_eq!(branch_label(HeadState::Branch(None)), "unknown");
    assert_eq!(branch_label(HeadState::Detached(Some("0123456789abcdef".to_string()))), "0123456");
    assert_eq!(branch_label(HeadState::Detached(Some("abc".to_string()))), "abc");
    assert_eq!(branch_label(HeadState::Detached(None)), "detached");
    assert_eq!(branch_label(HeadState::Missing), "no HEAD");
}

#[test]
fn status_of_cases() {
    assert_eq!(status_of(&vec![]), RepoStatus::Clean);
    let mut ignored = flags();
    ignored.ignored = true;
    assert_eq!(status_of(&vec![StatusEntry { path: None, flags: ignored }]), RepoStatus::Clean);
    let mut changed = flags();
    changed.wt_modified = true;
    let mut conflict = flags();
    conflict.conflicted = true;
    assert_eq!(
        status_of(&vec![StatusEntry { path: None, flags: changed }, StatusEntry { path: None, flags: ignored }]),
        RepoStatus::Dirty
    );
    assert_eq!(
        status_of(&vec![StatusEntry { path: None, flags: changed }, StatusEntry { path: None, flags: conflict }]),
        RepoStatus::Conflicts
    );
}

#[test]
fn changed_files_lines() {
    let mut added = flags();
    added.wt_new = true;
    let mut modified = flags();
    modified.index_modified = true;
    let mut deleted = flags();
    deleted.wt_deleted = true;
    let mut renamed = flags();
    renamed.index_renamed = true;
    let mut both = flags();
    both.index_new = true;
    both.wt_modified = true;
    let entries = vec![
        StatusEntry { path: Some("a.rs".to_string()), flags: added },
        StatusEntry { path: Some("b.rs".to_string()), flags: modified },
        StatusEntry { path: None, flags: modified },
        StatusEntry { path: Some("c.rs".to_string()), flags: deleted },
        StatusEntry { path: Some("d.rs".to_string()), flags: renamed },
        StatusEntry { path: Some("e.rs".to_string()), flags: flags() },
        StatusEntry { path: Some("f.rs".to_string()), flags: both },
    ];
    assert_eq!(changed_files(&entries), vec!["A a.rs", "M b.rs", "D c.rs", "R d.rs", "? e.rs", "A f.rs"]);
}

#[test]
fn commit_entry_fields() {
    let c = commit_entry(Some("subject\n\nbody".to_string()), Some("Ann".to_string()), 0);
    assert_eq!(c.message, "subject");
    assert_eq!(c.author, "Ann");
    assert_eq!(c.date, "1970-01-01 00:00");
    let d = commit_entry(None, None, 86400 + 3661);
    assert_eq!(d.message, "");
    assert_eq!(d.author, "unknown");
    assert_eq!(d.date, "1970-01-02 01:01");
    let e = commit_entry(Some("only".to_string()), None, i64::MAX);
    assert_eq!(e.date, "unknown");
}

#[test]
fn branch_entry_merged() {
    let b = branch_entry(Some("feature".to_string()), false, true, Some(true));
    assert_eq!(b.name, "feature");
    assert!(b.upstream_gone);
    assert!(b.is_merged);
    let h = branch_entry(None, true, false, Some(true));
    assert_eq!(h.name, "unknown");
    assert!(!h.is_merged);
    assert!(!branch_entry(None, false, false, None).is_merged);
}

#[test]
fn credential_method_order() {
    assert_eq!(credential_method(true, true), CredentialMethod::SshAgent);
    assert_eq!(credential_method(false, true), CredentialMethod::Default);
    assert_eq!(credential_method(false, false), CredentialMethod::Refuse);
    assert_eq!(ssh_user(None), "git");
    assert_eq!(ssh_user(Some("me".to_string())), "me");
}

#[test]
fn pull_step_cases() {
    assert_eq!(pull_step(true, false), PullStep::UpToDate);
    assert_eq!(pull_step(true, true), PullStep::UpToDate);
    assert_eq!(pull_step(false, false), PullStep::Diverged);
    assert_eq!(pull_step(false, true), PullStep::FastForward);
    assert_eq!(branch_ref("main"), "refs/heads/main");
    assert_eq!(fast_forward_message("dev"), "Fast-forwarded dev");
}

#[test]
fn commit_time_range_bounds() {
    assert!(chrono::DateTime::from_timestamp(FIRST_DATETIME_SECS, 0).is_some());
    assert!(chrono::DateTime::from_timestamp(FIRST_DATETIME_SECS - 1, 0).is_none());
    assert!(chrono::DateTime::from_timestamp(LAST_DATETIME_SECS, 0).is_some());
    assert!(chrono::DateTime::from_timestamp(LAST_DATETIME_SECS + 1, 0).is_none());
    assert_eq!(last_commit_age(Some(LAST_DATETIME_SECS + 1), 0), ("n/a".to_string(), 0));
    assert_eq!(last_commit_age(Some(LAST_DATETIME_SECS), LAST_DATETIME_SECS), ("0s ago".to_string(), 0));
    assert_eq!(commit_entry(None, None, FIRST_DATETIME_SECS - 1).date, "unknown");
    assert_eq!(commit_entry(None, None, FIRST_DATETIME_SECS).date, "-262143-01-01 00:00");
}

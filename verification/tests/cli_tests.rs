use gruth::app::SortOrder;
use gruth::cli::{resolve_settings, Args, Command};
use gruth::config::Config;

fn no_args() -> Args {
    Args { command: None, sync: false, depth: None, interval: None, path: None, stale_days: None }
}

#[test]
fn resolve_settings_defaults() {
    let s = resolve_settings(&no_args(), &Config::default());
    assert_eq!(s.depth, 10);
    assert_eq!(s.interval_secs, 5);
    assert_eq!(s.stale_days, 30);
    assert_eq!(s.default_sort, SortOrder::Name);
    assert!(s.notifications);
    assert!(s.excluded.is_empty());
}

#[test]
fn resolve_settings_config_values() {
    let mut c = Config::default();
    c.depth = Some(5);
    c.interval = Some(10);
    c.stale_days = Some(14);
    c.default_sort = Some("behind".to_string());
    c.notifications = Some(false);
    c.excluded_paths = Some(vec!["node_modules".to_string(), "target".to_string()]);
    let s = resolve_settings(&no_args(), &c);
    assert_eq!((s.depth, s.interval_secs, s.stale_days), (5, 10, 14));
    assert_eq!(s.default_sort, SortOrder::Behind);
    assert!(!s.notifications);
    assert_eq!(s.excluded, vec!["node_modules".to_string(), "target".to_string()]);
}

#[test]
fn resolve_settings_cli_overrides_config() {
    let mut c = Config::default();
    c.depth = Some(5);
    c.interval = Some(10);
    c.stale_days = Some(14);
    let mut a = no_args();
    a.depth = Some(2);
    a.interval = Some(1);
    a.stale_days = Some(7);
    a.command = Some(Command::Version);
    let s = resolve_settings(&a, &c);
    assert_eq!((s.depth, s.interval_secs, s.stale_days), (2, 1, 7));
}

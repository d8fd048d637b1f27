use neocash::commands::is_missing_file_error;
use neocash::commands::plan_command;
use neocash::commands::CommandAction;
use neocash::version::check_cache;
use neocash::version::compare_versions;
use neocash::version::first_result_version;
use neocash::version::format_cache_entry;
use neocash::version::get_base_version_str;
use neocash::version::update_status;
use neocash::version::SemVersion;
use neocash::version::UpdateStatus;

#[test]
fn base_version_extraction() {
    assert_eq!(get_base_version_str("1.2.3-r1"), "1.2.3");
    assert_eq!(get_base_version_str("1.2.3"), "1.2.3");
    assert_eq!(get_base_version_str("1.0-beta-2"), "1.0");
    assert_eq!(get_base_version_str(""), "");
}

#[test]
fn update_status_order() {
    let v = |major, minor, patch| SemVersion { major, minor, patch };
    assert_eq!(update_status(v(1, 0, 0), v(1, 0, 1)), UpdateStatus::UpdateAvailable);
    assert_eq!(update_status(v(1, 2, 0), v(1, 1, 9)), UpdateStatus::LocalNewer);
    assert_eq!(update_status(v(2, 0, 0), v(2, 0, 0)), UpdateStatus::UpToDate);
    assert_eq!(update_status(v(0, 9, 9), v(1, 0, 0)), UpdateStatus::UpdateAvailable);
}

#[test]
fn version_comparison_parses() {
    assert_eq!(compare_versions("1.0.0", "1.0.1-r2"), UpdateStatus::UpdateAvailable);
    assert_eq!(compare_versions("1.2.3-r1", "1.2.3"), UpdateStatus::UpToDate);
    assert_eq!(compare_versions("2.0.0", "1.9.9"), UpdateStatus::LocalNewer);
    // an unparsable version counts as 0.0.0
    assert_eq!(compare_versions("unknown", "0.0.1"), UpdateStatus::UpdateAvailable);
}

#[test]
fn cache_freshness() {
    let now = 1_000_000;
    assert_eq!(check_cache("999999|1.2.3-r1", now, "1.2.3"), Some("1.2.3-r1".to_string()));
    assert_eq!(check_cache("996401|1.2.3", now, "1.2.3"), Some("1.2.3".to_string()));
    // exactly an hour old is stale
    assert_eq!(check_cache("996400|1.2.3", now, "1.2.3"), None);
    // a timestamp in the future is refused
    assert_eq!(check_cache("1000001|1.2.3", now, "1.2.3"), None);
    // a different base version forces a refresh
    assert_eq!(check_cache("999999|1.2.4", now, "1.2.3"), None);
    assert_eq!(check_cache("nonsense", now, "1.2.3"), None);
    assert_eq!(check_cache("abc|1.2.3", now, "1.2.3"), None);
}

#[test]
fn cache_entry_format() {
    assert_eq!(format_cache_entry(12345, "1.2.3-r1"), "12345|1.2.3-r1");
}

#[test]
fn release_lookup_result() {
    assert_eq!(
        first_result_version(vec!["1.0.1-1".to_string(), "0.9.0".to_string()]),
        Ok("1.0.1-1".to_string())
    );
    assert_eq!(
        first_result_version(Vec::new()),
        Err("Package 'neocash' not found in AUR".to_string())
    );
}

#[test]
fn plan_builtins() {
    assert!(matches!(plan_command(""), CommandAction::DoNothing));
    assert!(matches!(plan_command("   "), CommandAction::DoNothing));
    assert!(matches!(plan_command("exit"), CommandAction::Exit));
    assert!(matches!(plan_command("cd"), CommandAction::ChangeDir(t) if t == "~"));
    assert!(matches!(plan_command("cd /tmp"), CommandAction::ChangeDir(t) if t == "/tmp"));
    assert!(matches!(plan_command("edit"), CommandAction::EditMissingFile));
    assert!(matches!(plan_command("edit f.txt"), CommandAction::Edit(f) if f == "f.txt"));
}

#[test]
fn plan_system_commands() {
    match plan_command("ls -la /tmp") {
        CommandAction::RunSystem(parts) => assert_eq!(parts, vec!["ls", "-la", "/tmp"]),
        _ => panic!("expected a spawned command"),
    }
    // `exit` only counts as the first token
    match plan_command("echo exit") {
        CommandAction::RunSystem(parts) => assert_eq!(parts, vec!["echo", "exit"]),
        _ => panic!("expected a spawned command"),
    }
}

#[test]
fn missing_file_report() {
    assert!(is_missing_file_error("No such file or directory (os error 2)"));
    assert!(!is_missing_file_error("Permission denied"));
}

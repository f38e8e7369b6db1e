use herdr_tab_title::config::{Config, default_format};
use herdr_tab_title::debounce::{DebounceError, Debouncer, debounce_marker_file};
use herdr_tab_title::herdr::client::{HerdrClient, HerdrError};
use herdr_tab_title::herdr::commands::{
    command_text, focus_tab_args, list_tabs_args, list_workspaces_args, rename_tab_args,
};
use herdr_tab_title::refresh_lock::{
    RefreshLockError, clock_millis, deadline_marker, marker_is_current, refresh_lock_marker_file, unix_ms,
};
use herdr_tab_title::text::{decimal_string, str_equal};

#[test]
fn default_config_numbers_with_a_dot() {
    assert_eq!(Config::default().format, "{index}. {title}");
    assert_eq!(default_format(), "{index}. {title}");
}

#[test]
fn command_arguments() {
    assert_eq!(list_tabs_args(), vec!["tab", "list"]);
    assert_eq!(
        rename_tab_args("w1:t2", "2. Editor 3.5"),
        vec!["tab", "rename", "w1:t2", "2. Editor 3.5"]
    );
    assert_eq!(focus_tab_args("w1:t2"), vec!["tab", "focus", "w1:t2"]);
    assert_eq!(list_workspaces_args(), vec!["workspace", "list"]);
    assert_eq!(
        command_text("herdr", &rename_tab_args("t", "a b")),
        "herdr tab rename t a b"
    );
    assert_eq!(command_text("herdr", &[]), "herdr ");
}

#[test]
fn client_keeps_its_binary() {
    let client = HerdrClient::new(std::path::PathBuf::from("/usr/bin/herdr"));

    assert_eq!(client.bin(), &std::path::PathBuf::from("/usr/bin/herdr"));
}

#[test]
fn herdr_errors_read_as_sentences() {
    let failed = HerdrError::Failed {
        command: "herdr tab list".to_string(),
        status: Some(-3),
        stderr: "boom".to_string(),
    };
    assert_eq!(
        failed.message(),
        "herdr command failed (herdr tab list, status Some(-3)): boom"
    );
    let killed = HerdrError::Failed {
        command: "herdr".to_string(),
        status: None,
        stderr: String::new(),
    };
    assert_eq!(killed.message(), "herdr command failed (herdr, status None): ");
    let spawn = HerdrError::Spawn(std::io::Error::new(std::io::ErrorKind::NotFound, "gone"));
    assert_eq!(spawn.message(), "failed to run herdr: gone");
    let json = HerdrError::Json(serde_json::from_str::<u8>("x").unwrap_err());
    assert!(json.message().starts_with("failed to parse herdr JSON: "));
}

#[test]
fn decimals_and_equality() {
    assert_eq!(decimal_string(0), "0");
    assert_eq!(decimal_string(7), "7");
    assert_eq!(decimal_string(10), "10");
    assert_eq!(decimal_string(u128::MAX), u128::MAX.to_string());
    assert!(str_equal("abc", "abc"));
    assert!(!str_equal("abc", "abd"));
    assert!(!str_equal("ab", "abc"));
    assert!(str_equal("", ""));
}

#[test]
fn debouncer_is_ready_once_the_delay_has_passed() {
    const MS: u128 = 1_000_000;
    let mut debouncer = Debouncer::new(100);
    assert!(!debouncer.is_ready_at(1_000 * MS));
    debouncer.trigger_at(50 * MS + 7);
    assert!(!debouncer.is_ready_at(150 * MS + 6));
    assert!(debouncer.is_ready_at(150 * MS + 7));
    debouncer.trigger_at(120 * MS);
    assert!(!debouncer.is_ready_at(150 * MS + 7));
    assert!(debouncer.is_ready_at(220 * MS));
    debouncer.clear();
    assert!(!debouncer.is_ready_at(10_000 * MS));
    debouncer.trigger_at(u128::MAX - 5);
    assert!(debouncer.is_ready_at(u128::MAX));
}

#[test]
fn debouncer_reads_the_clock() {
    let mut debouncer = Debouncer::new(0);
    assert!(!debouncer.is_ready());
    debouncer.trigger();
    assert!(debouncer.is_ready());
    let mut slow = Debouncer::new(60_000);
    slow.trigger();
    assert!(!slow.is_ready());
    slow.clear();
    assert!(!slow.is_ready());
}

#[test]
fn lock_markers() {
    assert_eq!(deadline_marker(1_700_000_000_000, 100), "1700000000100");
    let marker = deadline_marker(5, 0);
    assert!(marker_is_current(&marker, &marker));
    assert!(marker_is_current(" 5\n", &marker));
    assert!(!marker_is_current("6", &marker));
    assert!(!marker_is_current("", &marker));
    assert!(!marker_is_current("5 5", &marker));
    assert_eq!(refresh_lock_marker_file(), "tab-title-refresh-lock-ms");
    assert_eq!(debounce_marker_file(), "tab-title-debounce-ms");
}

#[test]
fn clock_reads_after_the_epoch() {
    assert!(unix_ms().unwrap() > 1_600_000_000_000);
    assert!(herdr_tab_title::debounce::unix_ms().unwrap() > 1_600_000_000_000);
}

#[test]
fn clock_readings_become_milliseconds_or_clock_errors() {
    assert_eq!(clock_millis(Ok(1234)).unwrap(), 1234);
    assert_eq!(herdr_tab_title::debounce::clock_millis(Ok(7)).unwrap(), 7);
    let before_epoch = || {
        std::time::UNIX_EPOCH
            .duration_since(std::time::SystemTime::now())
            .unwrap_err()
    };
    assert!(matches!(
        clock_millis(Err(before_epoch())),
        Err(RefreshLockError::Clock(_))
    ));
    assert!(matches!(
        herdr_tab_title::debounce::clock_millis(Err(before_epoch())),
        Err(DebounceError::Clock(_))
    ));
}

#[test]
fn lock_errors_read_as_sentences() {
    let io = RefreshLockError::Io(std::io::Error::new(std::io::ErrorKind::Other, "disk"));
    assert_eq!(io.message(), "refresh lock I/O failed: disk");
    assert_eq!(
        RefreshLockError::Action("refresh failed".to_string()).message(),
        "refresh failed"
    );
    let io = DebounceError::Io(std::io::Error::new(std::io::ErrorKind::Other, "disk"));
    assert_eq!(io.message(), "debounce I/O failed: disk");
    assert_eq!(DebounceError::Action("x".to_string()).message(), "x");
    let before_epoch = std::time::UNIX_EPOCH
        .duration_since(std::time::SystemTime::now())
        .unwrap_err();
    let clock = RefreshLockError::Clock(before_epoch);
    assert!(clock.message().starts_with("refresh lock clock failed: "));
    assert!(clock.message().len() > "refresh lock clock failed: ".len());
}

#[test]
fn cloned_client_runs_the_same_binary() {
    let client = HerdrClient::new(std::path::PathBuf::from("/opt/herdr/bin/herdr"));
    let copy = client.clone();
    assert_eq!(copy.bin(), &std::path::PathBuf::from("/opt/herdr/bin/herdr"));
}

#[test]
fn cloned_debouncer_keeps_its_deadline() {
    let mut debouncer = Debouncer::new(100);
    debouncer.trigger_at(1_000_000);
    let copy = debouncer.clone();
    assert!(!copy.is_ready_at(100_999_999));
    assert!(copy.is_ready_at(101_000_000));
    debouncer.clear();
    assert!(copy.is_ready_at(101_000_000));
}

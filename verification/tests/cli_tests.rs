use pcopy::cli::{Cli, TestMode};

fn base_cli() -> Cli {
    Cli {
        source: "src".to_string(),
        destination: "dst".to_string(),
        recursive: false,
        preserve: false,
        force: false,
        exclude: None,
        test_mode: None,
    }
}

fn cli_with_mode(s: &str) -> Cli {
    let mut c = base_cli();
    c.test_mode = Some(s.to_string());
    c
}

#[test]
fn no_test_mode_is_unthrottled() {
    assert_eq!(base_cli().get_test_mode(), TestMode::Unthrottled);
}

#[test]
fn delay_mode_parses() {
    assert_eq!(cli_with_mode("delay:10").get_test_mode(), TestMode::Delay(10));
    assert_eq!(cli_with_mode("delay:0").get_test_mode(), TestMode::Delay(0));
    assert_eq!(cli_with_mode("delay:+5").get_test_mode(), TestMode::Delay(5));
}

#[test]
fn speed_limit_mode_parses() {
    assert_eq!(
        cli_with_mode("speed_limit:1024").get_test_mode(),
        TestMode::SpeedLimit(1024)
    );
}

#[test]
fn malformed_test_mode_is_unthrottled() {
    assert_eq!(cli_with_mode("delay").get_test_mode(), TestMode::Unthrottled);
    assert_eq!(cli_with_mode("delay:").get_test_mode(), TestMode::Unthrottled);
    assert_eq!(cli_with_mode("delay:x").get_test_mode(), TestMode::Unthrottled);
    assert_eq!(cli_with_mode("delay:1:2").get_test_mode(), TestMode::Unthrottled);
    assert_eq!(cli_with_mode("pause:10").get_test_mode(), TestMode::Unthrottled);
    assert_eq!(cli_with_mode("").get_test_mode(), TestMode::Unthrottled);
    assert_eq!(
        cli_with_mode("delay:99999999999999999999").get_test_mode(),
        TestMode::Unthrottled
    );
}

#[test]
fn should_exclude_uses_patterns() {
    let mut c = base_cli();
    assert!(!c.should_exclude("a/tmp/b"));
    c.exclude = Some(vec!["tmp".to_string()]);
    assert!(c.should_exclude("a/tmp/b"));
    assert!(!c.should_exclude("a/usr/b"));
}

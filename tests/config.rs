use healthdog::config::{get_watchdog_interval, populate_args, Args, ConfigError, WatchdogVar};

fn strings(v: &[&str]) -> Vec<String> {
    v.iter().map(|s| s.to_string()).collect()
}

#[test]
fn interval_is_half_the_period() {
    let r = get_watchdog_interval(WatchdogVar::Value("2000000".to_string()));
    assert_eq!(r, Ok(Some(1_000_000)));
}

#[test]
fn interval_truncates_odd_period() {
    assert_eq!(get_watchdog_interval(WatchdogVar::Value("3".to_string())), Ok(Some(1)));
    assert_eq!(get_watchdog_interval(WatchdogVar::Value("1".to_string())), Ok(Some(0)));
    assert_eq!(get_watchdog_interval(WatchdogVar::Value("0".to_string())), Ok(Some(0)));
}

#[test]
fn interval_of_largest_period() {
    let r = get_watchdog_interval(WatchdogVar::Value(u64::MAX.to_string()));
    assert_eq!(r, Ok(Some(u64::MAX / 2)));
}

#[test]
fn interval_absent_variable() {
    assert_eq!(get_watchdog_interval(WatchdogVar::Absent), Ok(None));
}

#[test]
fn interval_malformed_variable() {
    let r = get_watchdog_interval(WatchdogVar::Value("abc".to_string()));
    assert_eq!(r, Err(ConfigError::InvalidWatchdogUsec("abc".to_string())));
    let r = get_watchdog_interval(WatchdogVar::Value("-2".to_string()));
    assert_eq!(r, Err(ConfigError::InvalidWatchdogUsec("-2".to_string())));
}

#[test]
fn interval_unreadable_variable() {
    assert_eq!(
        get_watchdog_interval(WatchdogVar::NotUnicode),
        Err(ConfigError::UnreadableWatchdogUsec)
    );
}

#[test]
fn args_resolved() {
    let r = populate_args(
        Some("42".to_string()),
        "check".to_string(),
        false,
        strings(&["prog", "-x"]),
        WatchdogVar::Value("500".to_string()),
    );
    assert_eq!(
        r,
        Ok(Args {
            pid: Some(42),
            healthcheck: "check".to_string(),
            help: false,
            free: strings(&["prog", "-x"]),
            interval: Some(250),
        })
    );
}

#[test]
fn args_without_pid_or_supervisor() {
    let r = populate_args(None, "check".to_string(), true, vec![], WatchdogVar::Absent);
    assert_eq!(
        r,
        Ok(Args { pid: None, healthcheck: "check".to_string(), help: true, free: vec![], interval: None })
    );
}

#[test]
fn args_bad_pid_reported_first() {
    let r = populate_args(
        Some("4x".to_string()),
        "check".to_string(),
        false,
        vec![],
        WatchdogVar::Value("nope".to_string()),
    );
    assert_eq!(r, Err(ConfigError::InvalidPid("4x".to_string())));
}

#[test]
fn args_bad_interval() {
    let r = populate_args(None, "check".to_string(), false, vec![], WatchdogVar::Value("1.5".to_string()));
    assert_eq!(r, Err(ConfigError::InvalidWatchdogUsec("1.5".to_string())));
}

#[test]
fn args_missing_target_command() {
    let r = populate_args(None, "/bin/true".to_string(), false, vec![], WatchdogVar::Value("2000000".to_string()));
    assert_eq!(r, Err(ConfigError::MissingCommand));
    let r = populate_args(None, "/bin/true".to_string(), false, vec![], WatchdogVar::Absent);
    assert_eq!(r, Err(ConfigError::MissingCommand));
}

#[test]
fn args_no_target_needed_for_forwarder_or_help() {
    let r = populate_args(Some("7".to_string()), "hc".to_string(), false, vec![], WatchdogVar::Absent);
    assert_eq!(r.map(|a| a.pid), Ok(Some(7)));
    let r = populate_args(None, "hc".to_string(), true, vec![], WatchdogVar::Absent);
    assert_eq!(r.map(|a| a.help), Ok(true));
}

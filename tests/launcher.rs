use healthdog::config::{Args, ConfigError};
use healthdog::forwarder::{Action, Forwarder, Outcome};
use healthdog::launcher::{choose_role, plan_launch, Role};

fn strings(v: &[&str]) -> Vec<String> {
    v.iter().map(|s| s.to_string()).collect()
}

#[test]
fn plan_with_supervisor_starts_forwarder() {
    let p = plan_launch("check".to_string(), Some(1000), strings(&["/bin/prog", "a", "b"]), 321).unwrap();
    assert_eq!(p.pid, 321);
    assert_eq!(p.helper_args, Some(strings(&["--healthcheck", "check", "--pid", "321"])));
    assert_eq!(p.program, "/bin/prog");
    assert_eq!(p.program_args, strings(&["a", "b"]));
}

#[test]
fn plan_without_supervisor_skips_forwarder() {
    let p = plan_launch("check".to_string(), None, strings(&["/bin/prog"]), 321).unwrap();
    assert_eq!(p.helper_args, None);
    assert_eq!(p.program, "/bin/prog");
    assert!(p.program_args.is_empty());
}

#[test]
fn plan_without_target_is_an_error() {
    assert_eq!(plan_launch("check".to_string(), Some(5), vec![], 1), Err(ConfigError::MissingCommand));
}

fn args(pid: Option<i32>, help: bool, free: &[&str], interval: Option<u64>) -> Args {
    Args { pid, healthcheck: "hc".to_string(), help, free: strings(free), interval }
}

#[test]
fn role_help_comes_first() {
    assert_eq!(choose_role(args(Some(3), true, &[], Some(5))), Ok(Role::Help));
}

#[test]
fn role_forwarder() {
    assert_eq!(choose_role(args(Some(3), false, &[], Some(5))), Ok(Role::Forward(Forwarder::new(3, 5))));
}

#[test]
fn role_forwarder_without_supervisor() {
    assert_eq!(choose_role(args(Some(3), false, &[], None)), Ok(Role::Unsupervised));
}

#[test]
fn role_launch_watches_this_process() {
    let r = choose_role(args(None, false, &["prog", "x"], Some(5))).unwrap();
    let plan = match r {
        Role::Launch(p) => p,
        other => panic!("unexpected role {:?}", other),
    };
    assert!(plan.pid > 0);
    let pid = plan.pid.to_string();
    assert_eq!(plan.helper_args, Some(strings(&["--healthcheck", "hc", "--pid", &pid])));
    assert_eq!(plan.program, "prog");
    assert_eq!(plan.program_args, strings(&["x"]));
    // This process exists, so a probe of it finds it.
    let mut f = Forwarder::new(plan.pid, 5);
    assert_eq!(f.probe_watched(), Action::RunHealthCheck);
    assert_ne!(f.pending, Action::Exit(Outcome::WatchedGone));
}

#[test]
fn role_launch_without_target() {
    assert_eq!(choose_role(args(None, false, &[], Some(5))), Err(ConfigError::MissingCommand));
}

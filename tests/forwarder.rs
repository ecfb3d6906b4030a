use healthdog::forwarder::{Action, Event, Forwarder, HealthStatus, Outcome};

fn healthy_tick(f: &mut Forwarder) -> Vec<Action> {
    vec![
        f.advance(Event::Probed(true)),
        f.advance(Event::HealthChecked(HealthStatus::Passed)),
        f.advance(Event::Notified(true)),
        f.advance(Event::Slept),
    ]
}

#[test]
fn starts_with_a_probe() {
    let f = Forwarder::new(77, 500);
    assert_eq!(f.pending, Action::Probe(77));
    assert_eq!(f.pid, 77);
    assert_eq!(f.tick_usec, 500);
}

#[test]
fn gone_at_start_stops_without_health_check() {
    let mut f = Forwarder::new(77, 500);
    assert_eq!(f.advance(Event::Probed(false)), Action::Exit(Outcome::WatchedGone));
    assert_eq!(f.advance(Event::HealthChecked(HealthStatus::Passed)), Action::Exit(Outcome::WatchedGone));
    assert_eq!(f.advance(Event::Slept), Action::Exit(Outcome::WatchedGone));
}

#[test]
fn failing_health_check_withholds_notifications() {
    let mut f = Forwarder::new(9, 1000);
    let mut actions = Vec::new();
    for _ in 0..100 {
        actions.push(f.advance(Event::Probed(true)));
        actions.push(f.advance(Event::HealthChecked(HealthStatus::Failed)));
        actions.push(f.advance(Event::Slept));
    }
    assert!(actions.iter().all(|a| !matches!(a, Action::Notify(_) | Action::Exit(_))));
    assert_eq!(actions[1], Action::Sleep(1000));
    assert_eq!(f.advance(Event::Probed(false)), Action::Exit(Outcome::WatchedGone));
}

#[test]
fn healthy_process_notified_once_per_tick() {
    let mut f = Forwarder::new(31, 250);
    for _ in 0..10 {
        assert_eq!(
            healthy_tick(&mut f),
            vec![Action::RunHealthCheck, Action::Notify(31), Action::Sleep(250), Action::Probe(31)]
        );
    }
}

#[test]
fn three_ticks_then_gone() {
    let tick = healthdog::config::get_watchdog_interval(healthdog::config::WatchdogVar::Value(
        "2000000".to_string(),
    ))
    .unwrap()
    .unwrap();
    assert_eq!(tick, 1_000_000);
    let mut f = Forwarder::new(4242, tick);
    let mut actions = Vec::new();
    for _ in 0..3 {
        actions.extend(healthy_tick(&mut f));
    }
    let last = f.advance(Event::Probed(false));
    assert_eq!(last, Action::Exit(Outcome::WatchedGone));
    let notes: Vec<&Action> = actions.iter().filter(|a| matches!(a, Action::Notify(_))).collect();
    assert_eq!(notes, vec![&Action::Notify(4242); 3]);
    assert!(actions.iter().all(|a| !matches!(a, Action::Exit(_))));
    assert!(actions.contains(&Action::Sleep(1_000_000)));
    assert!(last.clone() == Action::Exit(Outcome::WatchedGone) && Outcome::WatchedGone.is_success());
}

#[test]
fn health_check_that_cannot_start_is_fatal() {
    let mut f = Forwarder::new(5, 10);
    f.advance(Event::Probed(true));
    let a = f.advance(Event::HealthChecked(HealthStatus::NotLaunched));
    assert_eq!(a, Action::Exit(Outcome::HealthCheckUnavailable));
    assert!(!Outcome::HealthCheckUnavailable.is_success());
}

#[test]
fn notification_failure_is_fatal() {
    let mut f = Forwarder::new(5, 10);
    f.advance(Event::Probed(true));
    f.advance(Event::HealthChecked(HealthStatus::Passed));
    assert_eq!(f.advance(Event::Notified(false)), Action::Exit(Outcome::NotifyFailed));
    assert!(!Outcome::NotifyFailed.is_success());
}

#[test]
fn events_out_of_turn_change_nothing() {
    let mut f = Forwarder::new(5, 10);
    assert_eq!(f.advance(Event::Slept), Action::Probe(5));
    assert_eq!(f.advance(Event::Notified(true)), Action::Probe(5));
    assert_eq!(f.advance(Event::HealthChecked(HealthStatus::Passed)), Action::Probe(5));
}

#[test]
fn probe_of_missing_process_stops() {
    // No system hands out the largest identifier.
    let mut f = Forwarder::new(i32::MAX, 10);
    assert_eq!(f.probe_watched(), Action::Exit(Outcome::WatchedGone));
    assert_eq!(f.pending, Action::Exit(Outcome::WatchedGone));
}

#[test]
fn probe_without_pending_probe_does_nothing() {
    let mut f = Forwarder::new(i32::MAX, 10);
    f.advance(Event::Probed(true));
    assert_eq!(f.probe_watched(), Action::RunHealthCheck);
}

use homeostat::bus::{Health, HealthStatus};
use homeostat::manifest::RestartPolicy;
use homeostat::supervisor::serve::initial_health;
use homeostat::supervisor::unit::{
    transition_line, Event, Phase, Supervision, Telling, UnitSpec,
};

fn exited(code: i32) -> Event {
    Event::Exited { code: Some(code), uptime_ms: 50 }
}

fn running(policy: RestartPolicy) -> Supervision {
    let mut s = Supervision::new(policy);
    assert_eq!(s.on(Event::Spawned { pid: Some(7) }), Telling::Nothing);
    assert_eq!(s.on(Event::Alive), Telling::Announce);
    s
}

#[test]
fn a_unit_comes_up() {
    let mut s = Supervision::new(RestartPolicy::Always);
    assert_eq!(s.phase, Phase::Launching);
    assert_eq!(s.health, initial_health());
    s.on(Event::Spawned { pid: Some(7) });
    assert_eq!(s.phase, Phase::Up { pid: Some(7) });
    assert_eq!(s.health.status, HealthStatus::Starting);
    s.on(Event::Alive);
    assert_eq!(
        s.health,
        Health {
            status: HealthStatus::Running,
            pid: Some(7),
            restarts: 0,
            backoff_ms: None,
            last_exit_code: None,
        }
    );
    assert_eq!(s.on(Event::Refresh), Telling::Republish);
}

#[test]
fn a_crash_is_restarted_after_the_backoff() {
    let mut s = running(RestartPolicy::OnFailure);
    assert_eq!(s.on(exited(3)), Telling::Announce);
    assert_eq!(s.phase, Phase::Delayed { exited: true, code: Some(3) });
    assert_eq!(s.health.backoff_ms, Some(100));
    assert_eq!(s.health.restarts, 1);
    assert_eq!(s.health.last_exit_code, Some(3));
    assert_eq!(s.on(Event::DelayOver), Telling::Announce);
    assert_eq!(s.phase, Phase::Launching);
    assert_eq!(s.health.status, HealthStatus::Starting);
    assert_eq!(s.health.restarts, 1);
}

#[test]
fn a_clean_exit_ends_under_on_failure_only() {
    let mut s = running(RestartPolicy::OnFailure);
    s.on(exited(0));
    assert_eq!(s.phase, Phase::Ended);
    assert_eq!(s.health.status, HealthStatus::Stopped);
    assert_eq!(s.health.last_exit_code, Some(0));

    let mut s = running(RestartPolicy::Always);
    s.on(exited(0));
    assert_eq!(s.health.status, HealthStatus::Backoff);

    let mut s = running(RestartPolicy::Never);
    s.on(Event::Exited { code: None, uptime_ms: 90_000 });
    assert_eq!(s.health.status, HealthStatus::Stopped);

    // A signal is a failure.
    let mut s = running(RestartPolicy::OnFailure);
    s.on(Event::Exited { code: None, uptime_ms: 50 });
    assert_eq!(s.health.status, HealthStatus::Backoff);
}

#[test]
fn a_crash_loop_opens_the_breaker_and_stays_there() {
    let mut s = running(RestartPolicy::Always);
    for _ in 0..4 {
        s.on(exited(1));
        s.on(Event::DelayOver);
        s.on(Event::Spawned { pid: Some(8) });
    }
    s.on(exited(1));
    assert_eq!(s.health.status, HealthStatus::Open);
    assert_eq!(s.health.restarts, 4);
    let last = s.health;
    for e in [Event::DelayOver, Event::Spawned { pid: None }, Event::Alive, Event::Shutdown] {
        assert_eq!(s.on(e), Telling::Nothing);
    }
    assert_eq!(s.phase, Phase::Ended);
    assert_eq!(s.health, last);
    assert_eq!(s.on(Event::Refresh), Telling::Republish);
}

#[test]
fn a_spawn_that_fails_counts_like_an_exit() {
    let mut s = Supervision::new(RestartPolicy::Never);
    s.on(Event::SpawnFailed { uptime_ms: 0 });
    assert_eq!(s.phase, Phase::Delayed { exited: false, code: None });
    assert_eq!(s.health.backoff_ms, Some(100));
    // A shutdown then ends it and leaves the health as it was told.
    assert_eq!(s.on(Event::Shutdown), Telling::Nothing);
    assert_eq!(s.phase, Phase::Ended);
    assert_eq!(s.health.status, HealthStatus::Backoff);
}

#[test]
fn a_shutdown_stops_a_unit() {
    let mut s = running(RestartPolicy::Always);
    assert_eq!(s.on(Event::Shutdown), Telling::Announce);
    assert_eq!(s.phase, Phase::Ended);
    assert_eq!(s.health.status, HealthStatus::Stopped);

    let mut s = running(RestartPolicy::Always);
    s.on(exited(2));
    assert_eq!(s.on(Event::Shutdown), Telling::Announce);
    assert_eq!(s.health.status, HealthStatus::Stopped);
    assert_eq!(s.health.last_exit_code, Some(2));
}

#[test]
fn transitions_read_as_one_line() {
    let mut h = initial_health();
    assert_eq!(transition_line("clock", &h), "[homeostat] clock: starting");
    h.status = HealthStatus::Running;
    h.pid = Some(4711);
    assert_eq!(transition_line("clock", &h), "[homeostat] clock: running (pid 4711)");
    h.status = HealthStatus::Backoff;
    h.pid = None;
    h.backoff_ms = Some(200);
    h.last_exit_code = Some(-9);
    assert_eq!(
        transition_line("clock", &h),
        "[homeostat] clock: backoff (restart in 200ms) (exit code -9)"
    );
}

#[test]
fn the_grace_defaults_to_five_seconds() {
    assert_eq!(UnitSpec::grace_from_manifest(None), 5_000);
    assert_eq!(UnitSpec::grace_from_manifest(Some(12)), 12_000);
}

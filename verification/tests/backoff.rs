use homeostat::supervisor::backoff::{Breaker, Decision, MAX_MS, STABLE_MS};

fn quick() -> u64 {
    50
}

#[test]
fn backoff_doubles_then_opens() {
    let mut b = Breaker::new();
    assert_eq!(b.on_exit(quick()), Decision::Restart { delay: 100 });
    assert_eq!(b.on_exit(quick()), Decision::Restart { delay: 200 });
    assert_eq!(b.on_exit(quick()), Decision::Restart { delay: 400 });
    assert_eq!(b.on_exit(quick()), Decision::Restart { delay: 800 });
    assert_eq!(b.on_exit(quick()), Decision::Open);
}

#[test]
fn stable_uptime_resets_counter() {
    let mut b = Breaker::new();
    b.on_exit(quick());
    b.on_exit(quick());
    assert_eq!(b.on_exit(STABLE_MS), Decision::Restart { delay: 100 });
}

#[test]
fn delay_is_capped() {
    let mut b = Breaker::new();
    // With the default threshold the cap is unreachable, but the
    // arithmetic must hold regardless of tuning.
    for _ in 0..3 {
        b.on_exit(quick());
    }
    if let Decision::Restart { delay } = b.on_exit(STABLE_MS + 1) {
        assert!(delay <= MAX_MS);
    }
}

#[test]
fn a_run_just_short_of_stable_counts() {
    let mut b = Breaker::new();
    b.on_exit(quick());
    assert_eq!(b.on_exit(STABLE_MS - 1), Decision::Restart { delay: 200 });
}

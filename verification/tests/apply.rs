use homeostat::bus::{ApplyParam, ApplyStep, HealthStatus};
use homeostat::error::ValidationError;
use homeostat::json::Json;
use homeostat::names::NameMap;
use homeostat::plan::{Diff, Step, StepAction, Tier, World};
use homeostat::repo::House;
use homeostat::supervisor::apply::{
    advance, begin, readiness, refuse_busy, refuse_invalid, Begin, Walk,
};
use homeostat::{check, CheckResult};

fn empty_house() -> House {
    House { units: vec![], entities: vec![], zones: NameMap::new(), dashboard: None }
}

fn checked(errors: Vec<ValidationError>) -> CheckResult {
    check(empty_house(), errors)
}

fn nothing() -> Diff {
    Diff {
        creates: vec![],
        destroys: vec![],
        restarts: vec![],
        params: vec![],
        refreshes: vec![],
        grant_adds: vec![],
        grant_removes: vec![],
    }
}

fn step(unit: &str, action: StepAction) -> Step {
    Step { unit: unit.to_string(), action }
}

fn walk() -> Walk {
    Walk::new(
        Tier::Behavioral,
        vec![ApplyParam {
            unit: "a".to_string(),
            param: "p".to_string(),
            value: Json::parse(b"1").unwrap(),
        }],
        vec![
            step("a", StepAction::Stop),
            step("b", StepAction::Start),
            step("c", StepAction::Restart),
        ],
    )
}

#[test]
fn an_invalid_repo_is_refused_with_its_errors() {
    assert!(refuse_invalid(&checked(vec![])).is_none());
    let result = refuse_invalid(&checked(vec![
        ValidationError::new("b-code", "s".to_string(), "m".to_string(), None),
        ValidationError::new("a-code", "s".to_string(), "m".to_string(), None),
    ]))
    .unwrap();
    assert!(!result.ok);
    assert_eq!(
        result.error.unwrap(),
        "repo failed validation:\nerror[a-code] s: m\nerror[b-code] s: m"
    );
    assert_eq!(refuse_busy().error.unwrap(), "an apply is already in progress");
}

#[test]
fn nothing_to_do_is_a_success() {
    match begin(&checked(vec![]), &vec![], &World::empty()) {
        Begin::Settled(result) => {
            assert!(result.ok);
            assert_eq!(result.tier, None);
            assert!(result.steps.is_empty());
        }
        Begin::Walk { diff, .. } => panic!("{diff:?}"),
    }
}

#[test]
fn a_running_unit_that_the_repo_lacks_is_walked_exclusively() {
    let mut world = World::live("tcp/x");
    world.on_meta("home/meta/ghost/manifest_hash", b"h".to_vec());
    match begin(&checked(vec![]), &vec![], &world) {
        Begin::Walk { diff, tier, exclusive } => {
            assert_eq!(diff.destroys, vec!["ghost".to_string()]);
            assert_eq!(tier, Tier::Structure);
            assert!(exclusive);
        }
        Begin::Settled(result) => panic!("{result:?}"),
    }
}

#[test]
fn a_walk_that_succeeds_is_complete() {
    let mut w = walk();
    let mut seen = vec![];
    while let Some(s) = w.current() {
        seen.push(s.unit.clone());
        w.record(Ok(()));
    }
    assert_eq!(seen, vec!["a", "b", "c"]);
    let r = w.finish();
    assert!(r.ok);
    assert_eq!(r.tier, Some("behavioral".to_string()));
    assert_eq!(r.params.len(), 1);
    assert_eq!(r.steps.len(), 3);
    assert_eq!(r.halted_at, None);
    assert!(r.not_reached.is_empty());
    assert_eq!(r.error, None);
}

#[test]
fn a_walk_halts_in_place() {
    let mut w = walk();
    w.record(Ok(()));
    w.record(Err("breaker open".to_string()));
    assert!(w.current().is_none());
    let r = w.finish();
    assert!(!r.ok);
    assert_eq!(
        r.steps,
        vec![
            ApplyStep {
                unit: "a".to_string(),
                action: "stop".to_string(),
                ok: true,
                error: None
            },
            ApplyStep {
                unit: "b".to_string(),
                action: "start".to_string(),
                ok: false,
                error: Some("breaker open".to_string())
            },
        ]
    );
    assert_eq!(r.halted_at, Some("b".to_string()));
    assert_eq!(r.not_reached, vec!["c".to_string()]);
}

#[test]
fn the_applied_commit_advances_on_success_only() {
    let mut world = World::live("tcp/x");
    let mut halted = walk();
    halted.record(Err("no".to_string()));
    let house = empty_house();
    advance(
        &mut world,
        &halted.finish(),
        &nothing(),
        &house,
        &vec![],
        vec![],
        Some("abc".to_string()),
    );
    assert_eq!(world.applied_commit, None);

    let mut done = walk();
    while done.current().is_some() {
        done.record(Ok(()));
    }
    advance(
        &mut world,
        &done.finish(),
        &nothing(),
        &house,
        &vec![],
        vec![],
        Some("abc".to_string()),
    );
    assert_eq!(world.applied_commit, Some("abc".to_string()));
}

#[test]
fn a_launched_unit_is_awaited_until_it_runs_or_gives_up() {
    assert_eq!(readiness(Some(HealthStatus::Running), false), Some(Ok(())));
    assert_eq!(readiness(Some(HealthStatus::Running), true), Some(Ok(())));
    assert_eq!(
        readiness(Some(HealthStatus::Open), false),
        Some(Err("circuit breaker open".to_string()))
    );
    assert_eq!(readiness(Some(HealthStatus::Stopped), false), Some(Err("stopped".to_string())));
    for status in [None, Some(HealthStatus::Starting), Some(HealthStatus::Backoff)] {
        assert_eq!(readiness(status, false), None);
        assert_eq!(readiness(status, true), Some(Err("not running after 60s".to_string())));
    }
}

use homeostat::bus::{ApplyParam, ApplyResult, ApplyStep};
use homeostat::cli::{endpoint, explain, refusal, reflection, save_refusal};
use homeostat::error::ValidationError;
use homeostat::json::Json;
use homeostat::plan::Diff;

fn some(s: &str) -> Option<String> {
    Some(s.to_string())
}

#[test]
fn the_flag_goes_before_the_environment() {
    assert_eq!(endpoint(some("a"), some("b")), some("a"));
    assert_eq!(endpoint(None, some("b")), some("b"));
    assert_eq!(endpoint(some(""), some("b")), None);
    assert_eq!(endpoint(None, some("")), None);
    assert_eq!(endpoint(None, None), None);
}

#[test]
fn a_refusal_tells_errors_and_rules() {
    assert_eq!(refusal(&vec![], "plan"), None);
    let e = |code: &'static str| {
        ValidationError::new(code, "s".to_string(), "m".to_string(), some("f"))
    };
    let text = refusal(&vec![e("zz"), e("aa"), e("zz")], "apply").unwrap();
    assert_eq!(
        text,
        "error[aa] s: m (f)\nerror[zz] s: m (f)\n\naa: (no explanation registered)\nzz: (no explanation registered)\n\napply refused: 2 error(s)\n"
    );
}

#[test]
fn codes_are_explained() {
    let one = explain(Some("parse-error")).unwrap();
    assert!(one.starts_with("parse-error: ") && one.ends_with("\n"));
    assert_eq!(
        explain(Some("x")).unwrap_err(),
        "unknown error code \"x\"; `homeostat explain` lists them"
    );
    assert!(explain(None).unwrap().contains(&one));
}

fn diff(creates: Vec<String>) -> Diff {
    Diff {
        creates,
        destroys: vec![],
        restarts: vec![],
        params: vec![],
        refreshes: vec![],
        grant_adds: vec![],
        grant_removes: vec![],
    }
}

#[test]
fn a_plan_is_saved_against_a_commit() {
    assert_eq!(
        save_refusal(&diff(vec![]), &some("abc"), "h"),
        some("nothing to save: the world matches the repo")
    );
    let change = diff(vec!["a".to_string()]);
    assert_eq!(
        save_refusal(&change, &None, "h"),
        some("plan --save needs a base commit: h is not a git repository root")
    );
    assert_eq!(save_refusal(&change, &some("abc"), "h"), None);
}

#[test]
fn commands_are_mirrored_as_state() {
    assert_eq!(
        reflection("home/cmd/kitchen/lamp/on", b"{\"actor\":\"x\",\"value\":[1, true]}"),
        Some(("home/state/kitchen/lamp/on".to_string(), "[1,true]".to_string()))
    );
    assert_eq!(reflection("home/cmd/a/b/c", b"true"), None);
    assert_eq!(reflection("home/cmd/a/b/c", b"{"), None);
    assert_eq!(reflection("other", b"{\"value\":1}"), Some(("other".to_string(), "1".to_string())));
}

fn walked(ok: bool) -> ApplyResult {
    ApplyResult {
        ok,
        tier: some("behavioral"),
        params: vec![ApplyParam {
            unit: "u".to_string(),
            param: "p".to_string(),
            value: Json::from_int(3),
        }],
        steps: vec![
            ApplyStep { unit: "a".to_string(), action: "stop".to_string(), ok: true, error: None },
            ApplyStep {
                unit: "b".to_string(),
                action: "restart".to_string(),
                ok,
                error: if ok { None } else { some("circuit breaker open") },
            },
        ],
        halted_at: if ok { None } else { some("b") },
        not_reached: if ok { vec![] } else { vec!["c".to_string(), "d".to_string()] },
        error: None,
    }
}

#[test]
fn the_outcome_of_an_apply_is_told() {
    let done = "  u.p = 3\n  stop a: ok\n  restart b: ok\n".to_string();
    assert_eq!(walked(true).outcome(true), (format!("{done}Applied.\n"), None));
    assert_eq!(walked(true).outcome(false), (done, some("apply failed")));
    assert_eq!(
        walked(false).outcome(false),
        (
            "  u.p = 3\n  stop a: ok\n  restart b: circuit breaker open\n".to_string(),
            some("apply halted at b; not reached: c, d")
        )
    );
    let mut refused = walked(false);
    refused.error = some("an apply is already in progress");
    assert_eq!(
        refused.outcome(false),
        (String::new(), some("apply refused: an apply is already in progress"))
    );
}

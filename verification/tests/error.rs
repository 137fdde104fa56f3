use homeostat::error::{explain, explanations, render_sorted, CODES};
use homeostat::ValidationError;

fn failure(code: &'static str, subject: &str, message: &str, file: Option<&str>) -> ValidationError {
    ValidationError::new(
        code,
        subject.to_string(),
        message.to_string(),
        file.map(|f| f.to_string()),
    )
}

#[test]
fn explanations_are_one_per_distinct_code_in_code_order() {
    let errors = vec![
        failure("zone-unknown-room", "z", "m", None),
        failure("invalid-name", "a", "m", None),
        failure("invalid-name", "b", "m", None),
    ];
    let lines = explanations(&errors);
    assert_eq!(lines.len(), 2);
    assert!(lines[0].starts_with("invalid-name: "));
    assert!(lines[1].starts_with("zone-unknown-room: "));
}

#[test]
fn every_emitted_code_is_explained_and_vice_versa() {
    let emitted = [
        "parse-error",
        "unsupported-schema",
        "missing-units-dir",
        "missing-entities-dir",
        "invalid-name",
        "reserved-unit-name",
        "reserved-room-name",
        "reserved-zone-name",
        "zone-room-collision",
        "zone-pseudo-room",
        "zone-unknown-room",
        "duplicate-unit-name",
        "duplicate-entity-name",
        "duplicate-entity-id",
        "invalid-manifest",
        "unknown-capability",
        "missing-owner-unit",
        "owner-mismatch",
        "virtual-entity-arbitrated",
        "virtual-entity-commanded",
        "grant-cycle",
        "invalid-default",
        "malformed-constraint",
        "key-outside-schema",
        "template-outside-binding-unit",
        "publish-missing-capability",
        "exclusive-write-conflict",
        "arbitrated-uncovered",
        "virtual-entity-fed",
        "input-unknown-entity",
        "input-unpublished-aspect",
        "state-publish-unbound",
        "write-mode-required",
        "entity-id-required",
        "reserved-class-publish",
        "entity-dashboard-retired",
        "dashboard-reserved-view",
        "dashboard-duplicate-view",
        "dashboard-view-shape",
        "dashboard-nested-group",
        "dashboard-widget-fields",
        "dashboard-unknown-entity",
        "dashboard-widget-capability",
        "dashboard-invalid-aspect",
        "dashboard-unknown-room",
        "dashboard-unknown-unit",
    ];
    for code in emitted {
        assert!(explain(code).is_some(), "no explanation of {code}");
    }
    for (code, _) in CODES {
        assert!(emitted.contains(&code), "nothing emits {code}");
    }
    assert_eq!(emitted.len(), CODES.len(), "duplicate code in CODES");
}

#[test]
fn a_failure_renders_with_and_without_its_file() {
    let e = failure("invalid-name", "a b", "bad", Some("units/x.toml"));
    assert_eq!(e.to_string(), "error[invalid-name] a b: bad (units/x.toml)");
    let e = failure("grant-cycle", "a, b", "loop", None);
    assert_eq!(e.to_string(), "error[grant-cycle] a, b: loop");
}

#[test]
fn rendering_is_sorted_and_says_nothing_twice() {
    let errors = vec![
        failure("zone-unknown-room", "z", "m", None),
        failure("invalid-name", "a", "m", None),
        failure("zone-unknown-room", "z", "m", None),
    ];
    assert_eq!(
        render_sorted(&errors),
        vec!["error[invalid-name] a: m", "error[zone-unknown-room] z: m"]
    );
}

#[test]
fn an_unregistered_code_says_so() {
    assert_eq!(explain("no-such-code"), None);
    assert_eq!(
        explanations(&vec![failure("no-such-code", "s", "m", None)]),
        vec!["no-such-code: (no explanation registered)"]
    );
}

use homeostat::graph::{cycle_members, ordered};
use homeostat::plan::{param_level_only, refresh_changes};

fn edge(a: &str, d: &str) -> (String, String) {
    (a.to_string(), d.to_string())
}

#[test]
fn ordered_respects_edges_then_kind_then_name() {
    let set: Vec<(String, u8)> = ["beacon", "watcher", "zed"]
        .iter()
        .map(|s| {
            let kind = match *s {
                "beacon" => 0,
                "zed" => 0,
                _ => 1,
            };
            (s.to_string(), kind)
        })
        .collect();
    let edges = vec![edge("beacon", "watcher")];
    assert_eq!(
        ordered(&set, &edges),
        vec!["beacon".to_string(), "zed".to_string(), "watcher".to_string()]
    );
}

/// An automation that binds a commandable virtual entity is an edge
/// source like an adapter: it starts before the automation commanding
/// it, even where kind and name order would put it second.
#[test]
fn ordered_puts_a_latch_owner_before_its_commander() {
    let set: Vec<(String, u8)> = ["buttons", "modes"].iter().map(|s| (s.to_string(), 1)).collect();
    let edges = vec![edge("modes", "buttons")];
    assert_eq!(ordered(&set, &edges), vec!["modes".to_string(), "buttons".to_string()]);
}

#[test]
fn a_cycle_degrades_to_sorted_order() {
    let set: Vec<(String, u8)> =
        ["a", "b", "c"].iter().map(|s| (s.to_string(), 1)).collect();
    let edges = vec![edge("b", "a"), edge("a", "b")];
    assert_eq!(ordered(&set, &edges), vec!["c".to_string(), "a".to_string(), "b".to_string()]);
}

#[test]
fn a_cycle_elsewhere_leaves_the_members_in_order() {
    let set: Vec<(String, u8)> = ["a", "m"].iter().map(|s| (s.to_string(), 1)).collect();
    let edges = vec![edge("x", "y"), edge("y", "x"), edge("y", "m"), edge("a", "a"), edge("m", "a")];
    assert_eq!(ordered(&set, &edges), vec!["m".to_string(), "a".to_string()]);
}

#[test]
fn a_cycle_takes_what_depends_on_it_along() {
    let edges = vec![edge("a", "b"), edge("b", "a"), edge("b", "c"), edge("x", "y")];
    assert_eq!(cycle_members(&edges), vec!["a".to_string(), "b".to_string(), "c".to_string()]);
    assert!(cycle_members(&vec![edge("x", "y"), edge("y", "z")]).is_empty());
}

#[test]
fn param_level_change_is_detected() {
    let old = br#"
schema = 1
[unit]
name = "probe"
kind = "automation"
[runtime]
command = "uv run units/probe.py"
restart = "on-failure"
[params.level]
type = "int"
default = 1
constraint = { min = 0, max = 10 }
"#;
    let new_default = String::from_utf8_lossy(old).replace("default = 1", "default = 5");
    assert!(param_level_only(new_default.as_bytes(), old));

    let new_command = String::from_utf8_lossy(old).replace("units/probe.py", "units/other.py");
    assert!(!param_level_only(new_command.as_bytes(), old));

    let new_type = String::from_utf8_lossy(old).replace("type = \"int\"", "type = \"float\"");
    assert!(!param_level_only(new_type.as_bytes(), old));

    let added_param = format!(
        "{}\n[params.extra]\ntype = \"bool\"\ndefault = false\n",
        String::from_utf8_lossy(old)
    );
    assert!(!param_level_only(added_param.as_bytes(), old));
}

#[test]
fn refresh_changes_render_stripped_field_deltas() {
    let old = br#"
schema = 1
[unit]
name = "probe"
kind = "automation"
[runtime]
command = "uv run units/probe.py"
restart = "on-failure"
[params.level]
type = "int"
default = 1
constraint = { min = 0, max = 10 }
editable_by = "family"
"#;
    let tightened = String::from_utf8_lossy(old).replace("max = 10", "max = 5");
    assert!(param_level_only(tightened.as_bytes(), old));
    assert_eq!(
        refresh_changes(tightened.as_bytes(), old),
        vec!["level: constraint {max=10, min=0} -> {max=5, min=0}"]
    );

    let owner_only =
        String::from_utf8_lossy(old).replace("editable_by = \"family\"", "editable_by = \"owner\"");
    assert_eq!(
        refresh_changes(owner_only.as_bytes(), old),
        vec!["level: editable_by family -> owner"]
    );

    let dropped = String::from_utf8_lossy(old).replace("editable_by = \"family\"\n", "");
    assert_eq!(
        refresh_changes(dropped.as_bytes(), old),
        vec!["level: editable_by family -> (none)"]
    );

    let comment_only = format!("{}\n# a comment\n", String::from_utf8_lossy(old));
    assert!(param_level_only(comment_only.as_bytes(), old));
    assert_eq!(refresh_changes(comment_only.as_bytes(), old), Vec::<String>::new());
}

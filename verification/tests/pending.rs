use homeostat::cli::pending_refusal;
use homeostat::gitinfo::under_plans;
use homeostat::pending::{civil_from_days, save, utc, PendingPlan};
use homeostat::tomlvalue::{TomlData, TomlValue};

#[test]
fn civil_from_days_matches_known_dates() {
    assert_eq!(civil_from_days(0), (1970, 1, 1));
    assert_eq!(civil_from_days(19_907), (2024, 7, 3)); // leap year passed
    assert_eq!(civil_from_days(20_638), (2026, 7, 4));
}

#[test]
fn civil_from_days_knows_the_ends_of_months_and_eras() {
    assert_eq!(civil_from_days(-1), (1969, 12, 31));
    assert_eq!(civil_from_days(11_016), (2000, 2, 29));
    assert_eq!(civil_from_days(11_017), (2000, 3, 1));
    assert_eq!(civil_from_days(-25_509), (1900, 2, 28));
    assert_eq!(civil_from_days(-25_508), (1900, 3, 1));
    assert_eq!(civil_from_days(-719_468), (0, 3, 1));
    assert_eq!(civil_from_days(-719_469), (0, 2, 29));
}

#[test]
fn utc_has_two_forms() {
    assert_eq!(utc(0), ("1970-01-01T00:00:00Z".to_string(), "19700101T000000Z".to_string()));
    assert_eq!(
        utc(1_783_123_509),
        ("2026-07-04T00:05:09Z".to_string(), "20260704T000509Z".to_string())
    );
}

fn text_of(v: &TomlValue, key: &str) -> String {
    match &v.get(key).unwrap().data {
        TomlData::Str(s) => s.clone(),
        other => panic!("{other:?}"),
    }
}

#[test]
fn a_saved_plan_reads_back() {
    let file = save("Homeostat plan\n  repo: x", "behavioral", "owner", "abc123", 1_783_123_509);
    assert_eq!(file.path, "plans/pending/20260704T000509Z-behavioral.plan");
    assert_eq!(
        file.content,
        "schema = 1\nid = \"20260704T000509Z-behavioral\"\nactor = \"owner\"\n\
         created = \"2026-07-04T00:05:09Z\"\nbase_commit = \"abc123\"\ntier = \"behavioral\"\n\
         plan = '''\nHomeostat plan\n  repo: x\n'''\n"
    );
    let plan = TomlValue::parse(file.content.as_bytes()).unwrap();
    assert_eq!(text_of(&plan, "actor"), "owner");
    assert_eq!(text_of(&plan, "base_commit"), "abc123");
    assert_eq!(text_of(&plan, "tier"), "behavioral");
    assert_eq!(text_of(&plan, "plan"), "Homeostat plan\n  repo: x\n");
    // Saving it does not dirty the house it was planned against.
    assert!(under_plans(&format!("?? {}", file.path)));
}

#[test]
fn a_pending_plan_goes_stale_with_its_commit() {
    let plan = PendingPlan {
        schema: 1,
        id: "p".to_string(),
        actor: "owner".to_string(),
        created: "now".to_string(),
        base_commit: "abc".to_string(),
        tier: "structural".to_string(),
        plan: String::new(),
    };
    assert_eq!(pending_refusal(&plan, &Some("abc".to_string()), "house"), None);
    assert_eq!(
        pending_refusal(&plan, &Some("abc-dirty".to_string()), "house").unwrap(),
        "apply refused: pending plan p is stale (base commit abc but HEAD is abc-dirty)"
    );
    assert_eq!(
        pending_refusal(&plan, &None, "house").unwrap(),
        "apply --plan refused: house is not a git repository root, so the plan's base commit cannot be checked"
    );
}

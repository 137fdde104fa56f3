use homeostat::config::{
    check, default_value, default_within_constraint, ConfigStore, Constraint, StoredParam,
};
use homeostat::floats::Real;
use homeostat::json::{Json, JsonNumber};
use homeostat::manifest::{ParamSpec, ParamType};
use homeostat::names::{NameMap, PairMap};
use homeostat::tomlvalue::{TomlData, TomlValue};
use homeostat::validate::parse_time;

fn json(text: &str) -> Json {
    Json::parse(text.as_bytes()).unwrap()
}

fn float(text: &str) -> Real {
    Real { text: text.to_string() }
}

fn time_spec(after: &str, before: &str) -> StoredParam {
    StoredParam {
        param_type: ParamType::Time,
        constraint: Constraint {
            after: parse_time(after),
            before: parse_time(before),
            ..Constraint::default()
        },
        value: json("\"22:00\""),
    }
}

fn check_param(p: &StoredParam, value: Json) -> Result<(), String> {
    check(p.param_type, &p.constraint, &value)
}

#[test]
fn time_window_spans_midnight() {
    let p = time_spec("20:00", "02:00");
    for ok in ["20:00", "23:59", "00:30", "02:00"] {
        check_param(&p, Json::str(ok)).unwrap_or_else(|e| panic!("{ok}: {e}"));
    }
    for bad in ["19:59", "02:01", "12:00"] {
        assert!(check_param(&p, Json::str(bad)).is_err(), "{bad} accepted");
    }
}

#[test]
fn time_window_same_day() {
    let p = time_spec("08:00", "17:00");
    check_param(&p, Json::str("12:00")).unwrap();
    assert!(check_param(&p, Json::str("18:00")).is_err());
    assert!(check_param(&p, Json::str("07:59")).is_err());
}

#[test]
fn time_rejects_non_times() {
    let p = time_spec("20:00", "02:00");
    for bad in [Json::str("not-a-time"), Json::str("25:00"), json("22"), json("true")] {
        assert!(check_param(&p, bad.copy()).is_err(), "{} accepted", bad.to_string());
    }
}

#[test]
fn int_range() {
    let c = Constraint { min: Some(float("0")), max: Some(float("100")), ..Constraint::default() };
    check(ParamType::Int, &c, &json("50")).unwrap();
    assert!(check(ParamType::Int, &c, &json("-1")).is_err());
    assert!(check(ParamType::Int, &c, &json("101")).is_err());
    assert!(check(ParamType::Int, &c, &json("1.5")).is_err());
}

#[test]
fn string_enum() {
    let c = Constraint {
        allowed: Some(vec!["low".to_string(), "high".to_string()]),
        ..Constraint::default()
    };
    check(ParamType::String, &c, &json("\"low\"")).unwrap();
    assert!(check(ParamType::String, &c, &json("\"medium\"")).is_err());
    assert!(check(ParamType::String, &c, &json("3")).is_err());
}

fn evening_store() -> ConfigStore {
    let mut params: PairMap<StoredParam> = PairMap::new();
    params.insert(
        ("evening_lights".to_string(), "off_time".to_string()),
        time_spec("20:00", "02:00"),
    );
    ConfigStore { params }
}

#[test]
fn write_rejection_keeps_old_value() {
    let mut store = evening_store();
    store
        .write("evening_lights", "off_time", json("\"23:30\""))
        .expect("in-window write accepted");
    store
        .write("evening_lights", "off_time", json("\"03:00\""))
        .expect_err("out-of-window write rejected");
    store
        .write("evening_lights", "nope", json("\"23:00\""))
        .expect_err("unknown parameter rejected");
    let read = store.read(|_, _| true);
    assert_eq!(
        read,
        vec![(
            "evening_lights".to_string(),
            "off_time".to_string(),
            json("\"23:30\""),
        )]
    );
}

#[test]
fn every_refusal_says_why() {
    let c = Constraint { min: Some(float("0.5")), max: Some(float("2")), ..Constraint::default() };
    assert_eq!(check(ParamType::Float, &c, &json("0.25")).unwrap_err(), "0.25 is below min 0.5");
    assert_eq!(check(ParamType::Float, &c, &json("3")).unwrap_err(), "3 is above max 2");
    assert_eq!(check(ParamType::Float, &c, &json("1.25")), Ok(()));
    assert_eq!(
        check(ParamType::Bool, &c, &json("1")).unwrap_err(),
        "1 does not match type \"bool\""
    );
    let none = Constraint::default();
    assert_eq!(
        check(ParamType::Time, &none, &json("\"7:61\"")).unwrap_err(),
        "\"7:61\" is not a time (HH:MM)"
    );
    let allowed = Constraint {
        allowed: Some(vec!["low".to_string(), "high".to_string()]),
        ..Constraint::default()
    };
    assert_eq!(
        check(ParamType::String, &allowed, &json("\"mid\"")).unwrap_err(),
        "\"mid\" is not one of \"low\", \"high\""
    );
    let mut store = evening_store();
    assert_eq!(
        store.write("evening_lights", "nope", json("1")).unwrap_err(),
        "unknown parameter evening_lights/nope"
    );
}

#[test]
fn numbers_compare_as_floats() {
    let c = Constraint { min: Some(float("-0.5")), ..Constraint::default() };
    assert_eq!(check(ParamType::Float, &c, &json("-0.5")), Ok(()));
    assert!(check(ParamType::Float, &c, &json("-0.50000001")).is_err());
    assert_eq!(check(ParamType::Float, &c, &json("1e300")), Ok(()));
    assert_eq!(check(ParamType::Int, &c, &json("9007199254740993")), Ok(()));
    // A 64-bit unsigned integer beyond the signed range is no int.
    assert!(check(ParamType::Int, &c, &json("18446744073709551615")).is_err());
}

fn spec(param_type: ParamType, default: TomlData, text: &str) -> ParamSpec {
    ParamSpec {
        param_type,
        default: TomlValue { text: text.to_string(), data: default },
        constraint: None,
        editable_by: None,
    }
}

#[test]
fn defaults_become_json() {
    let whole = spec(ParamType::Int, TomlData::Integer(-3), "-3");
    assert_eq!(default_value(&whole), Json::Number(JsonNumber::NegInt(-3)));
    let flag = spec(ParamType::Bool, TomlData::Boolean(true), "true");
    assert_eq!(default_value(&flag).to_string(), "true");
    let half = spec(ParamType::Float, TomlData::Float(float("0.5")), "0.5");
    assert_eq!(default_value(&half).to_string(), "0.5");
    let time = spec(ParamType::Time, TomlData::Str("22:00".to_string()), "\"22:00\"");
    assert_eq!(default_value(&time).to_string(), "\"22:00\"");
}

#[test]
fn a_default_outside_its_constraint_is_told() {
    let mut p = spec(ParamType::Int, TomlData::Integer(7), "7");
    let mut table: NameMap<TomlValue> = NameMap::new();
    table.insert(
        "max".to_string(),
        TomlValue { text: "5".to_string(), data: TomlData::Integer(5) },
    );
    p.constraint = Some(table);
    assert_eq!(default_within_constraint(&p).unwrap_err(), "7 is above max 5");
    p.default = TomlValue { text: "5".to_string(), data: TomlData::Integer(5) };
    assert_eq!(default_within_constraint(&p), Ok(()));
}

#[test]
fn a_read_keeps_what_the_filter_keeps() {
    let mut store = evening_store();
    store.params.insert(
        ("porch".to_string(), "level".to_string()),
        StoredParam {
            param_type: ParamType::Int,
            constraint: Constraint::default(),
            value: json("4"),
        },
    );
    let read = store.read(|unit, _| unit == "porch");
    assert_eq!(read, vec![("porch".to_string(), "level".to_string(), json("4"))]);
    assert_eq!(store.read(|_, _| false), vec![]);
}

use homeostat::document::field;
use homeostat::floats::Real;
use homeostat::json::{Json, JsonNumber};
use homeostat::tomlvalue::{TomlData, TomlValue};

fn json(text: &str) -> Json {
    Json::parse(text.as_bytes()).unwrap()
}

#[test]
fn json_is_read_and_written_with_sorted_keys() {
    let j = json(" {\"b\": [1, -2, 0.5, null], \"a\": {\"x\": true, \"c\": \"å\"}} ");
    assert_eq!(j.to_string(), "{\"a\":{\"c\":\"å\",\"x\":true},\"b\":[1,-2,0.5,null]}");
    assert_eq!(
        json("{\"b\":1,\"a\":[]}").to_string_pretty(),
        "{\n  \"a\": [],\n  \"b\": 1\n}"
    );
    assert!(Json::parse(b"{").unwrap_err().starts_with("EOF while parsing"));
}

#[test]
fn objects_are_built_by_their_fields() {
    let j = Json::object(vec![
        field("b", Json::Null),
        field("a", json("1")),
        field("b", Json::str("last")),
    ]);
    assert_eq!(j.to_string(), "{\"a\":1,\"b\":\"last\"}");
    assert_eq!(j.get_str("b"), Some("last"));
    assert!(j.get("c").is_none());
    assert!(Json::array(vec![]).get("a").is_none());
    assert_eq!(j.as_object().unwrap().len(), 2);
    assert_eq!(json("[1,2]").as_array().unwrap().len(), 2);
}

#[test]
fn numbers_are_told_apart() {
    assert_eq!(json("7"), Json::Number(JsonNumber::PosInt(7)));
    assert_eq!(json("-7"), Json::Number(JsonNumber::NegInt(-7)));
    assert_eq!(json("7").as_u64(), Some(7));
    assert_eq!(json("-7").as_u64(), None);
    assert_eq!(json("-7").as_i64(), Some(-7));
    assert_eq!(json("18446744073709551615").as_i64(), None);
    assert_eq!(json("1.5").as_i64(), None);
    assert_eq!(json("1.50").as_real(), Some(Real { text: "1.5".to_string() }));
    assert!(json("1").same(&json("1")));
    assert!(!json("1").same(&json("1.0")));
    assert!(json("0.0").same(&json("-0.0")));
    assert!(json("[1,{\"a\":2}]").same(&json("[1, {\"a\": 2}]")));
}

#[test]
fn floats_compare_by_value() {
    let f = |t: &str| Real { text: t.to_string() };
    assert!(f("-1").less(&f("0.5")));
    assert!(f("1e10").less(&f("inf")));
    assert!(!f("NaN").less(&f("1")));
    assert!(f("0").equals(&f("-0")));
    assert!(!f("NaN").equals(&f("NaN")));
    assert!(!f("inf").is_finite());
    assert_eq!(Real::from_int(9007199254740993).text, "9007199254740992");
}

#[test]
fn a_number_that_is_not_finite_is_null() {
    let j = Json::Number(JsonNumber::Float(Real { text: "inf".to_string() }));
    assert!(j.is_null());
    assert_eq!(j.to_string(), "null");
}

#[test]
fn toml_documents_are_read() {
    let doc = "b = 1\na = \"x\"\nt = 07:30:00\n[c]\nl = [true, 0.5]\n";
    let v = TomlValue::parse(doc.as_bytes()).unwrap();
    assert_eq!(v.get("a").unwrap().as_str(), Some("x"));
    assert_eq!(v.get("b").unwrap().text, "1");
    assert_eq!(v.get("t").unwrap().text, "07:30:00");
    assert!(matches!(v.get("t").unwrap().data, TomlData::Datetime));
    assert_eq!(v.get("c").unwrap().get("l").unwrap().text, "[true, 0.5]");
    assert!(v.same(&TomlValue::parse(doc.as_bytes()).unwrap()));
    assert!(!v.same(&TomlValue::parse(b"b = 1\n").unwrap()));
    assert!(TomlValue::parse(b"a = ").is_none());
    assert!(TomlValue::parse(&[b'a', 0xff]).is_none());
}

#[test]
fn plain_values_read_back() {
    for j in [
        Json::Null,
        Json::Bool(true),
        Json::from_int(i64::MIN),
        Json::Number(JsonNumber::PosInt(u64::MAX)),
        Json::str("a \"quoted\" \u{0}\n\t\\ å \u{1F600}"),
        Json::str(""),
    ] {
        assert_eq!(Json::parse(j.to_string().as_bytes()), Ok(j));
    }
}

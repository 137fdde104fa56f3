use homeostat::config::{ConfigStore, Constraint, StoredParam};
use homeostat::floats::Real;
use homeostat::json::Json;
use homeostat::manifest::ParamType;
use homeostat::names::PairMap;
use homeostat::supervisor::serve::{config_query, covered, ConfigReply};

fn store() -> ConfigStore {
    let mut params: PairMap<StoredParam> = PairMap::new();
    for (unit, param, value) in
        [("porch", "level", "3"), ("porch", "delay", "10"), ("hall", "level", "4")]
    {
        params.insert(
            (unit.to_string(), param.to_string()),
            StoredParam {
                param_type: ParamType::Float,
                constraint: Constraint {
                    max: Some(Real { text: "20".to_string() }),
                    ..Constraint::default()
                },
                value: Json::parse(value.as_bytes()).unwrap(),
            },
        );
    }
    ConfigStore { params }
}

fn read(store: &mut ConfigStore, selector: &str) -> Vec<(String, String)> {
    match config_query(store, selector, None) {
        ConfigReply::Values(v) => v,
        other => panic!("{other:?}"),
    }
}

fn write(store: &mut ConfigStore, key: &str, payload: &str) -> ConfigReply {
    config_query(store, key, Some(payload.as_bytes().to_vec()))
}

fn pair(key: &str, value: &str) -> (String, String) {
    (key.to_string(), value.to_string())
}

#[test]
fn a_read_answers_what_the_selector_covers() {
    let mut s = store();
    assert_eq!(
        read(&mut s, "home/config/*/level"),
        vec![pair("home/config/hall/level", "4"), pair("home/config/porch/level", "3")]
    );
    assert_eq!(read(&mut s, "home/config/porch/delay"), vec![pair("home/config/porch/delay", "10")]);
    assert_eq!(read(&mut s, "home/**").len(), 3);
    assert_eq!(read(&mut s, "home/state/**"), vec![]);
    // No key expression at all.
    assert_eq!(read(&mut s, "home//x"), vec![]);
}

#[test]
fn an_accepted_write_is_read_back() {
    let mut s = store();
    let key = "home/config/porch/level";
    match write(&mut s, key, " 7.5 ") {
        ConfigReply::Stored { key: k, text } => {
            assert_eq!(k, key);
            assert_eq!(text, "7.5");
        }
        other => panic!("{other:?}"),
    }
    assert_eq!(read(&mut s, key), vec![pair(key, "7.5")]);
    assert_eq!(read(&mut s, "home/config/hall/level"), vec![pair("home/config/hall/level", "4")]);
}

fn refused(reply: ConfigReply) -> String {
    match reply {
        ConfigReply::Refused(text) => text,
        other => panic!("{other:?}"),
    }
}

#[test]
fn a_refused_write_says_why_and_changes_nothing() {
    let mut s = store();
    for key in ["home/config/*/level", "home/config/porch/**", "home/config/porch", "home/config/a/b/c"] {
        assert_eq!(
            refused(write(&mut s, key, "1")),
            "{\"error\":\"a write must target home/config/{unit}/{param}\"}"
        );
    }
    assert_eq!(
        refused(write(&mut s, "home/config/porch/level", "{")),
        "{\"error\":\"payload is not JSON\"}"
    );
    assert_eq!(
        refused(write(&mut s, "home/config/porch/nope", "1")),
        "{\"error\":\"unknown parameter porch/nope\"}"
    );
    assert_eq!(
        refused(write(&mut s, "home/config/porch/level", "20.5")),
        "{\"error\":\"20.5 is above max 20\"}"
    );
    assert_eq!(read(&mut s, "home/config/porch/level"), vec![pair("home/config/porch/level", "3")]);
}

#[test]
fn cached_keys_are_picked_by_the_selector() {
    let keys = vec![
        "home/clock/minute".to_string(),
        "home/clock/date".to_string(),
        "home/health/clock".to_string(),
    ];
    assert_eq!(covered("home/clock/*", &keys), vec![0, 1]);
    assert_eq!(covered("home/health/clock", &keys), vec![2]);
    assert_eq!(covered("home/*", &keys), Vec::<usize>::new());
}

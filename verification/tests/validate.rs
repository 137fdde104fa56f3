use homeostat::floats::Real;
use homeostat::manifest::{
    DashboardFile, DiscoveryMode, DiscoverySection, EntitiesSection, EntityFile, EntitySection,
    ParamSpec, ParamType, RestartPolicy, RuntimeSection, UnitKind, UnitManifest, UnitSection,
    ViewSpec, WidgetKind, WidgetSpec, WriteMode, WritePolicy,
};
use homeostat::names::NameMap;
use homeostat::repo::{House, LoadedEntity, LoadedUnit};
use homeostat::tomlvalue::{TomlData, TomlValue};
use homeostat::validate::{
    display_value, parse_time, valid_segment, validate, widget_fields_message,
};

fn unit(name: &str, kind: UnitKind) -> LoadedUnit {
    let adapter = kind == UnitKind::Adapter;
    LoadedUnit {
        manifest: UnitManifest {
            schema: 1,
            unit: UnitSection { name: name.to_string(), kind, description: None, inputs: None },
            runtime: RuntimeSection {
                command: "true".to_string(),
                restart: RestartPolicy::Always,
                shutdown_grace_s: None,
            },
            discovery: adapter.then_some(DiscoverySection {
                mode: DiscoveryMode::Static,
                endpoint: Some("mqtt://host".to_string()),
                service: None,
            }),
            bus: None,
            params: None,
            entities: adapter
                .then_some(EntitiesSection { dir: format!("entities/{name}/") }),
            naming: None,
        },
        path: format!("units/{name}.toml"),
    }
}

fn entity(name: &str, room: &str, capability: &str, owner: &str) -> LoadedEntity {
    LoadedEntity {
        name: name.to_string(),
        file: EntityFile {
            schema: 1,
            entity: EntitySection {
                id: Some(format!("{name}-1")),
                capability: capability.to_string(),
                features: vec![],
                room: room.to_string(),
            },
            naming: None,
            write_policy: WritePolicy {
                mode: Some(WriteMode::Shared),
                owner: owner.to_string(),
            },
            inputs: None,
            dashboard: None,
        },
        path: format!("entities/{owner}/{name}.toml"),
        owner: owner.to_string(),
    }
}

fn house() -> House {
    House {
        units: vec![unit("zigbee", UnitKind::Adapter), unit("evening", UnitKind::Automation)],
        entities: vec![entity("lamp", "kitchen", "light", "zigbee")],
        zones: NameMap::new(),
        dashboard: None,
    }
}

fn lines(house: &House) -> Vec<String> {
    validate(house).iter().map(|e| e.to_string()).collect()
}

fn toml(text: &str) -> TomlValue {
    let document = format!("x = {text}\n");
    let value = TomlValue::parse(document.as_bytes()).unwrap();
    match value.data {
        TomlData::Table(m) => {
            let v = m.get("x").unwrap();
            copy(v)
        }
        other => panic!("{other:?}"),
    }
}

fn copy(v: &TomlValue) -> TomlValue {
    let data = match &v.data {
        TomlData::Str(s) => TomlData::Str(s.clone()),
        TomlData::Integer(i) => TomlData::Integer(*i),
        TomlData::Float(f) => TomlData::Float(f.clone()),
        TomlData::Boolean(b) => TomlData::Boolean(*b),
        TomlData::Datetime => TomlData::Datetime,
        TomlData::Array(items) => TomlData::Array(items.iter().map(copy).collect()),
        TomlData::Table(m) => {
            let mut t: NameMap<TomlValue> = NameMap::new();
            for i in 0..m.len() {
                t.insert(m.name(i).clone(), copy(m.value(i)));
            }
            TomlData::Table(t)
        }
    };
    TomlValue { text: v.text.clone(), data }
}

#[test]
fn a_sound_house_has_no_errors() {
    assert_eq!(lines(&house()), Vec::<String>::new());
}

#[test]
fn names_are_key_segments() {
    assert!(valid_segment("a-B_9.x"));
    for bad in ["", "a/b", "a b", "a*", "å"] {
        assert!(!valid_segment(bad), "{bad}");
    }
    let mut h = house();
    h.units[1].manifest.unit.name = "even ing".to_string();
    assert_eq!(
        lines(&h),
        vec!["error[invalid-name] even ing: unit name \"even ing\" must be a single key segment (letters, digits, \"_\", \"-\", \".\") (units/evening.toml)"]
    );
    let mut h = house();
    h.units[1].manifest.unit.name = "system".to_string();
    assert_eq!(
        lines(&h),
        vec!["error[reserved-unit-name] system: unit name \"system\" is reserved for the core's meta keys (units/evening.toml)"]
    );
    let mut h = house();
    h.entities[0].file.entity.room = "kit/chen".to_string();
    assert!(lines(&h)[0].starts_with("error[invalid-name] lamp: room \"kit/chen\" must be"));
}

#[test]
fn duplicates_are_told_by_their_files() {
    let mut h = house();
    h.units.push(unit("evening", UnitKind::Service));
    h.units[2].path = "units/again.toml".to_string();
    assert_eq!(
        lines(&h),
        vec!["error[duplicate-unit-name] evening: defined in units/again.toml and units/evening.toml"]
    );
    let mut h = house();
    h.entities.push(entity("lamp", "hall", "light", "zigbee"));
    h.entities[1].path = "entities/a/lamp.toml".to_string();
    assert_eq!(
        lines(&h),
        vec![
            "error[duplicate-entity-name] lamp: defined in entities/a/lamp.toml and entities/zigbee/lamp.toml",
            "error[duplicate-entity-id] lamp-1: bound to \"zigbee\" by entities/a/lamp.toml and entities/zigbee/lamp.toml",
        ]
    );
}

#[test]
fn a_kind_decides_its_sections() {
    let mut h = house();
    h.units[0].manifest.discovery = None;
    h.units[0].manifest.entities = None;
    h.units[1].manifest.discovery =
        Some(DiscoverySection { mode: DiscoveryMode::Mdns, endpoint: None, service: None });
    h.units.push(unit("svc", UnitKind::Service));
    h.units[2].manifest.entities = Some(EntitiesSection { dir: "x".to_string() });
    let found = lines(&h);
    assert_eq!(
        found,
        vec![
            "error[invalid-manifest] zigbee: adapter requires an [entities] section (units/zigbee.toml)",
            "error[invalid-manifest] zigbee: adapter requires a [discovery] section (units/zigbee.toml)",
            "error[invalid-manifest] evening: discovery mode \"mdns\" requires a service (units/evening.toml)",
            "error[invalid-manifest] evening: [discovery] is only valid for adapters and services (units/evening.toml)",
            "error[invalid-manifest] svc: [entities] is only valid for adapters and automations (units/svc.toml)",
        ]
    );
}

fn codes(house: &House) -> Vec<&'static str> {
    validate(house).iter().map(|e| e.code).collect()
}

#[test]
fn entities_are_owned_and_policied() {
    let mut h = house();
    h.entities[0].file.entity.capability = "laser".to_string();
    assert_eq!(codes(&h), vec!["unknown-capability"]);

    let mut h = house();
    h.entities[0].file.write_policy.mode = None;
    assert_eq!(codes(&h), vec!["write-mode-required"]);
    h.entities[0].file.entity.capability = "sensor".to_string();
    assert_eq!(codes(&h), Vec::<&str>::new());

    let mut h = house();
    h.entities[0].file.entity.id = None;
    assert_eq!(codes(&h), vec!["entity-id-required"]);

    let mut h = house();
    h.entities[0].file.entity.room = "state".to_string();
    assert_eq!(codes(&h), vec!["reserved-room-name"]);
    h.entities[0].file.entity.room = "global".to_string();
    assert_eq!(codes(&h), Vec::<&str>::new());

    let mut h = house();
    h.entities[0].file.write_policy.owner = "nobody".to_string();
    assert_eq!(codes(&h), vec!["missing-owner-unit"]);
    h.entities[0].file.write_policy.owner = "evening".to_string();
    assert_eq!(codes(&h), vec!["owner-mismatch"]);
    h.entities[0].owner = "evening".to_string();
    h.entities[0].file.write_policy.mode = Some(WriteMode::Arbitrated);
    assert_eq!(codes(&h), vec!["virtual-entity-arbitrated"]);
    h.units.push(unit("svc", UnitKind::Service));
    h.entities[0].file.write_policy.owner = "svc".to_string();
    assert_eq!(codes(&h), vec!["missing-owner-unit"]);
}

#[test]
fn zones_are_named_sets_of_rooms() {
    let zone = |name: &str, rooms: &[&str]| {
        let mut h = house();
        h.zones.insert(name.to_string(), rooms.iter().map(|r| r.to_string()).collect());
        codes(&h)
    };
    assert_eq!(zone("downstairs", &["kitchen"]), Vec::<&str>::new());
    assert_eq!(zone("home", &["nowhere"]), vec!["reserved-zone-name"]);
    assert_eq!(zone("kitchen", &["kitchen"]), vec!["zone-room-collision"]);
    assert_eq!(zone("z", &["person", "attic"]), vec!["zone-pseudo-room", "zone-unknown-room"]);
}

fn with_param(param_type: ParamType, default: &str, constraint: &[(&str, &str)]) -> Vec<String> {
    let mut h = house();
    let mut table: NameMap<TomlValue> = NameMap::new();
    for (key, value) in constraint {
        table.insert(key.to_string(), toml(value));
    }
    let mut params: NameMap<ParamSpec> = NameMap::new();
    params.insert(
        "level".to_string(),
        ParamSpec {
            param_type,
            default: toml(default),
            constraint: if constraint.is_empty() { None } else { Some(table) },
            editable_by: None,
        },
    );
    h.units[1].manifest.params = Some(params);
    validate(&h)
        .iter()
        .map(|e| {
            assert_eq!(e.subject, "evening.level");
            format!("{}: {}", e.code, e.message)
        })
        .collect()
}

#[test]
fn parameters_keep_to_their_type_and_constraint() {
    let none = Vec::<String>::new();
    assert_eq!(with_param(ParamType::Bool, "true", &[]), none);
    assert_eq!(with_param(ParamType::Float, "3", &[]), none);
    assert_eq!(with_param(ParamType::Time, "\"22:00\"", &[]), none);
    assert_eq!(
        with_param(ParamType::Int, "0.5", &[]),
        vec!["invalid-default: default 0.5 does not match type \"int\""]
    );
    assert_eq!(
        with_param(ParamType::Time, "\"24:00\"", &[]),
        vec!["invalid-default: default 24:00 does not match type \"time\""]
    );
    assert_eq!(
        with_param(ParamType::Int, "1", &[("step", "2")]),
        vec!["malformed-constraint: unknown constraint \"step\""]
    );
    assert_eq!(
        with_param(ParamType::Int, "1", &[("after", "\"10:00\"")]),
        vec!["malformed-constraint: constraint \"after\" is not valid for type \"int\""]
    );
    assert_eq!(
        with_param(ParamType::Int, "1", &[("min", "\"a\"")]),
        vec!["malformed-constraint: constraint \"min\" must be a number"]
    );
    assert_eq!(
        with_param(ParamType::Time, "\"1:00\"", &[("before", "3")]),
        vec!["malformed-constraint: constraint \"before\" must be a time (HH:MM)"]
    );
    assert_eq!(
        with_param(ParamType::String, "\"a\"", &[("enum", "[]")]),
        vec!["malformed-constraint: constraint \"enum\" must be a non-empty array of strings"]
    );
    assert_eq!(
        with_param(ParamType::Float, "1", &[("min", "2.5"), ("max", "2")]),
        vec!["malformed-constraint: min (2.5) is greater than max (2)"]
    );
    assert_eq!(
        with_param(ParamType::Int, "7", &[("max", "5")]),
        vec!["invalid-default: default 7: 7 is above max 5"]
    );
    assert_eq!(with_param(ParamType::String, "\"b\"", &[("enum", "[\"a\", \"b\"]")]), none);
}

fn widget(kind: WidgetKind) -> WidgetSpec {
    WidgetSpec {
        kind,
        entity: None,
        aspect: None,
        room: None,
        unit: None,
        hours: None,
        label: None,
        widgets: vec![],
    }
}

fn view(name: &str, widgets: Vec<WidgetSpec>) -> ViewSpec {
    ViewSpec { name: name.to_string(), kind: None, widgets }
}

fn dashboard(views: Vec<ViewSpec>) -> Vec<String> {
    let mut h = house();
    h.dashboard = Some(DashboardFile { view: views });
    validate(&h).iter().map(|e| format!("{} {}: {}", e.code, e.subject, e.message)).collect()
}

#[test]
fn views_have_names_and_one_shape() {
    let people = || vec![widget(WidgetKind::People)];
    assert_eq!(dashboard(vec![view("main", people())]), Vec::<String>::new());
    assert_eq!(
        dashboard(vec![view("health", people())]),
        vec!["dashboard-reserved-view health: view name \"health\" belongs to the dashboard's fixed chrome"]
    );
    assert_eq!(
        dashboard(vec![view("a", people()), view("a", people())]),
        vec!["dashboard-duplicate-view a: view \"a\" is declared more than once"]
    );
    assert_eq!(
        dashboard(vec![view("a", vec![])]),
        vec!["dashboard-view-shape a: a view is a generated `kind` or a list of `widgets`, never both or neither"]
    );
}

#[test]
fn widgets_carry_what_their_kind_takes() {
    let mut chart = widget(WidgetKind::Chart);
    assert_eq!(widget_fields_message(&chart).unwrap(), "a `chart` widget needs `entity`");
    chart.entity = Some("lamp".to_string());
    chart.aspect = Some("on".to_string());
    chart.hours = Some(Real { text: "-1".to_string() });
    assert_eq!(
        widget_fields_message(&chart).unwrap(),
        "`hours` must be a positive number, not -1"
    );
    chart.hours = Some(Real { text: "24".to_string() });
    assert_eq!(widget_fields_message(&chart), None);
    chart.room = Some("kitchen".to_string());
    assert_eq!(widget_fields_message(&chart).unwrap(), "a `chart` widget takes no `room`");
    assert_eq!(
        dashboard(vec![view("a", vec![chart])]),
        vec!["dashboard-widget-fields a[0]: a `chart` widget takes no `room`"]
    );
}

#[test]
fn widgets_refer_to_what_exists() {
    let mut ghost = widget(WidgetKind::Tile);
    ghost.entity = Some("ghost".to_string());
    ghost.aspect = Some("a/b".to_string());
    let mut burner = widget(WidgetKind::Burner);
    burner.entity = Some("lamp".to_string());
    let mut room = widget(WidgetKind::Room);
    room.room = Some("attic".to_string());
    let mut unit = widget(WidgetKind::Unit);
    unit.unit = Some("nobody".to_string());
    let mut group = widget(WidgetKind::Group);
    group.widgets = vec![widget(WidgetKind::Group)];
    assert_eq!(
        dashboard(vec![view("a", vec![ghost, burner, room, unit, group])]),
        vec![
            "dashboard-unknown-entity a[0]: widget names unknown entity \"ghost\"",
            "dashboard-invalid-aspect a[0]: aspect \"a/b\" must be a single key segment",
            "dashboard-widget-capability a[1]: a `burner` widget needs a burner; \"lamp\" is a light",
            "dashboard-unknown-room a[2]: widget names unknown room \"attic\"",
            "dashboard-unknown-unit a[3]: widget names unknown unit \"nobody\"",
            "dashboard-nested-group a[4][0]: a group holds widgets, never another group",
        ]
    );
    let mut h = house();
    h.entities[0].file.dashboard = Some(toml("{ x = 1 }"));
    assert_eq!(codes(&h), vec!["entity-dashboard-retired"]);
}

#[test]
fn times_and_values_read_and_show() {
    assert_eq!(parse_time("07:05"), Some((7, 5)));
    assert_eq!(parse_time("7:5"), Some((7, 5)));
    for bad in ["24:00", "12:60", "12", "12:", "a:b", "1:2:3"] {
        assert_eq!(parse_time(bad), None, "{bad}");
    }
    assert_eq!(display_value(&toml("\"x\"")), "x");
    assert_eq!(display_value(&toml("1.5")), "1.5");
    assert_eq!(display_value(&toml("[1, 2]")), "[1, 2]");
}

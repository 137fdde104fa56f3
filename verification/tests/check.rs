use homeostat::config::ConfigStore;
use homeostat::content::manifest_hash;
use homeostat::manifest::{
    BusSection, DiscoveryMode, DiscoverySection, EditableBy, EntitiesSection, EntityFile,
    EntitySection, ParamSpec, ParamType, Priority, PublishSpec, RestartPolicy, RuntimeSection,
    UnitKind, UnitManifest, UnitSection, WriteMode, WritePolicy,
};
use homeostat::names::NameMap;
use homeostat::plan::{
    derive_tier, diff, render, summarize, walk_steps, world_kind, world_unit_from_repo, RepoUnit,
    StepAction, Tier, World,
};
use homeostat::repo::{House, LoadedEntity, LoadedUnit};
use homeostat::tomlvalue::{TomlData, TomlValue};
use homeostat::{check, CheckResult};

fn unit(name: &str, kind: UnitKind, bus: BusSection) -> LoadedUnit {
    let adapter = kind == UnitKind::Adapter;
    LoadedUnit {
        manifest: UnitManifest {
            schema: 1,
            unit: UnitSection { name: name.to_string(), kind, description: None, inputs: None },
            runtime: RuntimeSection {
                command: format!("uv run units/{name}.py"),
                restart: RestartPolicy::Always,
                shutdown_grace_s: None,
            },
            discovery: adapter.then_some(DiscoverySection {
                mode: DiscoveryMode::Static,
                endpoint: Some("mqtt://host:1883".to_string()),
                service: None,
            }),
            bus: Some(bus),
            params: None,
            entities: adapter
                .then_some(EntitiesSection { dir: format!("entities/{name}/") }),
            naming: None,
        },
        path: format!("units/{name}.toml"),
    }
}

fn text_value(s: &str) -> TomlValue {
    TomlValue { text: format!("\"{s}\""), data: TomlData::Str(s.to_string()) }
}

fn evening_house(off_time: &str) -> House {
    let mut zigbee = BusSection { subscribes: NameMap::new(), publishes: NameMap::new() };
    zigbee
        .subscribes
        .insert("commands".to_string(), "home/cmd/{room}/{entity}/**".to_string());
    zigbee.publishes.insert(
        "state".to_string(),
        PublishSpec {
            key: "home/state/{room}/{entity}/**".to_string(),
            capability: None,
            priority: None,
        },
    );
    let mut evening = BusSection { subscribes: NameMap::new(), publishes: NameMap::new() };
    evening.publishes.insert(
        "lights".to_string(),
        PublishSpec {
            key: "home/cmd/kitchen/**/light".to_string(),
            capability: Some("light".to_string()),
            priority: Some(Priority::Automation),
        },
    );
    let mut automation = unit("evening_lights", UnitKind::Automation, evening);
    let mut constraint: NameMap<TomlValue> = NameMap::new();
    constraint.insert("after".to_string(), text_value("20:00"));
    constraint.insert("before".to_string(), text_value("02:00"));
    let mut params: NameMap<ParamSpec> = NameMap::new();
    params.insert(
        "off_time".to_string(),
        ParamSpec {
            param_type: ParamType::Time,
            default: text_value(off_time),
            constraint: Some(constraint),
            editable_by: Some(EditableBy::Family),
        },
    );
    automation.manifest.params = Some(params);
    House {
        units: vec![automation, unit("zigbee", UnitKind::Adapter, zigbee)],
        entities: vec![LoadedEntity {
            name: "kitchen_ceiling".to_string(),
            file: EntityFile {
                schema: 1,
                entity: EntitySection {
                    id: Some("lamp_kitchen_1".to_string()),
                    capability: "light".to_string(),
                    features: vec![],
                    room: "kitchen".to_string(),
                },
                naming: None,
                write_policy: WritePolicy {
                    mode: Some(WriteMode::Shared),
                    owner: "zigbee".to_string(),
                },
                inputs: None,
                dashboard: None,
            },
            path: "entities/zigbee/kitchen_ceiling.toml".to_string(),
            owner: "zigbee".to_string(),
        }],
        zones: NameMap::new(),
        dashboard: None,
    }
}

fn checked(off_time: &str) -> CheckResult {
    let house = evening_house(off_time);
    let result = check(house, vec![]);
    assert!(result.errors.is_empty(), "{:?}", result.errors);
    result
}

fn manifest(name: &str, kind: &str, off_time: &str) -> Vec<u8> {
    let params = if name == "evening_lights" {
        format!("[params.off_time]\ntype = \"time\"\ndefault = \"{off_time}\"\n")
    } else {
        String::new()
    };
    format!("schema = 1\n[unit]\nname = \"{name}\"\nkind = \"{kind}\"\n{params}").into_bytes()
}

fn repo(off_time: &str) -> Vec<RepoUnit> {
    vec![
        RepoUnit {
            manifest: manifest("evening_lights", "automation", off_time),
            files_hash: "e".to_string(),
        },
        RepoUnit { manifest: manifest("zigbee", "adapter", off_time), files_hash: "z".to_string() },
    ]
}

/// A world that runs the house with this parameter default.
fn running(off_time: &str) -> World {
    let result = checked(off_time);
    let mut world = World::live("tcp/127.0.0.1:7447");
    for (u, r) in result.house.units.iter().zip(repo(off_time)) {
        world.record_unit(u.manifest.unit.name.clone(), world_unit_from_repo(r));
    }
    let store = ConfigStore::from_house(&result.house);
    for (unit, param, value) in store.read(|_, _| true) {
        world.record_param(&unit, &param, value);
    }
    world.record_applied(result.grants, None);
    world
}

#[test]
fn a_new_house_is_structural() {
    let result = checked("23:00");
    let text = render(&result, &repo("23:00"), "examples/house", &World::empty());
    assert!(text.starts_with(
        "Homeostat plan\n  repo:  examples/house\n  world: empty\n\nUnits to create (2):\n\n+ adapter zigbee (units/zigbee.toml)\n"
    ), "{text}");
    for part in [
        "+ automation evening_lights (units/evening_lights.toml)\n",
        "      off_time  type=time  default=23:00  constraint={after=20:00, before=02:00}  editable_by=family\n",
        "  evening_lights.lights  capability=light  priority=automation\n    -> kitchen_ceiling  (room=kitchen, write=shared, owner=zigbee)\n",
        "Plan tier: structural (2 units created, 1 grant added)",
    ] {
        assert!(text.contains(part), "{part}\n---\n{text}");
    }
}

#[test]
fn a_world_that_matches_has_nothing_to_do() {
    let result = checked("23:00");
    let world = running("23:00");
    let d = diff(&result, &repo("23:00"), &world);
    assert!(d.is_empty(), "{d:?}");
    let text = render(&result, &repo("23:00"), "h", &world);
    assert!(text.ends_with("No changes. The world matches the repo.\n"), "{text}");
    assert!(walk_steps(&d, &result, &world).is_empty());
}

#[test]
fn a_new_default_is_parameter_only_and_restarts_nothing() {
    let result = checked("22:00");
    let world = running("23:00");
    let d = diff(&result, &repo("22:00"), &world);
    assert_eq!(derive_tier(&d), Tier::ParameterOnly);
    assert_eq!(d.params.len(), 1);
    assert!(d.restarts.is_empty());
    assert_eq!(summarize(&d), "1 parameter change, 1 manifest refreshed");
    assert!(walk_steps(&d, &result, &world).is_empty());
    assert_eq!(d.refreshes.len(), 1);
    assert_eq!(d.refreshes[0].changes, vec!["off_time: default 23:00 -> 22:00"]);
}

#[test]
fn changed_files_restart_exactly_their_unit() {
    let result = checked("23:00");
    let world = running("23:00");
    let mut repo = repo("23:00");
    repo[0].files_hash = "other".to_string();
    let d = diff(&result, &repo, &world);
    assert_eq!(derive_tier(&d), Tier::Behavioral);
    assert_eq!(Tier::Behavioral.as_str(), "behavioral");
    let steps = walk_steps(&d, &result, &world);
    assert_eq!(steps.len(), 1);
    assert_eq!(steps[0].unit, "evening_lights");
    assert_eq!(steps[0].action, StepAction::Restart);
}

#[test]
fn a_walk_starts_owners_first_and_stops_them_last() {
    let result = checked("23:00");
    let d = diff(&result, &repo("23:00"), &World::empty());
    let starts: Vec<(String, StepAction)> = walk_steps(&d, &result, &World::empty())
        .into_iter()
        .map(|s| (s.unit, s.action))
        .collect();
    assert_eq!(
        starts,
        vec![
            ("zigbee".to_string(), StepAction::Start),
            ("evening_lights".to_string(), StepAction::Start),
        ]
    );
    let nothing = check(
        House { units: vec![], entities: vec![], zones: NameMap::new(), dashboard: None },
        vec![],
    );
    let world = running("23:00");
    let d = diff(&nothing, &vec![], &world);
    assert_eq!(derive_tier(&d), Tier::Structure);
    let stops: Vec<String> =
        walk_steps(&d, &nothing, &world).into_iter().map(|s| s.unit).collect();
    assert_eq!(stops, vec!["evening_lights".to_string(), "zigbee".to_string()]);
}

#[test]
fn what_is_recorded_is_settled() {
    let result = checked("23:00");
    let mut world = World::live("x");
    let mut repo = repo("23:00");
    let zigbee = repo.pop().unwrap();
    let hash = manifest_hash(&zigbee.manifest);
    world.record_unit(
        "zigbee".to_string(),
        world_unit_from_repo(RepoUnit {
            manifest: zigbee.manifest.clone(),
            files_hash: "z".to_string(),
        }),
    );
    assert_eq!(world.units.get("zigbee").unwrap().manifest_hash, hash);
    assert_eq!(world_kind(world.units.get("zigbee").unwrap()), Some("adapter".to_string()));
    repo.push(zigbee);
    let d = diff(&result, &repo, &world);
    assert_eq!(d.creates, vec!["evening_lights".to_string()]);
    assert!(d.restarts.is_empty());
}

#[test]
fn a_live_edit_shows_as_drift() {
    let result = checked("23:00");
    let mut world = running("23:00");
    world.on_config("home/config/evening_lights/off_time", b"\"21:30\"");
    let d = diff(&result, &repo("23:00"), &world);
    assert_eq!(derive_tier(&d), Tier::ParameterOnly);
    assert_eq!(d.params[0].live.to_string(), "\"21:30\"");
    assert_eq!(d.params[0].repo.to_string(), "\"23:00\"");
    let mut store = ConfigStore::from_house(&result.house);
    assert!(store.write("evening_lights", "off_time", world_value("\"21:30\"")).is_ok());
    let changed = store.replace_from_house(&result.house);
    assert_eq!(changed.len(), 1);
    assert_eq!(changed[0].2.to_string(), "\"23:00\"");
}

fn world_value(text: &str) -> homeostat::json::Json {
    homeostat::json::Json::parse(text.as_bytes()).unwrap()
}

#[test]
fn a_grant_delta_escalates_to_structural() {
    let mut house = evening_house("23:00");
    house.entities[0].file.write_policy.mode = Some(WriteMode::Exclusive);
    let result = check(house, vec![]);
    assert!(result.errors.is_empty(), "{:?}", result.errors);
    let world = running("23:00");
    let d = diff(&result, &repo("23:00"), &world);
    assert_eq!(derive_tier(&d), Tier::Structure);
    assert_eq!(Tier::Structure.as_str(), "structural");
    assert_eq!((d.grant_adds.len(), d.grant_removes.len()), (1, 1));
}

fn twins(key: &str, kind: UnitKind) -> CheckResult {
    let mut house = evening_house("23:00");
    let mut twin = BusSection { subscribes: NameMap::new(), publishes: NameMap::new() };
    twin.publishes.insert(
        "extra".to_string(),
        PublishSpec { key: key.to_string(), capability: None, priority: None },
    );
    let mut second = unit("zigbee", kind, twin);
    second.path = "units/zigbee_again.toml".to_string();
    house.units.push(second);
    check(house, vec![])
}

fn reported(result: &CheckResult, file: Option<&str>, code: &str) -> bool {
    result.errors.iter().any(|e| e.file.as_deref() == file && e.code == code)
}

#[test]
fn a_state_publish_of_a_second_unit_of_a_name_is_reported_not_refused() {
    let result = twins("home/state/kitchen/kitchen_ceiling/power", UnitKind::Adapter);
    assert!(reported(&result, None, "duplicate-unit-name"));
}

#[test]
fn a_command_publish_of_a_second_unit_of_a_name_is_reported_not_refused() {
    let result = twins("home/cmd/kitchen/**/light", UnitKind::Automation);
    assert!(reported(&result, None, "duplicate-unit-name"));
    assert!(reported(&result, Some("units/zigbee_again.toml"), "publish-missing-capability"));
}

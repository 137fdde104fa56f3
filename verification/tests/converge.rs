use homeostat::bus::{
    config_key, files_hash_key, manifest_hash_key, manifest_key, ApplyParam, ApplyResult,
};
use homeostat::config::ConfigStore;
use homeostat::content::{files_hash, sha256_hex};
use homeostat::expand::expand;
use homeostat::json::Json;
use homeostat::manifest::{
    BusSection, EntityFile, EntitySection, ParamSpec, ParamType, RestartPolicy, RuntimeSection,
    UnitKind, UnitManifest, UnitSection, WriteMode, WritePolicy,
};
use homeostat::names::NameMap;
use homeostat::plan::{
    derive_tier, diff, param_level_only, refresh_changes, walk_steps, world_unit_from_repo, Diff,
    RepoUnit, StepAction, Tier, World, WorldUnit,
};
use homeostat::repo::{House, LoadedEntity, LoadedUnit};
use homeostat::supervisor::apply::{advance, begin, Begin, Walk};
use homeostat::supervisor::serve::{config_query, ConfigReply};
use homeostat::tomlvalue::{TomlData, TomlValue};
use homeostat::world::{meta_key, MetaKey};
use homeostat::{check, CheckResult};

fn unit(name: &str, level: Option<i64>) -> LoadedUnit {
    let params = level.map(|n| {
        let mut m = NameMap::new();
        m.insert(
            "level".to_string(),
            ParamSpec {
                param_type: ParamType::Int,
                default: TomlValue { data: TomlData::Integer(n), text: n.to_string() },
                constraint: None,
                editable_by: None,
            },
        );
        m
    });
    LoadedUnit {
        manifest: UnitManifest {
            schema: 1,
            unit: UnitSection {
                name: name.to_string(),
                kind: UnitKind::Service,
                description: None,
                inputs: None,
            },
            runtime: RuntimeSection {
                command: "true".to_string(),
                restart: RestartPolicy::Always,
                shutdown_grace_s: None,
            },
            discovery: None,
            bus: None,
            params,
            entities: None,
            naming: None,
        },
        path: format!("units/{name}.toml"),
    }
}

fn manifest(name: &str, level: Option<i64>) -> Vec<u8> {
    let params = level.map_or(String::new(), |n| {
        format!("[params.level]\ntype = \"int\"\ndefault = {n}\n")
    });
    format!("schema = 1\n[unit]\nname = \"{name}\"\nkind = \"service\"\n{params}").into_bytes()
}

fn repo_unit(name: &str, level: Option<i64>) -> RepoUnit {
    RepoUnit { manifest: manifest(name, level), files_hash: format!("files of {name}") }
}

fn repo_units() -> Vec<RepoUnit> {
    vec![repo_unit("alpha", None), repo_unit("beta", None), repo_unit("gamma", Some(5))]
}

fn house() -> CheckResult {
    let house = House {
        units: vec![unit("alpha", None), unit("beta", None), unit("gamma", Some(5))],
        entities: vec![],
        zones: NameMap::new(),
        dashboard: None,
    };
    let result = check(house, vec![]);
    assert!(result.errors.is_empty());
    result
}

/// `beta` runs on other files, `gamma` with another default, and `ghost` left
/// the house.
fn running() -> World {
    let mut world = World::live("tcp/x");
    let mut beta = world_unit_from_repo(repo_unit("beta", None));
    beta.files_hash = "older files".to_string();
    world.record_unit("beta".to_string(), beta);
    world.record_unit(
        "gamma".to_string(),
        world_unit_from_repo(repo_unit("gamma", Some(1))),
    );
    world.record_unit("ghost".to_string(), world_unit_from_repo(repo_unit("ghost", None)));
    world.record_param("gamma", "level", Json::from_int(1));
    world
}

fn restarted(d: &Diff) -> Vec<String> {
    d.restarts.iter().map(|r| r.name.clone()).collect()
}

fn take(world: &mut World, name: &str, action: StepAction) {
    match action {
        StepAction::Stop => world.forget_unit(name),
        _ => {
            let level = if name == "gamma" { Some(5) } else { None };
            world.record_unit(name.to_string(), world_unit_from_repo(repo_unit(name, level)));
        }
    }
}

#[test]
fn a_halted_walk_leaves_what_it_did_not_do() {
    let (result, repo) = (house(), repo_units());
    let mut world = running();
    let d = diff(&result, &repo, &world);
    assert_eq!(d.creates, ["alpha"]);
    assert_eq!(restarted(&d), ["beta"]);
    assert_eq!(d.destroys, ["ghost"]);
    assert_eq!(d.refreshes.len(), 1);
    let steps = walk_steps(&d, &result, &world);
    let walk: Vec<&str> = steps.iter().map(|s| s.unit.as_str()).collect();
    assert_eq!(walk, ["ghost", "alpha", "beta"]);

    take(&mut world, &steps[0].unit, steps[0].action);
    let next = diff(&result, &repo, &world);
    assert_eq!(next.creates, ["alpha"]);
    assert_eq!(restarted(&next), ["beta"]);
    assert!(next.destroys.is_empty());

    take(&mut world, &steps[1].unit, steps[1].action);
    let next = diff(&result, &repo, &world);
    assert!(next.creates.is_empty());
    assert_eq!(restarted(&next), ["beta"]);
    assert!(next.destroys.is_empty());
}

/// Runs an apply whose steps all succeed, up to the one of `broken`.
fn applied(world: &mut World, store: &mut ConfigStore, broken: Option<&str>) -> ApplyResult {
    let (result, repo) = (house(), repo_units());
    world.read_store(store);
    let (d, tier) = match begin(&result, &repo, world) {
        Begin::Walk { diff, tier, .. } => (diff, tier),
        Begin::Settled(result) => return result,
    };
    let changed = store.replace_from_house(&result.house);
    let params = changed
        .into_iter()
        .map(|(unit, param, value)| ApplyParam { unit, param, value })
        .collect();
    let mut walk = Walk::new(tier, params, walk_steps(&d, &result, world));
    while let Some(step) = walk.current().cloned() {
        if broken == Some(step.unit.as_str()) {
            walk.failed("stopped".to_string());
        } else if step.action == StepAction::Stop {
            walk.stopped(world);
        } else {
            walk.came_up(world, repo_unit(&step.unit, None));
        }
    }
    let outcome = walk.finish();
    let commit = Some("abc".to_string());
    advance(world, &outcome, &d, &result.house, &repo, vec![], commit);
    outcome
}

fn store_at(level: i64) -> ConfigStore {
    let house = House {
        units: vec![unit("gamma", Some(level))],
        entities: vec![],
        zones: NameMap::new(),
        dashboard: None,
    };
    ConfigStore::from_house(&house)
}

#[test]
fn an_applied_plan_leaves_nothing() {
    let mut world = running();
    let mut store = store_at(1);
    let first = applied(&mut world, &mut store, None);
    assert!(first.ok);
    assert_eq!(first.params.len(), 1);
    let walk: Vec<&str> = first.steps.iter().map(|s| s.unit.as_str()).collect();
    assert_eq!(walk, ["ghost", "alpha", "beta"]);
    assert!(world.units.get("ghost").is_none());
    let gamma = world.units.get("gamma").unwrap();
    assert_eq!(gamma.manifest, manifest("gamma", Some(5)));
    assert_eq!(world.applied_commit, Some("abc".to_string()));

    let second = applied(&mut world, &mut store, None);
    assert!(second.ok);
    assert_eq!(second.tier, None);
    assert!(second.params.is_empty() && second.steps.is_empty());
}

#[test]
fn a_refused_step_leaves_the_refresh_for_the_next_apply() {
    let mut world = running();
    let mut store = store_at(1);
    let first = applied(&mut world, &mut store, Some("alpha"));
    assert!(!first.ok);
    assert_eq!(first.halted_at, Some("alpha".to_string()));
    assert_eq!(first.not_reached, ["beta"]);
    let gamma = world.units.get("gamma").unwrap();
    assert_eq!(gamma.manifest, manifest("gamma", Some(1)));

    let second = applied(&mut world, &mut store, None);
    let walk: Vec<&str> = second.steps.iter().map(|s| s.unit.as_str()).collect();
    assert_eq!(walk, ["alpha", "beta"]);
    assert!(second.ok && second.params.is_empty());
    assert!(applied(&mut world, &mut store, None).steps.is_empty());
}

#[test]
fn a_parameter_only_plan_walks_nowhere() {
    let (result, repo) = (house(), repo_units());
    let mut world = World::live("tcp/x");
    for (name, level) in [("alpha", None), ("beta", None), ("gamma", Some(1))] {
        world.record_unit(name.to_string(), world_unit_from_repo(repo_unit(name, level)));
    }
    world.record_param("gamma", "level", Json::from_int(1));
    let d = diff(&result, &repo, &world);
    assert_eq!(derive_tier(&d), Tier::ParameterOnly);
    assert_eq!(d.params.len(), 1);
    assert!(walk_steps(&d, &result, &world).is_empty());
}

#[test]
fn shared_unit_names_are_refused() {
    let house = House {
        units: vec![unit("alpha", None), unit("alpha", None)],
        entities: vec![],
        zones: NameMap::new(),
        dashboard: None,
    };
    let result = check(house, vec![]);
    assert_eq!(result.errors.len(), 1);
    assert_eq!(result.errors[0].code, "duplicate-unit-name");
}

#[test]
fn formatting_is_no_change() {
    let plain = manifest("gamma", Some(5));
    let mut commented = b"# the gamma unit\n\n".to_vec();
    commented.extend_from_slice(&plain);
    assert_ne!(sha256_hex(&plain), sha256_hex(&commented));
    assert!(param_level_only(&commented, &plain));
    assert!(refresh_changes(&commented, &plain).is_empty());
}

#[test]
fn renames_and_edits_change_the_hash() {
    let path = |p: &str| vec!["units/a.py".to_string(), p.to_string()];
    let files = |b: &[u8]| vec![Some(b"x".to_vec()), Some(b.to_vec())];
    let hash = files_hash(&path("zones.toml"), &files(b"y"));
    assert_ne!(hash, files_hash(&path("zones2.toml"), &files(b"y")));
    assert_ne!(hash, files_hash(&path("zones.toml"), &files(b"z")));
    assert_ne!(
        hash,
        files_hash(&path("zones.toml"), &vec![Some(b"x".to_vec()), None])
    );
}

#[test]
fn keys_lead_back() {
    let result = house();
    let mut store = ConfigStore::from_house(&result.house);
    let key = config_key("gamma", "level");
    match config_query(&mut store, &key, Some(b"7".to_vec())) {
        ConfigReply::Stored { key: stored, text } => {
            assert_eq!(stored, key);
            assert_eq!(text, "7");
        }
        _ => panic!("the write was not taken"),
    }
    let mut world = World::live("tcp/x");
    world.on_config(&key, b"7");
    assert_eq!(world.params.get_pair("gamma", "level"), Some(&Json::from_int(7)));

    for (key, field) in [
        (manifest_key("gamma"), "manifest"),
        (manifest_hash_key("gamma"), "manifest_hash"),
        (files_hash_key("gamma"), "files_hash"),
    ] {
        assert_eq!(
            meta_key(&key),
            MetaKey::Unit { unit: "gamma".to_string(), field: field.to_string() }
        );
    }
}

#[test]
fn what_is_served_is_what_is_read() {
    let served = world_unit_from_repo(repo_unit("gamma", Some(5)));
    let mut world = World::live("tcp/x");
    world.on_meta(&manifest_key("gamma"), served.manifest.clone());
    world.on_meta(&manifest_hash_key("gamma"), served.manifest_hash.clone().into_bytes());
    world.on_meta(&files_hash_key("gamma"), served.files_hash.clone().into_bytes());
    let read: &WorldUnit = world.units.get("gamma").unwrap();
    assert_eq!(*read, served);
}

fn lamp(name: &str, room: &str) -> LoadedEntity {
    LoadedEntity {
        name: name.to_string(),
        file: EntityFile {
            schema: 1,
            entity: EntitySection {
                id: Some(name.to_string()),
                capability: "light".to_string(),
                features: vec![],
                room: room.to_string(),
            },
            naming: None,
            write_policy: WritePolicy {
                mode: Some(WriteMode::Shared),
                owner: "zigbee".to_string(),
            },
            inputs: None,
            dashboard: None,
        },
        path: format!("entities/zigbee/{name}.toml"),
        owner: "zigbee".to_string(),
    }
}

#[test]
fn zones_never_appear_in_keys() {
    let mut listener = unit("listener", None);
    let mut subscribes = NameMap::new();
    subscribes.insert("lights".to_string(), "home/state/downstairs/*/on".to_string());
    listener.manifest.bus = Some(BusSection { subscribes, publishes: NameMap::new() });
    let mut zones = NameMap::new();
    zones.insert(
        "downstairs".to_string(),
        vec!["kitchen".to_string(), "hall".to_string()],
    );
    let house = House {
        units: vec![listener],
        entities: vec![lamp("a", "kitchen"), lamp("b", "hall")],
        zones,
        dashboard: None,
    };
    let (keys, errors) = expand(&house);
    assert!(errors.is_empty());
    assert_eq!(keys[0].unit, "listener");
    assert_eq!(keys[0].entry, "lights");
    assert_eq!(keys[0].zone, Some("downstairs".to_string()));
    let texts: Vec<String> = keys[0].exprs.iter().map(|k| k.to_string()).collect();
    assert_eq!(texts, ["home/state/kitchen/*/on", "home/state/hall/*/on"]);
    assert!(keys[0].exprs.iter().all(|k| !k.has_template()));
}

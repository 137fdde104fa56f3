use homeostat::expand::expand;
use homeostat::keyspace::KeyExpr;
use homeostat::manifest::{
    BusSection, EntityFile, EntitySection, PublishSpec, RestartPolicy, RuntimeSection, UnitKind,
    UnitManifest, UnitSection, WriteMode, WritePolicy,
};
use homeostat::names::NameMap;
use homeostat::repo::{House, LoadedEntity, LoadedUnit};

fn unit(name: &str, kind: UnitKind, bus: BusSection) -> LoadedUnit {
    LoadedUnit {
        manifest: UnitManifest {
            schema: 1,
            unit: UnitSection { name: name.to_string(), kind, description: None, inputs: None },
            runtime: RuntimeSection {
                command: "true".to_string(),
                restart: RestartPolicy::Always,
                shutdown_grace_s: None,
            },
            discovery: None,
            bus: Some(bus),
            params: None,
            entities: None,
            naming: None,
        },
        path: format!("units/{name}.toml"),
    }
}

fn adapter_unit(name: &str, bus: BusSection) -> LoadedUnit {
    unit(name, UnitKind::Adapter, bus)
}

fn entity(
    name: &str,
    room: &str,
    capability: &str,
    mode: WriteMode,
    adapter: &str,
) -> LoadedEntity {
    LoadedEntity {
        name: name.to_string(),
        file: EntityFile {
            schema: 1,
            entity: EntitySection {
                id: Some(name.to_string()),
                capability: capability.to_string(),
                features: vec![],
                room: room.to_string(),
            },
            naming: None,
            write_policy: WritePolicy { mode: Some(mode), owner: adapter.to_string() },
            inputs: None,
            dashboard: None,
        },
        path: format!("entities/{adapter}/{name}.toml"),
        owner: adapter.to_string(),
    }
}

fn subscribes(entries: &[(&str, &str)]) -> BusSection {
    let mut subscribes: NameMap<String> = NameMap::new();
    for (name, key) in entries {
        subscribes.insert(name.to_string(), key.to_string());
    }
    BusSection { subscribes, publishes: NameMap::new() }
}

#[test]
fn adapter_template_splits_cmd_and_arbiter_by_write_mode() {
    let bus = subscribes(&[
        ("commands", "home/cmd/{room}/{entity}/**"),
        ("arbiter_commands", "home/arbiter/{room}/{entity}/**"),
    ]);

    let house = House {
        units: vec![adapter_unit("zigbee", bus)],
        entities: vec![
            entity("lamp", "kitchen", "light", WriteMode::Shared, "zigbee"),
            entity("lock", "hallway", "lock", WriteMode::Arbitrated, "zigbee"),
        ],
        zones: NameMap::new(),
        dashboard: None,
    };

    let (expanded, errors) = expand(&house);
    assert!(errors.is_empty(), "{errors:?}");

    let cmd = expanded.iter().find(|k| k.entry == "commands").unwrap();
    assert_eq!(cmd.exprs, vec![KeyExpr::parse("home/cmd/kitchen/lamp/**").unwrap()]);

    let arbiter = expanded.iter().find(|k| k.entry == "arbiter_commands").unwrap();
    assert_eq!(arbiter.exprs, vec![KeyExpr::parse("home/arbiter/hallway/lock/**").unwrap()]);
}

#[test]
fn cmd_template_expands_to_nothing_without_error_when_all_bound_entities_are_arbitrated() {
    let bus = subscribes(&[("commands", "home/cmd/{room}/{entity}/**")]);

    let house = House {
        units: vec![adapter_unit("zigbee", bus)],
        entities: vec![entity("lock", "hallway", "lock", WriteMode::Arbitrated, "zigbee")],
        zones: NameMap::new(),
        dashboard: None,
    };

    let (expanded, errors) = expand(&house);
    assert!(errors.is_empty(), "{errors:?}");
    let cmd = expanded.iter().find(|k| k.entry == "commands").unwrap();
    assert!(cmd.exprs.is_empty());
}

#[test]
fn a_zone_expands_to_its_rooms() {
    let mut zones: NameMap<Vec<String>> = NameMap::new();
    zones.insert("downstairs".to_string(), vec!["kitchen".to_string(), "hallway".to_string()]);
    let house = House {
        units: vec![unit(
            "watch",
            UnitKind::Automation,
            subscribes(&[("presence", "home/state/downstairs/**/presence")]),
        )],
        entities: vec![],
        zones,
        dashboard: None,
    };
    let (expanded, errors) = expand(&house);
    assert!(errors.is_empty(), "{errors:?}");
    assert_eq!(expanded.len(), 1);
    assert_eq!(expanded[0].zone, Some("downstairs".to_string()));
    let texts: Vec<String> = expanded[0].exprs.iter().map(|e| e.to_string()).collect();
    assert_eq!(texts, vec!["home/state/kitchen/**/presence", "home/state/hallway/**/presence"]);
}

#[test]
fn keys_outside_the_schema_and_stray_templates_are_refused() {
    let mut bus = subscribes(&[
        ("bad", "home/telemetry/a/b/c"),
        ("tmpl", "home/state/{room}/{entity}/**"),
    ]);
    bus.publishes.insert(
        "blank".to_string(),
        PublishSpec { key: "home//x".to_string(), capability: None, priority: None },
    );
    let house = House {
        units: vec![unit("svc", UnitKind::Service, bus)],
        entities: vec![],
        zones: NameMap::new(),
        dashboard: None,
    };
    let (expanded, errors) = expand(&house);
    assert!(expanded.is_empty());
    // Publishes come before subscribes.
    assert_eq!(errors[0].subject, "svc.blank");
    let codes: Vec<&str> = errors.iter().map(|e| e.code).collect();
    assert_eq!(
        codes,
        vec!["key-outside-schema", "key-outside-schema", "template-outside-binding-unit"]
    );
}

use homeostat::expand::expand;
use homeostat::grants::{resolve, resolve_feeds, GrantEntity};
use homeostat::keyspace::KeyExpr;
use homeostat::manifest::{
    BusSection, EntityFile, EntitySection, InputSource, Priority, PublishSpec, RestartPolicy,
    RuntimeSection, UnitKind, UnitManifest, UnitSection, WriteMode, WritePolicy,
};
use homeostat::names::NameMap;
use homeostat::repo::{House, LoadedEntity, LoadedUnit};

fn unit(name: &str, kind: UnitKind, bus: BusSection) -> LoadedUnit {
    LoadedUnit {
        manifest: UnitManifest {
            schema: 1,
            unit: UnitSection { name: name.to_string(), kind, description: None, inputs: None },
            runtime: RuntimeSection {
                command: "true".to_string(),
                restart: RestartPolicy::Always,
                shutdown_grace_s: None,
            },
            discovery: None,
            bus: Some(bus),
            params: None,
            entities: None,
            naming: None,
        },
        path: format!("units/{name}.toml"),
    }
}

fn entity(
    name: &str,
    room: &str,
    capability: &str,
    mode: WriteMode,
    adapter: &str,
) -> LoadedEntity {
    LoadedEntity {
        name: name.to_string(),
        file: EntityFile {
            schema: 1,
            entity: EntitySection {
                id: Some(name.to_string()),
                capability: capability.to_string(),
                features: vec![],
                room: room.to_string(),
            },
            naming: None,
            write_policy: WritePolicy { mode: Some(mode), owner: adapter.to_string() },
            inputs: None,
            dashboard: None,
        },
        path: format!("entities/{adapter}/{name}.toml"),
        owner: adapter.to_string(),
    }
}

fn publish(key: &str, capability: Option<&str>, priority: Option<Priority>) -> PublishSpec {
    PublishSpec { key: key.to_string(), capability: capability.map(|c| c.to_string()), priority }
}

fn bus(subscribes: &[(&str, &str)], publishes: Vec<(&str, PublishSpec)>) -> BusSection {
    let mut s: NameMap<String> = NameMap::new();
    for (name, key) in subscribes {
        s.insert(name.to_string(), key.to_string());
    }
    let mut p: NameMap<PublishSpec> = NameMap::new();
    for (name, spec) in publishes {
        p.insert(name.to_string(), spec);
    }
    BusSection { subscribes: s, publishes: p }
}

/// Builds a house with an arbitrated lock and a shared lamp, both bound
/// to adapter "zigbee", plus an automation wishing to command the lock.
/// `arbiter_bus` lets each test decide whether an arbiter-class publish
/// covers the lock.
fn house_with_lock(arbiter_bus: Option<BusSection>) -> House {
    let zigbee_bus = bus(
        &[
            ("commands", "home/cmd/{room}/{entity}/**"),
            ("arbiter_commands", "home/arbiter/{room}/{entity}/**"),
        ],
        vec![],
    );
    let night_mode_bus = bus(
        &[],
        vec![(
            "lock",
            publish("home/cmd/hallway/lock/lock", Some("lock"), Some(Priority::Automation)),
        )],
    );

    let mut units = vec![
        unit("zigbee", UnitKind::Adapter, zigbee_bus),
        unit("night_mode", UnitKind::Automation, night_mode_bus),
    ];
    if let Some(arbiter_bus) = arbiter_bus {
        units.push(unit("arbiter", UnitKind::Service, arbiter_bus));
    }

    House {
        units,
        entities: vec![
            entity("lamp", "kitchen", "light", WriteMode::Shared, "zigbee"),
            entity("lock", "hallway", "lock", WriteMode::Arbitrated, "zigbee"),
        ],
        zones: NameMap::new(),
        dashboard: None,
    }
}

#[test]
fn arbitrated_entity_covered_by_arbiter_publish_has_no_errors() {
    // A service (not an adapter) cannot use {room}/{entity} templates, so
    // it covers arbitrated entities with a plain wildcard instead.
    let arbiter_bus = bus(&[], vec![("forwarded", publish("home/arbiter/**", None, None))]);
    let house = house_with_lock(Some(arbiter_bus));

    let (expanded, expand_errors) = expand(&house);
    assert!(expand_errors.is_empty(), "{expand_errors:?}");

    // Correct expansion split: the adapter's cmd template excludes the
    // arbitrated lock, its arbiter template includes only the lock.
    let cmd = expanded.iter().find(|k| k.entry == "commands").unwrap();
    assert_eq!(cmd.exprs, vec![KeyExpr::parse("home/cmd/kitchen/lamp/**").unwrap()]);
    let arbiter_cmd = expanded.iter().find(|k| k.entry == "arbiter_commands").unwrap();
    assert_eq!(arbiter_cmd.exprs, vec![KeyExpr::parse("home/arbiter/hallway/lock/**").unwrap()]);

    let (grants, warnings, errors) = resolve(&house, &expanded);
    assert!(errors.is_empty(), "{errors:?}");
    assert!(warnings.is_empty(), "{warnings:?}");
    let night_mode = grants.iter().find(|g| g.unit == "night_mode").unwrap();
    assert_eq!(
        night_mode.entities,
        vec![GrantEntity {
            name: "lock".to_string(),
            room: "hallway".to_string(),
            write: WriteMode::Arbitrated,
            owner: "zigbee".to_string(),
        }]
    );
}

/// The tier-escalation property behind the "entity moves, write-policy
/// changes" structural rule: a room move or a write-mode flip changes the
/// resolved grant table, so it diffs as a grant delta.
#[test]
fn entity_move_and_policy_flip_change_the_grant_table() {
    let arbiter_bus =
        || Some(bus(&[], vec![("forwarded", publish("home/arbiter/**", None, None))]));
    let baseline = house_with_lock(arbiter_bus());
    let (expanded, _) = expand(&baseline);
    let (grants, _, _) = resolve(&baseline, &expanded);

    let mut moved = house_with_lock(arbiter_bus());
    moved.entities[1].file.entity.room = "porch".to_string();
    // The publish key still names the old room, so re-expansion changes
    // the granted set — either way the tables differ.
    let (expanded, _) = expand(&moved);
    let (moved_grants, _, _) = resolve(&moved, &expanded);
    assert_ne!(grants, moved_grants, "a room move must change the grant table");

    let mut flipped = house_with_lock(arbiter_bus());
    flipped.entities[0].file.write_policy.mode = Some(WriteMode::Exclusive);
    // The lamp is granted to nobody; flip the lock instead, which
    // night_mode writes.
    flipped.entities[1].file.write_policy.mode = Some(WriteMode::Shared);
    let (expanded, _) = expand(&flipped);
    let (flipped_grants, _, _) = resolve(&flipped, &expanded);
    assert_ne!(grants, flipped_grants, "a write-mode flip must change the grant table");
}

/// A latch: automation "modes" binds a switch, subscribes to its cmd
/// keys and publishes its state; automation "buttons" commands it.
/// `listens` decides whether modes declares the cmd subscription.
fn house_with_latch(listens: bool) -> House {
    let listening: &[(&str, &str)] =
        if listens { &[("commands", "home/cmd/{room}/{entity}/**")] } else { &[] };
    let modes_bus =
        bus(listening, vec![("state", publish("home/state/{room}/{entity}/**", None, None))]);
    let buttons_bus = bus(
        &[],
        vec![(
            "mode",
            publish("home/cmd/global/house_mode/on", Some("switch"), Some(Priority::Automation)),
        )],
    );

    House {
        units: vec![
            unit("modes", UnitKind::Automation, modes_bus),
            unit("buttons", UnitKind::Automation, buttons_bus),
        ],
        entities: vec![entity("house_mode", "global", "switch", WriteMode::Shared, "modes")],
        zones: NameMap::new(),
        dashboard: None,
    }
}

#[test]
fn a_commanded_virtual_entity_whose_owner_listens_is_a_latch() {
    let house = house_with_latch(true);
    let (expanded, expand_errors) = expand(&house);
    assert!(expand_errors.is_empty(), "{expand_errors:?}");

    let (grants, warnings, errors) = resolve(&house, &expanded);
    assert!(errors.is_empty(), "{errors:?}");
    assert!(warnings.is_empty(), "{warnings:?}");
    let buttons = grants.iter().find(|g| g.unit == "buttons").unwrap();
    // The owner is the automation: it becomes the walk-order edge source.
    assert_eq!(
        buttons.entities,
        vec![GrantEntity {
            name: "house_mode".to_string(),
            room: "global".to_string(),
            write: WriteMode::Shared,
            owner: "modes".to_string(),
        }]
    );
}

#[test]
fn a_commanded_virtual_entity_nobody_listens_for_is_a_plan_error() {
    let house = house_with_latch(false);
    let (expanded, expand_errors) = expand(&house);
    assert!(expand_errors.is_empty(), "{expand_errors:?}");

    let (_grants, _warnings, errors) = resolve(&house, &expanded);
    let codes: Vec<&str> = errors.iter().map(|e| e.code).collect();
    assert_eq!(codes, vec!["virtual-entity-commanded"], "{errors:?}");
}

#[test]
fn arbitrated_entity_with_no_arbiter_publish_is_a_plan_error() {
    let house = house_with_lock(None);
    let (expanded, expand_errors) = expand(&house);
    assert!(expand_errors.is_empty(), "{expand_errors:?}");

    let (_grants, _warnings, errors) = resolve(&house, &expanded);
    assert!(
        errors.iter().any(|e| e.code == "arbitrated-uncovered" && e.subject == "lock"),
        "{errors:?}"
    );
}

fn codes_of(house: &House) -> Vec<&'static str> {
    let (expanded, expand_errors) = expand(house);
    assert!(expand_errors.is_empty(), "{expand_errors:?}");
    let (_, _, errors) = resolve(house, &expanded);
    errors.iter().map(|e| e.code).collect()
}

fn lamp_house(writers: &[&str], mode: WriteMode, spec: impl Fn() -> PublishSpec) -> House {
    let mut units = vec![unit(
        "zigbee",
        UnitKind::Adapter,
        bus(
            &[("commands", "home/cmd/{room}/{entity}/**")],
            vec![("state", publish("home/state/{room}/{entity}/**", None, None))],
        ),
    )];
    for w in writers {
        units.push(unit(w, UnitKind::Automation, bus(&[], vec![("lights", spec())])));
    }
    House {
        units,
        entities: vec![entity("lamp", "kitchen", "light", mode, "zigbee")],
        zones: NameMap::new(),
        dashboard: None,
    }
}

fn light_cmd() -> PublishSpec {
    publish("home/cmd/kitchen/**/light", Some("light"), Some(Priority::Automation))
}

#[test]
fn an_exclusive_entity_has_one_writer() {
    assert_eq!(
        codes_of(&lamp_house(&["a", "b"], WriteMode::Exclusive, light_cmd)),
        vec!["exclusive-write-conflict"]
    );
    assert_eq!(
        codes_of(&lamp_house(&["a"], WriteMode::Exclusive, light_cmd)),
        Vec::<&str>::new()
    );
    assert_eq!(
        codes_of(&lamp_house(&["a", "b"], WriteMode::Shared, light_cmd)),
        Vec::<&str>::new()
    );
}

#[test]
fn a_command_needs_a_known_capability() {
    let bare = || publish("home/cmd/kitchen/**/light", None, Some(Priority::Automation));
    assert_eq!(
        codes_of(&lamp_house(&["a"], WriteMode::Shared, bare)),
        vec!["publish-missing-capability"]
    );
    let odd = || publish("home/cmd/kitchen/**/light", Some("laser"), Some(Priority::Automation));
    assert_eq!(
        codes_of(&lamp_house(&["a"], WriteMode::Shared, odd)),
        vec!["unknown-capability"]
    );
}

#[test]
fn units_that_command_each_other_have_no_walk_order() {
    let mut house = House {
        units: vec![],
        entities: vec![
            entity("a_latch", "global", "switch", WriteMode::Shared, "a"),
            entity("b_latch", "global", "switch", WriteMode::Shared, "b"),
        ],
        zones: NameMap::new(),
        dashboard: None,
    };
    for (own, other) in [("a", "b"), ("b", "a")] {
        let key = format!("home/cmd/global/{other}_latch/on");
        house.units.push(unit(
            own,
            UnitKind::Automation,
            bus(
                &[("commands", "home/cmd/{room}/{entity}/**")],
                vec![
                    ("state", publish("home/state/{room}/{entity}/**", None, None)),
                    ("peer", publish(&key, Some("switch"), Some(Priority::Automation))),
                ],
            ),
        ));
    }
    assert!(codes_of(&house).contains(&"grant-cycle"));
}

#[test]
fn state_belongs_to_who_binds_the_entity() {
    let mut house = lamp_house(&[], WriteMode::Shared, light_cmd);
    house.units.push(unit(
        "liar",
        UnitKind::Automation,
        bus(&[], vec![("state", publish("home/state/kitchen/lamp/on", None, None))]),
    ));
    assert_eq!(codes_of(&house), vec!["state-publish-unbound"]);
}

fn feed(entity: &str, aspect: &str) -> Option<NameMap<InputSource>> {
    let mut m: NameMap<InputSource> = NameMap::new();
    m.insert(
        "indoor".to_string(),
        InputSource { entity: entity.to_string(), aspect: aspect.to_string() },
    );
    Some(m)
}

#[test]
fn a_feed_is_resolved_to_its_state_key() {
    let mut house = lamp_house(&[], WriteMode::Shared, light_cmd);
    house.entities.push(entity("probe", "cellar", "sensor", WriteMode::Shared, "zigbee"));
    house.entities[0].file.inputs = feed("probe", "temperature");
    let (expanded, _) = expand(&house);
    let (feeds, errors) = resolve_feeds(&house, &expanded);
    assert!(errors.is_empty(), "{errors:?}");
    assert_eq!(feeds.len(), 1);
    assert_eq!(feeds[0].key, "home/state/cellar/probe/temperature");
    assert_eq!(feeds[0].source_owner, "zigbee");

    house.entities[0].file.inputs = feed("ghost", "temperature");
    let (expanded, _) = expand(&house);
    let (feeds, errors) = resolve_feeds(&house, &expanded);
    assert!(feeds.is_empty());
    assert_eq!(errors[0].code, "input-unknown-entity");
}

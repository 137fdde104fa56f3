use homeostat::check;
use homeostat::error::{explain, CODES};
use homeostat::manifest::{
    BusSection, DashboardFile, DiscoveryMode, DiscoverySection, EntitiesSection, EntityFile,
    EntitySection, InputSource, ParamSpec, ParamType, PublishSpec, RestartPolicy, RuntimeSection,
    UnitKind, UnitManifest, UnitSection, ViewSpec, WidgetKind, WidgetSpec, WriteMode, WritePolicy,
};
use homeostat::names::NameMap;
use homeostat::repo::{load, House, HouseFiles, LoadedEntity, LoadedUnit, ReadFile};
use homeostat::specimens::{specimen, Specimen};
use homeostat::tomlvalue::{TomlData, TomlValue};

fn manifest(name: &str, kind: UnitKind) -> UnitManifest {
    let adapter = kind == UnitKind::Adapter;
    UnitManifest {
        schema: 1,
        unit: UnitSection { name: name.to_string(), kind, description: None, inputs: None },
        runtime: RuntimeSection {
            command: "true".to_string(),
            restart: RestartPolicy::Always,
            shutdown_grace_s: None,
        },
        discovery: adapter.then_some(DiscoverySection {
            mode: DiscoveryMode::Static,
            endpoint: Some("mqtt://host".to_string()),
            service: None,
        }),
        bus: None,
        params: None,
        entities: adapter.then_some(EntitiesSection { dir: format!("entities/{name}/") }),
        naming: None,
    }
}

fn unit(name: &str, kind: UnitKind, publishes: &[(&str, &str, Option<&str>)]) -> LoadedUnit {
    let mut manifest = manifest(name, kind);
    let mut bus = BusSection { subscribes: NameMap::new(), publishes: NameMap::new() };
    for (entry, key, capability) in publishes {
        bus.publishes.insert(
            entry.to_string(),
            PublishSpec {
                key: key.to_string(),
                capability: capability.map(|c| c.to_string()),
                priority: None,
            },
        );
    }
    manifest.bus = Some(bus);
    LoadedUnit { manifest, path: format!("units/{name}.toml") }
}

fn entity(name: &str, room: &str, capability: &str, owner: &str) -> LoadedEntity {
    LoadedEntity {
        name: name.to_string(),
        file: EntityFile {
            schema: 1,
            entity: EntitySection {
                id: Some(format!("{name}-1")),
                capability: capability.to_string(),
                features: vec![],
                room: room.to_string(),
            },
            naming: None,
            write_policy: WritePolicy {
                mode: Some(WriteMode::Shared),
                owner: owner.to_string(),
            },
            inputs: None,
            dashboard: None,
        },
        path: format!("entities/{owner}/{name}.toml"),
        owner: owner.to_string(),
    }
}

fn fed(mut e: LoadedEntity, source: &str) -> LoadedEntity {
    let mut inputs: NameMap<InputSource> = NameMap::new();
    inputs.insert(
        "indoor".to_string(),
        InputSource { entity: source.to_string(), aspect: "on".to_string() },
    );
    e.file.inputs = Some(inputs);
    e
}

fn number(i: i64) -> TomlValue {
    TomlValue { text: i.to_string(), data: TomlData::Integer(i) }
}

fn units() -> Vec<LoadedUnit> {
    let peer = |other: &str| format!("home/cmd/hall/{other}_latch/on");
    let lights = ("lights", "home/cmd/kitchen/**/light", Some("light"));
    let mut second = unit("zigbee", UnitKind::Adapter, &[]);
    second.manifest.discovery = None;
    let mut a = unit(
        "a",
        UnitKind::Automation,
        &[
            lights,
            ("peer", &peer("b"), Some("switch")),
            ("mute", "home/cmd/kitchen/**", None),
            ("lie", "home/state/kitchen/lamp/on", None),
        ],
    );
    let mut constraint: NameMap<TomlValue> = NameMap::new();
    constraint.insert("about".to_string(), number(3));
    let mut params: NameMap<ParamSpec> = NameMap::new();
    params.insert(
        "level".to_string(),
        ParamSpec {
            param_type: ParamType::Bool,
            default: number(1),
            constraint: Some(constraint),
            editable_by: None,
        },
    );
    a.manifest.params = Some(params);
    vec![
        unit("zigbee", UnitKind::Adapter, &[("state", "home/state/{room}/{entity}/**", None)]),
        second,
        a,
        unit("b", UnitKind::Automation, &[lights, ("peer", &peer("a"), Some("switch"))]),
        unit("bad name", UnitKind::Automation, &[]),
        unit(
            "system",
            UnitKind::Service,
            &[
                ("core", "home/config/a/level", None),
                ("every", "home/state/{room}/{entity}/**", None),
                ("out", "garage/door", None),
            ],
        ),
    ]
}

fn entities() -> Vec<LoadedEntity> {
    let mut lamp = fed(entity("lamp", "kitchen", "light", "zigbee"), "ghost");
    lamp.file.write_policy.mode = Some(WriteMode::Exclusive);
    let mut twin = fed(entity("lamp", "kitchen", "light", "zigbee"), "a_latch");
    twin.file.write_policy.mode = None;
    let mut old = entity("old", "home", "warp", "zigbee");
    old.file.entity.id = None;
    old.file.dashboard = Some(number(1));
    let mut strange = entity("strange", "hall", "switch", "zigbee");
    strange.file.write_policy.owner = "a".to_string();
    let mut judged = fed(entity("judged", "hall", "switch", "a"), "lamp");
    judged.file.write_policy.mode = Some(WriteMode::Arbitrated);
    vec![
        lamp,
        twin,
        old,
        strange,
        judged,
        entity("orphan", "cellar", "sensor", "nobody"),
        entity("a_latch", "hall", "switch", "a"),
        entity("b_latch", "hall", "switch", "b"),
    ]
}

fn widget(kind: WidgetKind) -> WidgetSpec {
    WidgetSpec {
        kind,
        entity: None,
        aspect: None,
        room: None,
        unit: None,
        hours: None,
        label: None,
        widgets: vec![],
    }
}

fn views() -> Vec<ViewSpec> {
    let tile = |entity: &str, aspect: Option<&str>| WidgetSpec {
        entity: Some(entity.to_string()),
        aspect: aspect.map(|a| a.to_string()),
        ..widget(WidgetKind::Tile)
    };
    let widgets = vec![
        widget(WidgetKind::Tile),
        tile("ghost", None),
        tile("lamp", Some("not one segment")),
        WidgetSpec { entity: Some("lamp".to_string()), ..widget(WidgetKind::Burner) },
        WidgetSpec { room: Some("attic".to_string()), ..widget(WidgetKind::Room) },
        WidgetSpec { unit: Some("nobody".to_string()), ..widget(WidgetKind::Unit) },
        WidgetSpec { widgets: vec![widget(WidgetKind::Group)], ..widget(WidgetKind::Group) },
    ];
    vec![
        ViewSpec { name: "health".to_string(), kind: None, widgets },
        ViewSpec { name: "empty".to_string(), kind: None, widgets: vec![] },
        ViewSpec { name: "empty".to_string(), kind: None, widgets: vec![] },
    ]
}

fn house() -> House {
    let mut zones: NameMap<Vec<String>> = NameMap::new();
    zones.insert("state".to_string(), vec![]);
    zones.insert("cellar".to_string(), vec!["global".to_string(), "attic".to_string()]);
    House {
        units: units(),
        entities: entities(),
        zones,
        dashboard: Some(DashboardFile { view: views() }),
    }
}

fn read(name: &str, content: Result<UnitManifest, String>) -> ReadFile<UnitManifest> {
    ReadFile { name: name.to_string(), content }
}

#[test]
fn the_registered_codes_are_those_that_loading_and_checking_report() {
    let mut early = manifest("early", UnitKind::Service);
    early.schema = 0;
    let (_, mut errors) = load(HouseFiles {
        zones: None,
        dashboard: None,
        units: Some(vec![
            read("early.toml", Ok(early)),
            read("torn.toml", Err("expected `=`".to_string())),
            read("zigbee.toml", Ok(manifest("zigbee", UnitKind::Adapter))),
        ]),
        entities: vec![None],
    });
    let (_, mut without) =
        load(HouseFiles { zones: None, dashboard: None, units: None, entities: vec![] });
    errors.append(&mut without);
    let result = check(house(), errors);
    let mut reported: Vec<&str> = result.errors.iter().map(|e| e.code).collect();
    reported.sort();
    reported.dedup();
    let mut registered: Vec<&str> = CODES.iter().map(|(code, _)| *code).collect();
    registered.sort();
    assert_eq!(reported, registered);
    assert!(reported.iter().all(|code| explain(code).is_some()));
}

#[test]
fn every_registered_code_has_a_specimen_that_earns_it() {
    for (code, _) in CODES {
        let errors = match specimen(code) {
            Some(Specimen::Files(files)) => load(files).1,
            Some(Specimen::House(house)) => check(house, vec![]).errors,
            None => panic!("no specimen of {code}"),
        };
        assert!(errors.iter().any(|e| e.code == code), "{code}: {errors:?}");
    }
    assert!(specimen("no-such-code").is_none());
    assert!(explain("no-such-code").is_none());
}

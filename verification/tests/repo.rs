use homeostat::manifest::{
    EntitiesSection, EntityFile, EntitySection, RestartPolicy, RuntimeSection, UnitKind,
    UnitManifest, UnitSection, WriteMode, WritePolicy, ZonesFile,
};
use homeostat::names::NameMap;
use homeostat::repo::{entity_dirs, load, toml_files, HouseFiles, ReadFile};

fn manifest(name: &str, kind: UnitKind, dir: Option<&str>) -> UnitManifest {
    UnitManifest {
        schema: 1,
        unit: UnitSection { name: name.to_string(), kind, description: None, inputs: None },
        runtime: RuntimeSection {
            command: "true".to_string(),
            restart: RestartPolicy::Always,
            shutdown_grace_s: None,
        },
        discovery: None,
        bus: None,
        params: None,
        entities: dir.map(|d| EntitiesSection { dir: d.to_string() }),
        naming: None,
    }
}

fn unit(file: &str, content: Result<UnitManifest, String>) -> ReadFile<UnitManifest> {
    ReadFile { name: file.to_string(), content }
}

fn entity(file: &str, schema: u32) -> ReadFile<EntityFile> {
    ReadFile {
        name: file.to_string(),
        content: Ok(EntityFile {
            schema,
            entity: EntitySection {
                id: None,
                capability: "light".to_string(),
                features: vec![],
                room: "den".to_string(),
            },
            naming: None,
            write_policy: WritePolicy {
                mode: Some(WriteMode::Shared),
                owner: "zigbee".to_string(),
            },
            inputs: None,
            dashboard: None,
        }),
    }
}

#[test]
fn toml_files_are_sorted() {
    let names = ["b.toml", "a.txt", "a.toml", ".toml", "toml"];
    let names = names.iter().map(|n| n.to_string()).collect();
    assert_eq!(toml_files(names), vec![".toml", "a.toml", "b.toml"]);
}

#[test]
fn a_house_is_made_of_what_parses() {
    let units = Some(vec![
        unit("modes.toml", Ok(manifest("modes", UnitKind::Automation, Some("virtual")))),
        unit("svc.toml", Ok(manifest("svc", UnitKind::Service, Some("ignored")))),
        unit("torn.toml", Err("expected `=`".to_string())),
        unit("zigbee.toml", Ok(manifest("zigbee", UnitKind::Adapter, Some("entities/zigbee//")))),
    ]);
    let dirs = entity_dirs(&units);
    assert_eq!(
        dirs,
        vec![
            ("modes".to_string(), "virtual".to_string()),
            ("zigbee".to_string(), "entities/zigbee//".to_string()),
        ]
    );
    let mut zones: NameMap<Vec<String>> = NameMap::new();
    zones.insert("all".to_string(), vec!["den".to_string()]);
    let (house, errors) = load(HouseFiles {
        zones: Some(Ok(ZonesFile { schema: 2, zones })),
        dashboard: Some(Err("bad view".to_string())),
        units,
        entities: vec![
            None,
            Some(vec![
                entity("lamp.toml", 1),
                ReadFile { name: "torn.toml".to_string(), content: Err("eof".to_string()) },
                entity("x.toml.toml", 3),
            ]),
        ],
    });
    let lines: Vec<String> = errors.iter().map(|e| e.to_string()).collect();
    assert_eq!(
        lines,
        vec![
            "error[unsupported-schema] zones: schema 2 is not supported (expected 1) (zones.toml)",
            "error[parse-error] dashboard.toml: bad view",
            "error[parse-error] units/torn.toml: expected `=`",
            "error[missing-entities-dir] modes: entities dir \"virtual\" not found",
            "error[parse-error] entities/zigbee/torn.toml: eof",
            "error[unsupported-schema] x: schema 3 is not supported (expected 1) (entities/zigbee/x.toml.toml)",
        ]
    );
    let names: Vec<&str> = house.units.iter().map(|u| u.manifest.unit.name.as_str()).collect();
    assert_eq!(names, vec!["modes", "svc", "zigbee"]);
    assert_eq!(house.units[2].path, "units/zigbee.toml");
    assert_eq!(house.entities.len(), 2);
    assert_eq!(house.entities[0].name, "lamp");
    assert_eq!(house.entities[0].path, "entities/zigbee/lamp.toml");
    assert_eq!(house.entities[0].owner, "zigbee");
    assert_eq!(house.zones.get("all").unwrap(), &vec!["den".to_string()]);
    assert_eq!(house.rooms(), vec!["den".to_string()]);
    assert!(house.unit("svc").is_some() && house.unit("torn").is_none());
    assert!(house.entity("x").is_some());
    assert!(house.dashboard.is_none());
}

#[test]
fn a_house_without_units_is_told() {
    let (house, errors) = load(HouseFiles {
        zones: Some(Err("no toml".to_string())),
        dashboard: None,
        units: None,
        entities: vec![],
    });
    let lines: Vec<String> = errors.iter().map(|e| e.to_string()).collect();
    assert_eq!(
        lines,
        vec![
            "error[parse-error] zones.toml: no toml",
            "error[missing-units-dir] units: directory not found",
        ]
    );
    assert!(house.units.is_empty() && house.zones.is_empty());
}

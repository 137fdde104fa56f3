use homeostat::content::{command_tokens, files_hash, input_paths, manifest_hash, sha256_hex};
use homeostat::manifest::{
    EntityFile, EntitySection, RestartPolicy, RuntimeSection, UnitInputs, UnitKind, UnitManifest,
    UnitSection, WriteMode, WritePolicy,
};
use homeostat::names::NameMap;
use homeostat::repo::{House, LoadedEntity, LoadedUnit};

#[test]
fn hashes_are_sha256_in_hex() {
    assert_eq!(
        sha256_hex(b"abc"),
        "ba7816bf8f01cfea414140de5dae2223b00361a396177a9cb410ff61f20015ad"
    );
    assert_eq!(
        manifest_hash(b""),
        "e3b0c44298fc1c149afbf4c8996fb92427ae41e4649b934ca495991b7852b855"
    );
}

fn unit(name: &str, command: &str, inputs: Option<UnitInputs>) -> LoadedUnit {
    LoadedUnit {
        manifest: UnitManifest {
            schema: 1,
            unit: UnitSection {
                name: name.to_string(),
                kind: UnitKind::Service,
                description: None,
                inputs,
            },
            runtime: RuntimeSection {
                command: command.to_string(),
                restart: RestartPolicy::Always,
                shutdown_grace_s: None,
            },
            discovery: None,
            bus: None,
            params: None,
            entities: None,
            naming: None,
        },
        path: format!("units/{name}.toml"),
    }
}

fn entity(name: &str) -> LoadedEntity {
    LoadedEntity {
        name: name.to_string(),
        file: EntityFile {
            schema: 1,
            entity: EntitySection {
                id: None,
                capability: "light".to_string(),
                features: vec![],
                room: "den".to_string(),
            },
            naming: None,
            write_policy: WritePolicy {
                mode: Some(WriteMode::Shared),
                owner: "probe".to_string(),
            },
            inputs: None,
            dashboard: None,
        },
        path: format!("entities/probe/{name}.toml"),
        owner: "probe".to_string(),
    }
}

fn house(entities: &[&str]) -> House {
    House {
        units: vec![
            unit("probe", "uv run units/probe.py", None),
            unit("dash", "dash", Some(UnitInputs::House)),
        ],
        entities: entities.iter().map(|e| entity(e)).collect(),
        zones: NameMap::new(),
        dashboard: None,
    }
}

fn paths(h: &House, i: usize, zone: bool, is_file: Vec<bool>) -> Vec<String> {
    assert_eq!(command_tokens(&h.units[i]).len(), is_file.len());
    input_paths(&h.units[i], h, zone, &is_file)
}

#[test]
fn an_own_scope_units_inputs_are_its_own_files() {
    let h = house(&["lamp", "second"]);
    assert_eq!(
        paths(&h, 0, false, vec![false, false, true]),
        vec!["units/probe.py", "entities/probe/lamp.toml", "entities/probe/second.toml"]
    );
    assert_eq!(
        paths(&h, 0, true, vec![false, false, false]).last().unwrap(),
        "zones.toml"
    );
}

#[test]
fn a_house_wide_units_inputs_are_everything() {
    let before = paths(&house(&["lamp"]), 1, false, vec![false]);
    assert_eq!(
        before,
        vec!["entities/probe/lamp.toml", "units/dash.toml", "units/probe.toml", "zones.toml"]
    );
    let after = paths(&house(&["lamp", "second"]), 1, false, vec![false]);
    let read = |paths: &Vec<String>| paths.iter().map(|_| Some(b"x".to_vec())).collect();
    assert_ne!(files_hash(&after, &read(&after)), files_hash(&before, &read(&before)));
}

#[test]
fn a_files_hash_covers_names_and_bytes() {
    let one = |path: &str, bytes: &[u8]| {
        files_hash(&vec![path.to_string()], &vec![Some(bytes.to_vec())])
    };
    assert_eq!(one("a", b"b"), sha256_hex(b"a\0b\0"));
    assert_ne!(one("a", b"b"), one("b", b"b"));
    assert_ne!(one("a", b"b"), one("a", b"c"));
    assert_eq!(files_hash(&vec!["gone".to_string()], &vec![None]), sha256_hex(b""));
}

#[test]
fn a_file_listed_twice_changes_the_hash_when_it_changes() {
    let hash = |path: &str, bytes: &[u8]| {
        let paths = [path, "b", path].map(|p| p.to_string()).to_vec();
        let files = vec![Some(bytes.to_vec()), Some(b"mid".to_vec()), Some(bytes.to_vec())];
        files_hash(&paths, &files)
    };
    assert_eq!(hash("a", b"x"), sha256_hex(b"a\0x\0b\0mid\0a\0x\0"));
    assert_ne!(hash("a", b"x"), hash("a", b"y"));
    assert_ne!(hash("a", b"x"), hash("c", b"x"));
}

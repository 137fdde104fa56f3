//! For every registered code an input that earns it: the files of a house, or
//! a house. What a code explains can happen.

use crate::codes;
use crate::error::CODES;
use crate::expand;
use crate::expand::Direction;
use crate::expand::ExpandedView;
use crate::grants;
use crate::grants::Grant;
use crate::grants::GrantEntity;
use crate::grants::GrantView;
use crate::graph;
use crate::keyspace;
use crate::keyspace::SegmentView;
use crate::keyspace::CLASSES;
use crate::keyspace::PSEUDO_ROOMS;
use crate::manifest;
use crate::manifest::BusSection;
use crate::manifest::DashboardFile;
use crate::manifest::EntitiesSection;
use crate::manifest::EntityFile;
use crate::manifest::EntitySection;
use crate::manifest::InputSource;
use crate::manifest::ParamSpec;
use crate::manifest::ParamType;
use crate::manifest::Priority;
use crate::manifest::PublishSpec;
use crate::manifest::RestartPolicy;
use crate::manifest::RuntimeSection;
use crate::manifest::UnitKind;
use crate::manifest::UnitManifest;
use crate::manifest::UnitSection;
use crate::manifest::ViewSpec;
use crate::manifest::WidgetKind;
use crate::manifest::WidgetSpec;
use crate::manifest::WriteMode;
use crate::manifest::WritePolicy;
use crate::manifest::CAPABILITIES;
use crate::manifest::VOCABULARY;
use crate::names;
use crate::names::NameMap;
use crate::order;
use crate::repo;
use crate::repo::House;
use crate::repo::HouseFiles;
use crate::repo::LoadedEntity;
use crate::repo::LoadedUnit;
use crate::repo::ReadFile;
use crate::rules;
use crate::text;
use crate::text::cat3;
use crate::text::str_eq;
use crate::tomlvalue::TomlData;
use crate::tomlvalue::TomlValue;
use crate::validate;
use vstd::prelude::*;

verus! {

/// The house earns the code.
pub open spec fn earns(h: House, code: Seq<char>) -> bool {
    rules::reported(crate::check_errors(h), code)
}

/// A unit without any sections.
fn bare_unit(name: &str, kind: UnitKind) -> (r: LoadedUnit)
    ensures
        r.manifest.schema == 1,
        r.manifest.unit.name@ == name@,
        r.manifest.unit.kind == kind,
        r.manifest.discovery is None,
        r.manifest.bus is None,
        r.manifest.params is None,
        r.manifest.entities is None,
{
    LoadedUnit {
        manifest: UnitManifest {
            schema: 1,
            unit: UnitSection { name: name.to_owned(), kind, description: None, inputs: None },
            runtime: RuntimeSection {
                command: "true".to_owned(),
                restart: RestartPolicy::Always,
                shutdown_grace_s: None,
            },
            discovery: None,
            bus: None,
            params: None,
            entities: None,
            naming: None,
        },
        path: "units/a.toml".to_owned(),
    }
}

/// A unit with one publish.
fn publisher(name: &str, kind: UnitKind, key: String, capability: Option<String>) -> (r: LoadedUnit)
    ensures
        publishes_one(r, name@, kind, key@, capability),
{
    let mut publishes: NameMap<PublishSpec> = NameMap::new();
    let entry = "p".to_owned();
    let spec = PublishSpec { key, capability, priority: None };
    publishes.insert(entry, spec);
    let subscribes: NameMap<String> = NameMap::new();
    let mut unit = bare_unit(name, kind);
    unit.manifest.bus = Some(BusSection { subscribes, publishes });
    assert(unit.manifest.bus->Some_0.publishes@ =~= seq![(entry, spec)]);
    unit
}

/// The unit has one publish and nothing else on the bus.
spec fn publishes_one(
    u: LoadedUnit,
    name: Seq<char>,
    kind: UnitKind,
    key: Seq<char>,
    capability: Option<String>,
) -> bool {
    &&& u.manifest.unit.name@ == name
    &&& u.manifest.unit.kind == kind
    &&& u.manifest.bus matches Some(bus) && {
        &&& bus.subscribes@.len() == 0
        &&& bus.publishes@.len() == 1
        &&& bus.publishes@[0].0@ == "p"@
        &&& bus.publishes@[0].1.key@ == key
        &&& bus.publishes@[0].1.capability == capability
        &&& bus.publishes@[0].1.priority is None
    }
}

/// An entity of a unit, with a mode.
fn entity(name: &str, room: &str, capability: &str, owner: &str, mode: WriteMode) -> (r: LoadedEntity)
    ensures
        r.name@ == name@,
        r.owner@ == owner@,
        r.file.write_policy.owner@ == owner@,
        r.file.write_policy.mode == Some(mode),
        r.file.entity.room@ == room@,
        r.file.entity.capability@ == capability@,
        r.file.entity.id is None,
        r.file.inputs is None,
        r.file.dashboard is None,
{
    LoadedEntity {
        name: name.to_owned(),
        file: EntityFile {
            schema: 1,
            entity: EntitySection {
                id: None,
                capability: capability.to_owned(),
                features: Vec::new(),
                room: room.to_owned(),
            },
            naming: None,
            write_policy: WritePolicy { mode: Some(mode), owner: owner.to_owned() },
            inputs: None,
            dashboard: None,
        },
        path: "entities/a/b.toml".to_owned(),
        owner: owner.to_owned(),
    }
}

/// One input, fed from an entity.
fn fed_from(source: &str) -> (r: NameMap<InputSource>)
    ensures
        r@.len() == 1,
        r@[0].1.entity@ == source@,
{
    let mut inputs: NameMap<InputSource> = NameMap::new();
    let name = "i".to_owned();
    let input = InputSource { entity: source.to_owned(), aspect: "on".to_owned() };
    inputs.insert(name, input);
    assert(inputs@ =~= seq![(name, input)]);
    inputs
}

fn zero() -> (r: TomlValue)
    ensures
        r.data == TomlData::Integer(0),
{
    TomlValue { text: "0".to_owned(), data: TomlData::Integer(0) }
}

fn house(units: Vec<LoadedUnit>, entities: Vec<LoadedEntity>) -> (r: House)
    ensures
        r.units == units,
        r.entities == entities,
        r.zones@.len() == 0,
        r.dashboard is None,
{
    House { units, entities, zones: NameMap::new(), dashboard: None }
}

/// An adapter without a name and sections, and two units of a reserved name.
fn misnamed_units() -> (r: House)
    ensures
        earns(r, "invalid-name"@),
        earns(r, "invalid-manifest"@),
        earns(r, "reserved-unit-name"@),
        earns(r, "duplicate-unit-name"@),
{
    let mut units: Vec<LoadedUnit> = Vec::new();
    units.push(bare_unit("", UnitKind::Adapter));
    units.push(bare_unit("system", UnitKind::Service));
    units.push(bare_unit("system", UnitKind::Service));
    let r = house(units, Vec::new());
    proof {
        reveal_strlit("");
        rules::law_a_broken_unit_is_reported(r, 0);
        rules::law_a_broken_unit_is_reported(r, 1);
        rules::law_a_duplicate_is_reported(r, 1, 2);
    }
    r
}

/// Two entities of one name and address whose owner is not there, with a
/// room and a capability that cannot be.
fn orphaned_entities() -> (r: House)
    ensures
        earns(r, "unknown-capability"@),
        earns(r, "reserved-room-name"@),
        earns(r, "missing-owner-unit"@),
        earns(r, "entity-dashboard-retired"@),
        earns(r, "arbitrated-uncovered"@),
        earns(r, "duplicate-entity-name"@),
        earns(r, "duplicate-entity-id"@),
        earns(r, "input-unknown-entity"@),
{
    let mut first = entity("x", "home", "", "a", WriteMode::Arbitrated);
    first.file.entity.id = Some("1".to_owned());
    first.file.dashboard = Some(zero());
    first.file.inputs = Some(fed_from("y"));
    let mut second = entity("x", "home", "", "a", WriteMode::Arbitrated);
    second.file.entity.id = Some("1".to_owned());
    let mut entities: Vec<LoadedEntity> = Vec::new();
    entities.push(first);
    entities.push(second);
    let r = house(Vec::new(), entities);
    proof {
        lemma_no_capability();
        lemma_home_is_no_pseudo_room();
        reveal_strlit("x");
        reveal_strlit("y");
        assert("x"@[0] != "y"@[0]);
        reveal_with_fuel(repo::entity_named, 3);
        assert(rules::keys_of(r).len() == 0);
        rules::law_a_broken_entity_is_reported(r, 0);
        rules::law_a_duplicate_is_reported(r, 0, 1);
        rules::law_a_broken_input_is_reported(r, 0, 0);
    }
    r
}

proof fn lemma_no_capability()
    ensures
        !text::listed(CAPABILITIES@, ""@),
{
    reveal_strlit("");
    reveal_strlit("binary_sensor");
    reveal_strlit("camera");
    reveal_strlit("climate");
    reveal_strlit("cover");
    reveal_strlit("light");
    reveal_strlit("lock");
    reveal_strlit("person");
    reveal_strlit("presence");
    reveal_strlit("router");
    reveal_strlit("sensor");
    reveal_strlit("switch");
    reveal_strlit("vpn");
    assert forall|i: int| 0 <= i < CAPABILITIES@.len() implies (#[trigger] CAPABILITIES@[i])@
        != ""@ by {
        if i == 0 {
            assert(CAPABILITIES@[0]@.len() == 13);
        } else if i == 1 {
            assert(CAPABILITIES@[1]@.len() == 6);
        } else if i == 2 {
            assert(CAPABILITIES@[2]@.len() == 7);
        } else if i == 3 {
            assert(CAPABILITIES@[3]@.len() == 5);
        } else if i == 4 {
            assert(CAPABILITIES@[4]@.len() == 5);
        } else if i == 5 {
            assert(CAPABILITIES@[5]@.len() == 4);
        } else if i == 6 {
            assert(CAPABILITIES@[6]@.len() == 6);
        } else if i == 7 {
            assert(CAPABILITIES@[7]@.len() == 8);
        } else if i == 8 {
            assert(CAPABILITIES@[8]@.len() == 6);
        } else if i == 9 {
            assert(CAPABILITIES@[9]@.len() == 6);
        } else if i == 10 {
            assert(CAPABILITIES@[10]@.len() == 6);
        } else if i == 11 {
            assert(CAPABILITIES@[11]@.len() == 3);
        }
    }
}

proof fn lemma_home_is_no_pseudo_room()
    ensures
        !text::listed(PSEUDO_ROOMS@, "home"@),
{
    reveal_strlit("home");
    reveal_strlit("global");
    reveal_strlit("person");
    assert forall|i: int| 0 <= i < PSEUDO_ROOMS@.len() implies (#[trigger] PSEUDO_ROOMS@[i])@
        != "home"@ by {
        if i == 0 {
            assert(PSEUDO_ROOMS@[0]@.len() == 6);
        } else if i == 1 {
            assert(PSEUDO_ROOMS@[1]@.len() == 6);
        }
    }
}

proof fn lemma_climate_takes_commands()
    ensures
        manifest::takes_commands("climate"@),
{
    reveal_strlit("binary_sensor");
    reveal_strlit("camera");
    reveal_strlit("climate");
    reveal_strlit("setpoint");
    assert(VOCABULARY@[0].0@.len() == 13);
    assert(VOCABULARY@[1].0@.len() == 6);
    assert(VOCABULARY@[2].0@ == "climate"@);
    assert(VOCABULARY@[2].1@.len() == 8);
    reveal_with_fuel(manifest::row_from, 4);
    assert(manifest::row_from("climate"@, 0) == Some(2int));
}

/// An entity in the dir of one unit that names another, an adapter, as its
/// owner, and has neither mode nor address.
fn misplaced_entity() -> (r: House)
    ensures
        earns(r, "write-mode-required"@),
        earns(r, "entity-id-required"@),
        earns(r, "owner-mismatch"@),
{
    let mut units: Vec<LoadedUnit> = Vec::new();
    units.push(bare_unit("a", UnitKind::Adapter));
    let mut e = entity("x", "r", "climate", "a", WriteMode::Shared);
    e.file.write_policy.mode = None;
    e.owner = "b".to_owned();
    let mut entities: Vec<LoadedEntity> = Vec::new();
    entities.push(e);
    let r = house(units, entities);
    proof {
        lemma_climate_takes_commands();
        lemma_a_is_not_b();
        rules::law_a_broken_entity_is_reported(r, 0);
    }
    r
}

proof fn lemma_a_is_not_b()
    ensures
        "a"@ != "b"@,
{
    reveal_strlit("a");
    reveal_strlit("b");
    assert("a"@[0] != "b"@[0]);
}

/// A virtual entity that is arbitrated and fed, and one that is fed from it.
fn misused_latch() -> (r: House)
    ensures
        earns(r, "virtual-entity-arbitrated"@),
        earns(r, "virtual-entity-fed"@),
        earns(r, "input-unpublished-aspect"@),
{
    let mut units: Vec<LoadedUnit> = Vec::new();
    units.push(bare_unit("a", UnitKind::Automation));
    let mut latch = entity("x", "r", "switch", "a", WriteMode::Arbitrated);
    latch.file.inputs = Some(fed_from("x"));
    let mut fed = entity("y", "r", "switch", "b", WriteMode::Shared);
    fed.file.inputs = Some(fed_from("x"));
    let mut entities: Vec<LoadedEntity> = Vec::new();
    entities.push(latch);
    entities.push(fed);
    let r = house(units, entities);
    proof {
        lemma_a_is_not_b();
        reveal_with_fuel(repo::unit_named, 3);
        reveal_with_fuel(text::each, 3);
        assert(expand::unit_keys(r, r.units@[0]).len() == 0);
        assert(rules::keys_of(r).len() == 0);
        rules::law_a_broken_entity_is_reported(r, 0);
        rules::law_a_broken_input_is_reported(r, 1, 0);
    }
    r
}

/// One zone with its rooms.
fn zone(name: &str, rooms: Vec<String>) -> (r: NameMap<Vec<String>>)
    ensures
        r@.len() == 1,
        r@[0].0@ == name@,
        r@[0].1 == rooms,
{
    let mut zones: NameMap<Vec<String>> = NameMap::new();
    let own = name.to_owned();
    zones.insert(own, rooms);
    assert(zones@ =~= seq![(own, rooms)]);
    zones
}

/// A zone with a reserved name.
fn misnamed_zone() -> (r: House)
    ensures
        earns(r, "reserved-zone-name"@),
{
    let mut r = house(Vec::new(), Vec::new());
    r.zones = zone("home", Vec::new());
    proof {
        rules::law_a_broken_zone_is_reported(r, 0, 0);
    }
    r
}

/// A zone with the name of a room, of a pseudo-room and a room that is not
/// there.
fn misplaced_zone() -> (r: House)
    ensures
        earns(r, "zone-room-collision"@),
        earns(r, "zone-pseudo-room"@),
        earns(r, "zone-unknown-room"@),
{
    let mut entities: Vec<LoadedEntity> = Vec::new();
    entities.push(entity("x", "a", "switch", "c", WriteMode::Shared));
    let mut rooms: Vec<String> = Vec::new();
    rooms.push("global".to_owned());
    rooms.push("b".to_owned());
    let mut r = house(Vec::new(), entities);
    r.zones = zone("a", rooms);
    proof {
        lemma_a_is_not_b();
        lemma_a_is_no_class();
        lemma_a_is_no_pseudo_room();
        lemma_b_is_no_pseudo_room();
        reveal_strlit("home");
        reveal_strlit("a");
        assert("home"@.len() != "a"@.len());
        assert(!keyspace::reserved("a"@));
        let given = Seq::new(r.entities@.len(), |i: int| r.entities@[i].file.entity.room@);
        order::lemma_distinct(given);
        assert(given[0] == "a"@);
        assert(given.contains("a"@));
        assert(!given.contains("b"@));
        assert(PSEUDO_ROOMS@[0]@ == "global"@);
        assert(text::listed(PSEUDO_ROOMS@, "global"@));
        rules::law_a_broken_zone_is_reported(r, 0, 0);
        rules::law_a_broken_zone_is_reported(r, 0, 1);
    }
    r
}

proof fn lemma_a_is_no_class()
    ensures
        !text::listed(CLASSES@, "a"@),
{
    reveal_strlit("a");
    reveal_strlit("state");
    reveal_strlit("cmd");
    reveal_strlit("arbiter");
    reveal_strlit("forecast");
    reveal_strlit("config");
    reveal_strlit("meta");
    reveal_strlit("health");
    reveal_strlit("clock");
    reveal_strlit("history");
    reveal_strlit("discovery");
    assert forall|i: int| 0 <= i < CLASSES@.len() implies (#[trigger] CLASSES@[i])@
        != "a"@ by {
        if i == 0 {
            assert(CLASSES@[0]@.len() == 5);
        } else if i == 1 {
            assert(CLASSES@[1]@.len() == 3);
        } else if i == 2 {
            assert(CLASSES@[2]@.len() == 7);
        } else if i == 3 {
            assert(CLASSES@[3]@.len() == 8);
        } else if i == 4 {
            assert(CLASSES@[4]@.len() == 6);
        } else if i == 5 {
            assert(CLASSES@[5]@.len() == 4);
        } else if i == 6 {
            assert(CLASSES@[6]@.len() == 6);
        } else if i == 7 {
            assert(CLASSES@[7]@.len() == 5);
        } else if i == 8 {
            assert(CLASSES@[8]@.len() == 7);
        } else if i == 9 {
            assert(CLASSES@[9]@.len() == 9);
        }
    }
}

proof fn lemma_a_is_no_pseudo_room()
    ensures
        !text::listed(PSEUDO_ROOMS@, "a"@),
{
    reveal_strlit("a");
    reveal_strlit("global");
    reveal_strlit("person");
    assert forall|i: int| 0 <= i < PSEUDO_ROOMS@.len() implies (#[trigger] PSEUDO_ROOMS@[i])@
        != "a"@ by {
        if i == 0 {
            assert(PSEUDO_ROOMS@[0]@.len() == 6);
        } else if i == 1 {
            assert(PSEUDO_ROOMS@[1]@.len() == 6);
        }
    }
}

proof fn lemma_b_is_no_pseudo_room()
    ensures
        !text::listed(PSEUDO_ROOMS@, "b"@),
{
    reveal_strlit("b");
    reveal_strlit("global");
    reveal_strlit("person");
    assert forall|i: int| 0 <= i < PSEUDO_ROOMS@.len() implies (#[trigger] PSEUDO_ROOMS@[i])@
        != "b"@ by {
        if i == 0 {
            assert(PSEUDO_ROOMS@[0]@.len() == 6);
        } else if i == 1 {
            assert(PSEUDO_ROOMS@[1]@.len() == 6);
        }
    }
}

/// A parameter whose default is not of its type, under a constraint that
/// there is not.
fn misdeclared_parameter() -> (r: House)
    ensures
        earns(r, "invalid-default"@),
        earns(r, "malformed-constraint"@),
{
    let mut constraint: NameMap<TomlValue> = NameMap::new();
    let key = "".to_owned();
    let bound = zero();
    constraint.insert(key, bound);
    assert(constraint@ =~= seq![(key, bound)]);
    let spec = ParamSpec {
        param_type: ParamType::Bool,
        default: zero(),
        constraint: Some(constraint),
        editable_by: None,
    };
    let mut params: NameMap<ParamSpec> = NameMap::new();
    let name = "level".to_owned();
    params.insert(name, spec);
    assert(params@ =~= seq![(name, spec)]);
    let mut u = bare_unit("a", UnitKind::Service);
    u.manifest.params = Some(params);
    let mut units: Vec<LoadedUnit> = Vec::new();
    units.push(u);
    let r = house(units, Vec::new());
    proof {
        reveal_strlit("");
        reveal_strlit("min");
        reveal_strlit("max");
        reveal_strlit("after");
        reveal_strlit("before");
        reveal_strlit("enum");
        assert(""@.len() == 0 && "min"@.len() > 0 && "max"@.len() > 0 && "after"@.len() > 0
            && "before"@.len() > 0 && "enum"@.len() > 0);
        assert(validate::understood(ParamType::Bool, ""@) is None);
        rules::law_a_broken_parameter_is_reported(r, 0, 0, 0);
    }
    r
}

/// No units directory.
fn no_files() -> (r: HouseFiles)
    ensures
        files_earn(r, "missing-units-dir"@),
{
    let r = HouseFiles { zones: None, dashboard: None, units: None, entities: Vec::new() };
    proof {
        rules::law_a_broken_file_is_reported(r, 0);
    }
    r
}

/// The files can be loaded, and earn the code.
pub open spec fn files_earn(files: HouseFiles, code: Seq<char>) -> bool {
    files.entities@.len() == repo::house_dirs(files).len() && rules::reported(
        repo::load_errors(files),
        code,
    )
}

/// A manifest that does not parse, one of another version, and one whose
/// entities dir is not there.
fn torn_files() -> (r: HouseFiles)
    ensures
        files_earn(r, "parse-error"@),
        files_earn(r, "unsupported-schema"@),
        files_earn(r, "missing-entities-dir"@),
{
    let torn = ReadFile::<UnitManifest> {
        name: "a.toml".to_owned(),
        content: Err("torn".to_owned()),
    };
    let mut binding = bare_unit("b", UnitKind::Adapter).manifest;
    binding.schema = 0;
    binding.entities = Some(EntitiesSection { dir: "entities/b".to_owned() });
    let bound = ReadFile { name: "b.toml".to_owned(), content: Ok(binding) };
    let mut units: Vec<ReadFile<UnitManifest>> = Vec::new();
    units.push(torn);
    units.push(bound);
    let mut entities: Vec<Option<Vec<ReadFile<EntityFile>>>> = Vec::new();
    entities.push(None);
    let r = HouseFiles { zones: None, dashboard: None, units: Some(units), entities };
    proof {
        reveal_with_fuel(text::each, 4);
        let parsed = repo::house_units(r);
        assert(parsed =~= seq![(binding, repo::unit_path("b.toml"@))]);
        assert(repo::house_dirs(r) =~= seq![("b"@, "entities/b"@)]);
        rules::law_a_broken_file_is_reported(r, 0);
        rules::law_a_broken_file_is_reported(r, 1);
    }
    r
}

/// A widget without any fields.
fn bare_widget(kind: WidgetKind) -> (r: WidgetSpec)
    ensures
        r.kind == kind,
        r.entity is None,
        r.aspect is None,
        r.room is None,
        r.unit is None,
        r.hours is None,
        r.label is None,
        r.widgets@.len() == 0,
{
    WidgetSpec {
        kind,
        entity: None,
        aspect: None,
        room: None,
        unit: None,
        hours: None,
        label: None,
        widgets: Vec::new(),
    }
}

proof fn lemma_none_missing(words: Seq<Seq<char>>, list: Seq<Seq<char>>, from: int)
    requires
        forall|k: int| 0 <= k < words.len() ==> list.contains(#[trigger] words[k]),
    ensures
        validate::first_missing(words, list, from) is None,
    decreases words.len() - from,
{
    if 0 <= from < words.len() {
        lemma_none_missing(words, list, from + 1);
    }
}

proof fn lemma_fields_fit(w: WidgetSpec)
    requires
        w.hours is None,
        forall|k: int|
            0 <= k < validate::required_fields(w.kind).len() ==> validate::present_fields(
                w,
            ).contains(#[trigger] validate::required_fields(w.kind)[k]),
        forall|k: int|
            0 <= k < validate::present_fields(w).len() ==> (validate::required_fields(w.kind)
                + validate::optional_fields(w.kind)).contains(
                #[trigger] validate::present_fields(w)[k],
            ),
    ensures
        validate::fields_fault(w) is None,
{
    let required = validate::required_fields(w.kind);
    let present = validate::present_fields(w);
    lemma_none_missing(required, present, 0);
    lemma_none_missing(present, required + validate::optional_fields(w.kind), 0);
}

/// The fields of a widget that names an entity, and perhaps an aspect.
proof fn lemma_entity_fields_fit(w: WidgetSpec)
    requires
        w.kind == WidgetKind::Tile || w.kind == WidgetKind::Burner && w.aspect is None,
        w.entity is Some,
        w.room is None,
        w.unit is None,
        w.hours is None,
        w.label is None,
        w.widgets@.len() == 0,
    ensures
        validate::fields_fault(w) is None,
{
    let present = validate::present_fields(w);
    let allowed = validate::required_fields(w.kind) + validate::optional_fields(w.kind);
    assert(present[0] == "entity"@);
    assert(allowed[0] == "entity"@);
    if w.aspect is Some {
        assert(present =~= seq!["entity"@, "aspect"@]);
        assert(allowed[1] == "aspect"@);
    } else {
        assert(present =~= seq!["entity"@]);
    }
    lemma_fields_fit(w);
}

/// The fields of a widget that names a room, or a unit.
proof fn lemma_place_fields_fit(w: WidgetSpec)
    requires
        w.kind == WidgetKind::Room && w.room is Some && w.unit is None || w.kind == WidgetKind::Unit
            && w.unit is Some && w.room is None,
        w.entity is None,
        w.aspect is None,
        w.hours is None,
        w.label is None,
        w.widgets@.len() == 0,
    ensures
        validate::fields_fault(w) is None,
{
    let present = validate::present_fields(w);
    let allowed = validate::required_fields(w.kind) + validate::optional_fields(w.kind);
    if w.kind == WidgetKind::Room {
        assert(present =~= seq!["room"@]);
        assert(allowed[0] == "room"@);
    } else {
        assert(present =~= seq!["unit"@]);
        assert(allowed[0] == "unit"@);
    }
    assert(present[0] == allowed[0]);
    lemma_fields_fit(w);
}

/// The widgets of a view that none of them fits.
fn misfit_widgets() -> (r: Vec<WidgetSpec>)
    ensures
        misfits(r@),
{
    let bare = bare_widget(WidgetKind::Tile);
    let mut stray = bare_widget(WidgetKind::Tile);
    stray.entity = Some("y".to_owned());
    let mut burner = bare_widget(WidgetKind::Burner);
    burner.entity = Some("x".to_owned());
    let mut torn = bare_widget(WidgetKind::Tile);
    torn.entity = Some("x".to_owned());
    torn.aspect = Some("".to_owned());
    let mut room = bare_widget(WidgetKind::Room);
    room.room = Some("b".to_owned());
    let mut unit = bare_widget(WidgetKind::Unit);
    unit.unit = Some("b".to_owned());
    let mut nested: Vec<WidgetSpec> = Vec::new();
    nested.push(bare_widget(WidgetKind::Group));
    let mut group = bare_widget(WidgetKind::Group);
    group.widgets = nested;
    proof {
        lemma_entity_fields_fit(stray);
        lemma_entity_fields_fit(burner);
        lemma_entity_fields_fit(torn);
        lemma_place_fields_fit(room);
        lemma_place_fields_fit(unit);
        assert(validate::required_fields(WidgetKind::Tile)[0] == "entity"@);
        assert(validate::present_fields(bare).len() == 0);
    }
    let mut widgets: Vec<WidgetSpec> = Vec::new();
    widgets.push(bare);
    widgets.push(stray);
    widgets.push(burner);
    widgets.push(torn);
    widgets.push(room);
    widgets.push(unit);
    widgets.push(group);
    widgets
}

spec fn misfits(w: Seq<WidgetSpec>) -> bool {
    &&& w.len() == 7
    &&& validate::fields_fault(w[0]) is Some
    &&& forall|i: int| 1 <= i < 6 ==> validate::fields_fault(#[trigger] w[i]) is None
    &&& w[1].entity matches Some(e) && e@ == "y"@
    &&& w[2].kind == WidgetKind::Burner
    &&& w[2].entity matches Some(e) && e@ == "x"@
    &&& w[3].aspect matches Some(a) && a@ == ""@
    &&& w[4].room matches Some(a) && a@ == "b"@
    &&& w[5].unit matches Some(a) && a@ == "b"@
    &&& w[6].widgets@.len() == 1 && w[6].widgets@[0].kind == WidgetKind::Group
}

/// A view of a reserved name with widgets that do not fit, and an empty one
/// of the same name.
fn misshapen_views() -> (r: House)
    ensures
        earns(r, "dashboard-reserved-view"@),
        earns(r, "dashboard-duplicate-view"@),
        earns(r, "dashboard-view-shape"@),
        earns(r, "dashboard-nested-group"@),
        earns(r, "dashboard-widget-fields"@),
        earns(r, "dashboard-unknown-entity"@),
        earns(r, "dashboard-widget-capability"@),
        earns(r, "dashboard-invalid-aspect"@),
        earns(r, "dashboard-unknown-room"@),
        earns(r, "dashboard-unknown-unit"@),
{
    let mut entities: Vec<LoadedEntity> = Vec::new();
    entities.push(entity("x", "a", "switch", "c", WriteMode::Shared));
    let widgets = misfit_widgets();
    let first = ViewSpec { name: "health".to_owned(), kind: None, widgets };
    let second = ViewSpec { name: "health".to_owned(), kind: None, widgets: Vec::new() };
    let mut views: Vec<ViewSpec> = Vec::new();
    views.push(first);
    views.push(second);
    let mut r = house(Vec::new(), entities);
    r.dashboard = Some(DashboardFile { view: views });
    proof {
        let seen = validate::views_in(r);
        lemma_a_is_not_b();
        reveal_strlit("x");
        reveal_strlit("y");
        assert("x"@[0] != "y"@[0]);
        reveal_strlit("switch");
        reveal_strlit("burner");
        assert("switch"@[0] != "burner"@[0]);
        reveal_strlit("");
        reveal_with_fuel(repo::entity_named, 3);
        let given = Seq::new(r.entities@.len(), |i: int| r.entities@[i].file.entity.room@);
        order::lemma_distinct(given);
        assert(!given.contains("b"@));
        assert(seen[0].name@ == seen[1].name@);
        assert(validate::seen_before(seen, 1, "health"@));
        rules::law_a_broken_view_is_reported(r, 0);
        rules::law_a_broken_view_is_reported(r, 1);
        assert(misfits(seen[0].widgets@));
        rules::law_a_broken_widget_is_reported(r, 0, 0, 0);
        rules::law_a_broken_widget_is_reported(r, 0, 1, 0);
        rules::law_a_broken_widget_is_reported(r, 0, 2, 0);
        rules::law_a_broken_widget_is_reported(r, 0, 3, 0);
        rules::law_a_broken_widget_is_reported(r, 0, 4, 0);
        rules::law_a_broken_widget_is_reported(r, 0, 5, 0);
        rules::law_a_broken_widget_is_reported(r, 0, 6, 0);
    }
    r
}

/// Everything under a class: `home/{class}/**`.
spec fn wide(class: Seq<char>) -> Seq<SegmentView> {
    seq![SegmentView::Literal("home"@), SegmentView::Literal(class), SegmentView::AnyRec]
}

/// The same as it is written.
spec fn wide_text(class: Seq<char>) -> Seq<char> {
    "home/"@ + class + "/**"@
}

fn wide_key(class: &str) -> (r: String)
    ensures
        r@ == wide_text(class@),
{
    cat3("home/", class, "/**")
}

proof fn lemma_words_are_literals()
    ensures
        keyspace::segment_ok(SegmentView::Literal("home"@)),
        keyspace::segment_ok(SegmentView::Literal("state"@)),
        keyspace::segment_ok(SegmentView::Literal("config"@)),
        keyspace::segment_ok(SegmentView::Literal("cmd"@)),
{
    reveal_strlit("home");
    reveal_strlit("state");
    reveal_strlit("config");
    reveal_strlit("cmd");
    reveal_strlit("*");
    reveal_strlit("**");
    reveal_strlit("{room}");
    reveal_strlit("{entity}");
    assert("config"@[0] != "{room}"@[0]);
    assert("home"@.len() == 4 && "state"@.len() == 5 && "config"@.len() == 6 && "cmd"@.len() == 3);
    assert("*"@.len() == 1 && "**"@.len() == 2 && "{room}"@.len() == 6 && "{entity}"@.len() == 8);
}

proof fn lemma_wide(class: Seq<char>)
    requires
        keyspace::segment_ok(SegmentView::Literal(class)),
        text::listed(CLASSES@, class),
    ensures
        expand::checked(wide_text(class)) == Ok::<Seq<SegmentView>, Seq<char>>(wide(class)),
        keyspace::parsed(wide_text(class)) == Ok::<Seq<SegmentView>, Seq<char>>(wide(class)),
        !keyspace::templated(wide(class)),
        keyspace::class_of(wide(class)) == Some(class),
        text::split_at_each(wide_text(class), '/').len() == 3,
        text::split_at_each(wide_text(class), '/')[1] == class,
{
    let k = wide(class);
    lemma_words_are_literals();
    keyspace::law_parse_of_text(k);
    let pieces = keyspace::key_pieces(k);
    reveal_strlit("/");
    reveal_strlit("home");
    reveal_strlit("home/");
    reveal_strlit("**");
    reveal_strlit("/**");
    reveal_with_fuel(text::joined, 4);
    assert(pieces.drop_last().drop_last() =~= seq!["home"@]);
    assert(pieces.drop_last() =~= seq!["home"@, class]);
    assert(keyspace::key_text(k) =~= wide_text(class));
    assert(k[2] == SegmentView::AnyRec);
    assert(k.contains(SegmentView::AnyRec));
    let split = text::split_at_each(wide_text(class), '/');
    assert(keyspace::parsed(wide_text(class))->Ok_0.len() == split.len());
    assert(keyspace::parsed(wide_text(class))->Ok_0[1] == keyspace::segment_of(split[1]));
}

/// The expansion of the one publish of a unit, everything under a class.
spec fn wide_expansion(name: Seq<char>, kind: UnitKind, class: Seq<char>) -> ExpandedView {
    ExpandedView {
        unit: name,
        kind,
        entry: "p"@,
        direction: Direction::Publishes,
        source: wide_text(class),
        zone: None,
        templated: false,
        exprs: seq![wide(class)],
    }
}

proof fn lemma_unit_keys(
    h: House,
    u: LoadedUnit,
    name: Seq<char>,
    kind: UnitKind,
    class: Seq<char>,
    capability: Option<String>,
)
    requires
        publishes_one(u, name, kind, wide_text(class), capability),
        keyspace::segment_ok(SegmentView::Literal(class)),
        text::listed(CLASSES@, class),
    ensures
        expand::unit_keys(h, u) == seq![wide_expansion(name, kind, class)],
{
    lemma_wide(class);
    reveal_with_fuel(text::each, 2);
    let k = wide(class);
    assert(keyspace::room_of(k) matches Some(s) ==> s == SegmentView::AnyRec);
    assert(expand::zone_of(h, k) is None);
    assert(expand::exprs_of(h, name, k) == seq![k]);
    let bus = u.manifest.bus->Some_0;
    assert(expand::publish_keys(h, u, 1) =~= seq![wide_expansion(name, kind, class)]);
    assert(expand::subscribe_keys(h, u, 0) =~= Seq::<ExpandedView>::empty());
    assert(expand::unit_keys(h, u) =~= seq![wide_expansion(name, kind, class)]);
}

/// A house of one automation that publishes everything under a class, with no
/// capability.
fn lone_publisher(class: &str) -> (r: House)
    requires
        keyspace::segment_ok(SegmentView::Literal(class@)),
        text::listed(CLASSES@, class@),
    ensures
        r.units@.len() == 1,
        publishes_one(r.units@[0], "a"@, UnitKind::Automation, wide_text(class@), None),
        rules::keys_of(r) == seq![wide_expansion("a"@, UnitKind::Automation, class@)],
{
    let mut units: Vec<LoadedUnit> = Vec::new();
    units.push(publisher("a", UnitKind::Automation, wide_key(class), None));
    let r = house(units, Vec::new());
    proof {
        lemma_unit_keys(r, r.units@[0], "a"@, UnitKind::Automation, class@, None);
        reveal_with_fuel(text::each, 2);
        assert(rules::keys_of(r) =~= seq![wide_expansion("a"@, UnitKind::Automation, class@)]);
    }
    r
}

/// A publish of states that are not the unit's.
fn stray_state() -> (r: House)
    ensures
        earns(r, "state-publish-unbound"@),
{
    proof {
        lemma_words_are_literals();
        lemma_classes();
    }
    let r = lone_publisher("state");
    proof {
        lemma_wide("state"@);
        let k = rules::keys_of(r)[0];
        assert(k.exprs[0] == wide("state"@));
        assert(grants::literal_at(k.exprs[0], 2) is None);
        rules::law_a_broken_publish_is_reported(r, 0, 0);
    }
    r
}

/// A publish in a class of the core.
fn stray_config() -> (r: House)
    ensures
        earns(r, "reserved-class-publish"@),
{
    proof {
        lemma_words_are_literals();
        lemma_classes();
    }
    let r = lone_publisher("config");
    proof {
        lemma_wide("config"@);
        let k = rules::keys_of(r)[0];
        assert(grants::source_piece(k, 1) == Some("config"@));
        rules::law_a_broken_publish_is_reported(r, 0, 0);
    }
    r
}

/// A command publish without a capability.
fn vague_command() -> (r: House)
    ensures
        earns(r, "publish-missing-capability"@),
{
    proof {
        lemma_words_are_literals();
        lemma_classes();
    }
    let r = lone_publisher("cmd");
    proof {
        lemma_wide("cmd"@);
        let k = rules::keys_of(r)[0];
        lemma_declared(r.units@, "a"@, UnitKind::Automation, wide_text("cmd"@), None);
        assert(keyspace::class_of(k.exprs[0]) == Some("cmd"@));
        assert(grants::commands(k));
        rules::law_a_broken_publish_is_reported(r, 0, 0);
    }
    r
}

proof fn lemma_declared(
    units: Seq<LoadedUnit>,
    name: Seq<char>,
    kind: UnitKind,
    key: Seq<char>,
    capability: Option<String>,
)
    requires
        units.len() > 0,
        publishes_one(units[0], name, kind, key, capability),
    ensures
        grants::declarer(units, name, "p"@) == Some(units[0]),
        names::lookup(units[0].manifest.bus->Some_0.publishes@, "p"@) == Some(
            units[0].manifest.bus->Some_0.publishes@[0].1,
        ),
{
}

proof fn lemma_classes()
    ensures
        text::listed(CLASSES@, "state"@),
        text::listed(CLASSES@, "config"@),
        text::listed(CLASSES@, "cmd"@),
{
    assert(CLASSES@[0]@ == "state"@);
    assert(CLASSES@[1]@ == "cmd"@);
    assert(CLASSES@[4]@ == "config"@);
}

proof fn lemma_template()
    ensures
        expand::checked("home/state/{room}/**"@) is Ok,
        keyspace::templated(expand::checked("home/state/{room}/**"@)->Ok_0),
{
    let k = seq![
        SegmentView::Literal("home"@),
        SegmentView::Literal("state"@),
        SegmentView::RoomTemplate,
        SegmentView::AnyRec,
    ];
    lemma_words_are_literals();
    lemma_classes();
    keyspace::law_parse_of_text(k);
    let pieces = keyspace::key_pieces(k);
    reveal_strlit("/");
    reveal_strlit("home");
    reveal_strlit("state");
    reveal_strlit("{room}");
    reveal_strlit("**");
    reveal_strlit("home/state/{room}/**");
    reveal_with_fuel(text::joined, 5);
    assert(pieces.drop_last().drop_last().drop_last() =~= seq!["home"@]);
    assert(pieces.drop_last().drop_last() =~= seq!["home"@, "state"@]);
    assert(pieces.drop_last() =~= seq!["home"@, "state"@, "{room}"@]);
    assert(keyspace::key_text(k) =~= "home/state/{room}/**"@);
    assert(k[2] is RoomTemplate);
    assert(k[3] == SegmentView::AnyRec);
    assert(k.contains(SegmentView::AnyRec));
}

/// A key that is none, and a template of a service.
fn stray_entries() -> (r: House)
    ensures
        earns(r, "key-outside-schema"@),
        earns(r, "template-outside-binding-unit"@),
{
    let mut units: Vec<LoadedUnit> = Vec::new();
    units.push(publisher("a", UnitKind::Service, "".to_owned(), None));
    units.push(publisher("b", UnitKind::Service, "home/state/{room}/**".to_owned(), None));
    let r = house(units, Vec::new());
    proof {
        reveal_strlit("");
        assert(expand::checked(""@) is Err);
        lemma_template();
        rules::law_a_broken_entry_is_reported(r, 0, 0);
        rules::law_a_broken_entry_is_reported(r, 1, 0);
    }
    r
}

proof fn lemma_wide_covers(name: Seq<char>)
    ensures
        keyspace::covers(wide("cmd"@), grants::subtree("cmd"@, "r"@, name)),
{
    let k = wide("cmd"@);
    let prefix = grants::subtree("cmd"@, "r"@, name);
    let key = prefix + Seq::<Seq<char>>::empty();
    assert(key =~= prefix);
    let (k1, k2, k3) = (
        k.drop_first(),
        k.drop_first().drop_first(),
        k.drop_first().drop_first().drop_first(),
    );
    let (p1, p2, p3, p4) = (
        key.drop_first(),
        key.drop_first().drop_first(),
        key.drop_first().drop_first().drop_first(),
        key.drop_first().drop_first().drop_first().drop_first(),
    );
    assert(keyspace::key_matches(k3, p4));
    assert(keyspace::key_matches(k2, p4));
    assert(keyspace::key_matches(k2, p3));
    assert(keyspace::key_matches(k2, p2));
    assert(keyspace::key_matches(k1, p1));
    assert(keyspace::key_matches(k, key));
}

/// An automation that commands every switch.
spec fn commands_switches(u: LoadedUnit, name: Seq<char>) -> bool {
    let capability = u.manifest.bus->Some_0.publishes@[0].1.capability;
    &&& publishes_one(u, name, UnitKind::Automation, wide_text("cmd"@), capability)
    &&& text::opt_text(capability) == Some("switch"@)
}

/// Two automations that each command every switch, each with a switch of its
/// own that it does not listen for.
spec fn quarrels(h: House) -> bool {
    &&& h.units@.len() == 2
    &&& commands_switches(h.units@[0], "a"@)
    &&& commands_switches(h.units@[1], "b"@)
    &&& h.entities@.len() == 2
    &&& h.entities@[0].name@ == "x"@
    &&& h.entities@[0].owner@ == "a"@
    &&& h.entities@[1].name@ == "y"@
    &&& h.entities@[1].owner@ == "b"@
    &&& forall|i: int|
        0 <= i < 2 ==> (#[trigger] h.entities@[i]).file.entity.capability@ == "switch"@
            && h.entities@[i].file.entity.room@ == "r"@
            && h.entities@[i].file.write_policy.mode == Some(WriteMode::Exclusive)
}

/// The grant of a unit of such a house.
spec fn quarrel_grant(h: House, unit: Seq<char>) -> GrantView {
    GrantView {
        unit,
        publish: "p"@,
        capability: "switch"@,
        priority: Priority::Automation,
        entities: grants::granted(
            h,
            wide_expansion(unit, UnitKind::Automation, "cmd"@),
            "switch"@,
        ),
    }
}

proof fn lemma_quarrel_reaches(h: House, unit: Seq<char>, i: int)
    requires
        quarrels(h),
        0 <= i < 2,
    ensures
        quarrel_grant(h, unit).entities.contains(grants::granted_record(h.entities@[i])),
{
    let k = wide_expansion(unit, UnitKind::Automation, "cmd"@);
    let e = h.entities@[i];
    let record = grants::granted_record(e);
    lemma_wide_covers(e.name@);
    assert(keyspace::covers(k.exprs[0], grants::subtree("cmd"@, "r"@, e.name@)));
    assert(grants::grants_onto(k, "switch"@, e));
    let f = |i: int|
        text::only_if(
            grants::grants_onto(k, "switch"@, h.entities@[i]),
            grants::granted_record(h.entities@[i]),
        );
    assert(f(i)[0] == record);
    text::lemma_each_has(2, f, i, record);
    let reached = grants::reached(h, k, "switch"@, 2);
    let in_order = order::sorted::<GrantEntity>(reached);
    order::lemma_sorted::<GrantEntity>(reached);
    vstd::seq_lib::to_multiset_contains(reached, record);
    vstd::seq_lib::to_multiset_contains(in_order, record);
    order::lemma_deduped_keeps(in_order, record);
}

proof fn lemma_quarrel_keys(h: House)
    requires
        quarrels(h),
    ensures
        rules::keys_of(h) == seq![
            wide_expansion("a"@, UnitKind::Automation, "cmd"@),
            wide_expansion("b"@, UnitKind::Automation, "cmd"@),
        ],
{
    lemma_words_are_literals();
    lemma_classes();
    let kind = UnitKind::Automation;
    let c0 = h.units@[0].manifest.bus->Some_0.publishes@[0].1.capability;
    let c1 = h.units@[1].manifest.bus->Some_0.publishes@[0].1.capability;
    lemma_unit_keys(h, h.units@[0], "a"@, kind, "cmd"@, c0);
    lemma_unit_keys(h, h.units@[1], "b"@, kind, "cmd"@, c1);
    reveal_with_fuel(text::each, 3);
    assert(rules::keys_of(h) =~= seq![
        wide_expansion("a"@, kind, "cmd"@),
        wide_expansion("b"@, kind, "cmd"@),
    ]);
}

proof fn lemma_quarrel_grants(h: House)
    requires
        quarrels(h),
    ensures
        rules::table_of(h).len() == 2,
        rules::table_of(h).contains(quarrel_grant(h, "a"@)),
        rules::table_of(h).contains(quarrel_grant(h, "b"@)),
        forall|i: int|
            0 <= i < 2 ==> #[trigger] rules::table_of(h)[i] == quarrel_grant(h, "a"@)
                || rules::table_of(h)[i] == quarrel_grant(h, "b"@),
{
    lemma_quarrel_keys(h);
    lemma_words_are_literals();
    lemma_classes();
    lemma_wide("cmd"@);
    lemma_a_is_not_b();
    let keys = rules::keys_of(h);
    let (a, b) = (quarrel_grant(h, "a"@), quarrel_grant(h, "b"@));
    let units = h.units@;
    let c0 = units[0].manifest.bus->Some_0.publishes@[0].1.capability;
    let c1 = units[1].manifest.bus->Some_0.publishes@[0].1.capability;
    let kind = UnitKind::Automation;
    lemma_declared(units, "a"@, kind, wide_text("cmd"@), c0);
    lemma_declared(units.drop_first(), "b"@, kind, wide_text("cmd"@), c1);
    assert(grants::declarer(units, "b"@, "p"@) == Some(units[1]));
    assert(CAPABILITIES@[10]@ == "switch"@);
    assert(text::listed(CAPABILITIES@, "switch"@));
    assert(keyspace::class_of(keys[0].exprs[0]) == Some("cmd"@));
    assert(keyspace::class_of(keys[1].exprs[0]) == Some("cmd"@));
    assert(grants::key_grants(h, keys[0]) =~= seq![a]);
    assert(grants::key_grants(h, keys[1]) =~= seq![b]);
    let raw = grants::raw_grants(h, keys, 2);
    assert(raw =~= seq![a, b]) by {
        reveal_with_fuel(text::each, 3);
    }
    let table = rules::table_of(h);
    order::lemma_sorted::<Grant>(raw);
    assert(raw[0] == a && raw[1] == b);
    assert(raw.contains(a) && raw.contains(b));
    vstd::seq_lib::to_multiset_contains(raw, a);
    vstd::seq_lib::to_multiset_contains(raw, b);
    vstd::seq_lib::to_multiset_contains(table, a);
    vstd::seq_lib::to_multiset_contains(table, b);
    assert forall|i: int| 0 <= i < 2 implies #[trigger] table[i] == a || table[i] == b by {
        vstd::seq_lib::to_multiset_contains(table, table[i]);
        vstd::seq_lib::to_multiset_contains(raw, table[i]);
    }
}

proof fn lemma_writes_onto(g: GrantView, name: Seq<char>, j: int, n: nat)
    requires
        0 <= j < n,
        g.entities[j].name == name,
    ensures
        grants::writes_onto(g, name, n).len() > 0,
    decreases n,
{
    if j < n - 1 {
        lemma_writes_onto(g, name, j, (n - 1) as nat);
    }
}

proof fn lemma_edges_of(g: GrantView, j: int, n: nat)
    requires
        0 <= j < n,
        g.entities[j].owner != g.unit,
    ensures
        grants::edges_of(g, n).contains((g.entities[j].owner, g.unit)),
    decreases n,
{
    let edges = grants::edges_of(g, n);
    let m = (n - 1) as nat;
    if j < m {
        lemma_edges_of(g, j, m);
        let i = grants::edges_of(g, m).index_of((g.entities[j].owner, g.unit));
        assert(edges[i] == (g.entities[j].owner, g.unit));
    } else {
        assert(edges[grants::edges_of(g, m).len() as int] == (g.entities[j].owner, g.unit));
    }
}

proof fn lemma_quarrel_writers(h: House)
    requires
        quarrels(h),
    ensures
        grants::writers_of(rules::table_of(h), "x"@, 2).len() > 1,
{
    let table = rules::table_of(h);
    lemma_quarrel_grants(h);
    let record = grants::granted_record(h.entities@[0]);
    lemma_quarrel_reaches(h, "a"@, 0);
    lemma_quarrel_reaches(h, "b"@, 0);
    let j0 = table[0].entities.index_of(record);
    let j1 = table[1].entities.index_of(record);
    lemma_writes_onto(table[0], "x"@, j0, table[0].entities.len());
    lemma_writes_onto(table[1], "x"@, j1, table[1].entities.len());
    reveal_with_fuel(text::each, 3);
}

proof fn lemma_quarrel_edge(h: House, unit: Seq<char>, i: int)
    requires
        quarrels(h),
        unit == "a"@ || unit == "b"@,
        0 <= i < 2,
        h.entities@[i].owner@ != unit,
    ensures
        grants::grant_edges_of(rules::table_of(h), 2).contains((h.entities@[i].owner@, unit)),
{
    let table = rules::table_of(h);
    let g = quarrel_grant(h, unit);
    lemma_quarrel_grants(h);
    lemma_quarrel_reaches(h, unit, i);
    let j = g.entities.index_of(grants::granted_record(h.entities@[i]));
    lemma_edges_of(g, j, g.entities.len());
    let edge = (h.entities@[i].owner@, unit);
    let m = table.index_of(g);
    let f = |i: int| grants::edges_of(table[i], table[i].entities.len());
    assert(f(m).contains(edge));
    text::lemma_each_has(2, f, m, edge);
}

proof fn lemma_quarrel_is_stuck(h: House)
    requires
        quarrels(h),
    ensures
        graph::stuck(grants::grant_edges_of(rules::table_of(h), 2), "a"@),
{
    lemma_a_is_not_b();
    lemma_quarrel_edge(h, "a"@, 1);
    lemma_quarrel_edge(h, "b"@, 0);
    let edges = grants::grant_edges_of(rules::table_of(h), 2);
    let (a, b) = ("a"@, "b"@);
    let s = set![a, b];
    let into_a = edges.index_of((b, a));
    let into_b = edges.index_of((a, b));
    assert(edges[into_a] == (b, a) && edges[into_b] == (a, b));
    assert forall|u: Seq<char>| #[trigger] s.contains(u) implies graph::waits(edges, u, s) by {
        if u == a {
            assert(edges[into_a].1 == u && s.contains(edges[into_a].0));
        } else {
            assert(edges[into_b].1 == u && s.contains(edges[into_b].0));
        }
    }
    assert(s.contains(a) && graph::backed(edges, s));
}

/// Two automations that command each other's exclusive switches.
fn quarrelling_units() -> (r: House)
    ensures
        earns(r, "exclusive-write-conflict"@),
        earns(r, "virtual-entity-commanded"@),
        earns(r, "grant-cycle"@),
{
    let mut units: Vec<LoadedUnit> = Vec::new();
    let (first, second) = ("switch".to_owned(), "switch".to_owned());
    units.push(publisher("a", UnitKind::Automation, wide_key("cmd"), Some(first)));
    units.push(publisher("b", UnitKind::Automation, wide_key("cmd"), Some(second)));
    let mut entities: Vec<LoadedEntity> = Vec::new();
    entities.push(entity("x", "r", "switch", "a", WriteMode::Exclusive));
    entities.push(entity("y", "r", "switch", "b", WriteMode::Exclusive));
    let r = house(units, entities);
    proof {
        assert(quarrels(r));
        lemma_quarrel_writers(r);
        lemma_quarrel_is_stuck(r);
        lemma_quarrel_grants(r);
        lemma_quarrel_keys(r);
        lemma_quarrel_reaches(r, "a"@, 0);
        let table = rules::table_of(r);
        let g = quarrel_grant(r, "a"@);
        let i = table.index_of(g);
        let j = g.entities.index_of(grants::granted_record(r.entities@[0]));
        assert(table[i] == g);
        assert(g.entities[j].name == "x"@);
        assert(rules::deaf_latch(r, "x"@));
        rules::law_a_broken_grant_is_reported(r, i, j, "a"@);
        rules::law_a_broken_entity_is_reported(r, 0);
    }
    r
}

/// What earns a failure: the files of a house that are loaded, or a house
/// that is checked.
pub enum Specimen {
    Files(HouseFiles),
    House(House),
}

impl Specimen {
    /// Loading or checking it reports the code.
    pub open spec fn earns(self, code: Seq<char>) -> bool {
        match self {
            Specimen::Files(files) => files_earn(files, code),
            Specimen::House(h) => earns(h, code),
        }
    }
}

proof fn lemma_registered_words(code: Seq<char>)
    requires
        codes::explained(code),
    ensures
        code == "parse-error"@
            || code == "unsupported-schema"@
            || code == "missing-units-dir"@
            || code == "missing-entities-dir"@
            || code == "invalid-name"@
            || code == "reserved-unit-name"@
            || code == "reserved-room-name"@
            || code == "reserved-zone-name"@
            || code == "zone-room-collision"@
            || code == "zone-pseudo-room"@
            || code == "zone-unknown-room"@
            || code == "duplicate-unit-name"@
            || code == "duplicate-entity-name"@
            || code == "duplicate-entity-id"@
            || code == "invalid-manifest"@
            || code == "unknown-capability"@
            || code == "missing-owner-unit"@
            || code == "owner-mismatch"@
            || code == "virtual-entity-arbitrated"@
            || code == "virtual-entity-commanded"@
            || code == "grant-cycle"@
            || code == "invalid-default"@
            || code == "malformed-constraint"@
            || code == "key-outside-schema"@
            || code == "template-outside-binding-unit"@
            || code == "publish-missing-capability"@
            || code == "exclusive-write-conflict"@
            || code == "arbitrated-uncovered"@
            || code == "virtual-entity-fed"@
            || code == "input-unknown-entity"@
            || code == "input-unpublished-aspect"@
            || code == "state-publish-unbound"@
            || code == "write-mode-required"@
            || code == "entity-id-required"@
            || code == "reserved-class-publish"@
            || code == "entity-dashboard-retired"@
            || code == "dashboard-reserved-view"@
            || code == "dashboard-duplicate-view"@
            || code == "dashboard-view-shape"@
            || code == "dashboard-nested-group"@
            || code == "dashboard-widget-fields"@
            || code == "dashboard-unknown-entity"@
            || code == "dashboard-widget-capability"@
            || code == "dashboard-invalid-aspect"@
            || code == "dashboard-unknown-room"@
            || code == "dashboard-unknown-unit"@,
{
    codes::law_explained_means_registered(code);
    let i = choose|i: int| 0 <= i < CODES@.len() && (#[trigger] CODES@[i]).0@ == code;
    if i == 0 {
        assert(CODES@[0].0@ == "parse-error"@);
    } else if i == 1 {
        assert(CODES@[1].0@ == "unsupported-schema"@);
    } else if i == 2 {
        assert(CODES@[2].0@ == "missing-units-dir"@);
    } else if i == 3 {
        assert(CODES@[3].0@ == "missing-entities-dir"@);
    } else if i == 4 {
        assert(CODES@[4].0@ == "invalid-name"@);
    } else if i == 5 {
        assert(CODES@[5].0@ == "reserved-unit-name"@);
    } else if i == 6 {
        assert(CODES@[6].0@ == "reserved-room-name"@);
    } else if i == 7 {
        assert(CODES@[7].0@ == "reserved-zone-name"@);
    } else if i == 8 {
        assert(CODES@[8].0@ == "zone-room-collision"@);
    } else if i == 9 {
        assert(CODES@[9].0@ == "zone-pseudo-room"@);
    } else if i == 10 {
        assert(CODES@[10].0@ == "zone-unknown-room"@);
    } else if i == 11 {
        assert(CODES@[11].0@ == "duplicate-unit-name"@);
    } else if i == 12 {
        assert(CODES@[12].0@ == "duplicate-entity-name"@);
    } else if i == 13 {
        assert(CODES@[13].0@ == "duplicate-entity-id"@);
    } else if i == 14 {
        assert(CODES@[14].0@ == "invalid-manifest"@);
    } else if i == 15 {
        assert(CODES@[15].0@ == "unknown-capability"@);
    } else if i == 16 {
        assert(CODES@[16].0@ == "missing-owner-unit"@);
    } else if i == 17 {
        assert(CODES@[17].0@ == "owner-mismatch"@);
    } else if i == 18 {
        assert(CODES@[18].0@ == "virtual-entity-arbitrated"@);
    } else if i == 19 {
        assert(CODES@[19].0@ == "virtual-entity-commanded"@);
    } else if i == 20 {
        assert(CODES@[20].0@ == "grant-cycle"@);
    } else if i == 21 {
        assert(CODES@[21].0@ == "invalid-default"@);
    } else if i == 22 {
        assert(CODES@[22].0@ == "malformed-constraint"@);
    } else if i == 23 {
        assert(CODES@[23].0@ == "key-outside-schema"@);
    } else if i == 24 {
        assert(CODES@[24].0@ == "template-outside-binding-unit"@);
    } else if i == 25 {
        assert(CODES@[25].0@ == "publish-missing-capability"@);
    } else if i == 26 {
        assert(CODES@[26].0@ == "exclusive-write-conflict"@);
    } else if i == 27 {
        assert(CODES@[27].0@ == "arbitrated-uncovered"@);
    } else if i == 28 {
        assert(CODES@[28].0@ == "virtual-entity-fed"@);
    } else if i == 29 {
        assert(CODES@[29].0@ == "input-unknown-entity"@);
    } else if i == 30 {
        assert(CODES@[30].0@ == "input-unpublished-aspect"@);
    } else if i == 31 {
        assert(CODES@[31].0@ == "state-publish-unbound"@);
    } else if i == 32 {
        assert(CODES@[32].0@ == "write-mode-required"@);
    } else if i == 33 {
        assert(CODES@[33].0@ == "entity-id-required"@);
    } else if i == 34 {
        assert(CODES@[34].0@ == "reserved-class-publish"@);
    } else if i == 35 {
        assert(CODES@[35].0@ == "entity-dashboard-retired"@);
    } else if i == 36 {
        assert(CODES@[36].0@ == "dashboard-reserved-view"@);
    } else if i == 37 {
        assert(CODES@[37].0@ == "dashboard-duplicate-view"@);
    } else if i == 38 {
        assert(CODES@[38].0@ == "dashboard-view-shape"@);
    } else if i == 39 {
        assert(CODES@[39].0@ == "dashboard-nested-group"@);
    } else if i == 40 {
        assert(CODES@[40].0@ == "dashboard-widget-fields"@);
    } else if i == 41 {
        assert(CODES@[41].0@ == "dashboard-unknown-entity"@);
    } else if i == 42 {
        assert(CODES@[42].0@ == "dashboard-widget-capability"@);
    } else if i == 43 {
        assert(CODES@[43].0@ == "dashboard-invalid-aspect"@);
    } else if i == 44 {
        assert(CODES@[44].0@ == "dashboard-unknown-room"@);
    } else if i == 45 {
        assert(CODES@[45].0@ == "dashboard-unknown-unit"@);
    }
}

proof fn lemma_earned_is_explained(h: House, code: Seq<char>)
    requires
        earns(h, code),
    ensures
        codes::explained(code),
{
    codes::law_every_code_is_explained(h);
}

proof fn lemma_loaded_is_explained(files: HouseFiles, code: Seq<char>)
    requires
        files_earn(files, code),
    ensures
        codes::explained(code),
{
    codes::law_every_load_code_is_explained(files);
}

/// A house whose units earn the code, where they can.
fn unit_specimen(code: &str) -> (r: Option<House>)
    ensures
        match r {
            Some(s) => earns(s, code@),
            None => {
                &&& code@ != "invalid-name"@
                &&& code@ != "invalid-manifest"@
                &&& code@ != "reserved-unit-name"@
                &&& code@ != "duplicate-unit-name"@
                &&& code@ != "invalid-default"@
                &&& code@ != "malformed-constraint"@
                &&& code@ != "key-outside-schema"@
                &&& code@ != "template-outside-binding-unit"@
                &&& code@ != "state-publish-unbound"@
                &&& code@ != "reserved-class-publish"@
                &&& code@ != "publish-missing-capability"@
                &&& code@ != "exclusive-write-conflict"@
                &&& code@ != "virtual-entity-commanded"@
                &&& code@ != "grant-cycle"@
            },
        },
{
    if str_eq(code, "invalid-name")
        || str_eq(code, "invalid-manifest")
        || str_eq(code, "reserved-unit-name")
        || str_eq(code, "duplicate-unit-name") {
        Some(misnamed_units())
    } else if str_eq(code, "invalid-default")
        || str_eq(code, "malformed-constraint") {
        Some(misdeclared_parameter())
    } else if str_eq(code, "key-outside-schema")
        || str_eq(code, "template-outside-binding-unit") {
        Some(stray_entries())
    } else if str_eq(code, "state-publish-unbound") {
        Some(stray_state())
    } else if str_eq(code, "reserved-class-publish") {
        Some(stray_config())
    } else if str_eq(code, "publish-missing-capability") {
        Some(vague_command())
    } else if str_eq(code, "exclusive-write-conflict")
        || str_eq(code, "virtual-entity-commanded")
        || str_eq(code, "grant-cycle") {
        Some(quarrelling_units())
    } else {
        None
    }
}

/// A house whose entities or zones earn the code, where they can.
fn entity_specimen(code: &str) -> (r: Option<House>)
    ensures
        match r {
            Some(s) => earns(s, code@),
            None => {
                &&& code@ != "unknown-capability"@
                &&& code@ != "reserved-room-name"@
                &&& code@ != "missing-owner-unit"@
                &&& code@ != "entity-dashboard-retired"@
                &&& code@ != "arbitrated-uncovered"@
                &&& code@ != "duplicate-entity-name"@
                &&& code@ != "duplicate-entity-id"@
                &&& code@ != "input-unknown-entity"@
                &&& code@ != "write-mode-required"@
                &&& code@ != "entity-id-required"@
                &&& code@ != "owner-mismatch"@
                &&& code@ != "virtual-entity-arbitrated"@
                &&& code@ != "virtual-entity-fed"@
                &&& code@ != "input-unpublished-aspect"@
                &&& code@ != "reserved-zone-name"@
                &&& code@ != "zone-room-collision"@
                &&& code@ != "zone-pseudo-room"@
                &&& code@ != "zone-unknown-room"@
            },
        },
{
    if str_eq(code, "unknown-capability")
        || str_eq(code, "reserved-room-name")
        || str_eq(code, "missing-owner-unit")
        || str_eq(code, "entity-dashboard-retired")
        || str_eq(code, "arbitrated-uncovered")
        || str_eq(code, "duplicate-entity-name")
        || str_eq(code, "duplicate-entity-id")
        || str_eq(code, "input-unknown-entity") {
        Some(orphaned_entities())
    } else if str_eq(code, "write-mode-required")
        || str_eq(code, "entity-id-required")
        || str_eq(code, "owner-mismatch") {
        Some(misplaced_entity())
    } else if str_eq(code, "virtual-entity-arbitrated")
        || str_eq(code, "virtual-entity-fed")
        || str_eq(code, "input-unpublished-aspect") {
        Some(misused_latch())
    } else if str_eq(code, "reserved-zone-name") {
        Some(misnamed_zone())
    } else if str_eq(code, "zone-room-collision")
        || str_eq(code, "zone-pseudo-room")
        || str_eq(code, "zone-unknown-room") {
        Some(misplaced_zone())
    } else {
        None
    }
}

/// A house whose dashboard earns the code, where it can.
fn dashboard_specimen(code: &str) -> (r: Option<House>)
    ensures
        match r {
            Some(s) => earns(s, code@),
            None => {
                &&& code@ != "dashboard-reserved-view"@
                &&& code@ != "dashboard-duplicate-view"@
                &&& code@ != "dashboard-view-shape"@
                &&& code@ != "dashboard-nested-group"@
                &&& code@ != "dashboard-widget-fields"@
                &&& code@ != "dashboard-unknown-entity"@
                &&& code@ != "dashboard-widget-capability"@
                &&& code@ != "dashboard-invalid-aspect"@
                &&& code@ != "dashboard-unknown-room"@
                &&& code@ != "dashboard-unknown-unit"@
            },
        },
{
    if str_eq(code, "dashboard-reserved-view")
        || str_eq(code, "dashboard-duplicate-view")
        || str_eq(code, "dashboard-view-shape")
        || str_eq(code, "dashboard-nested-group")
        || str_eq(code, "dashboard-widget-fields")
        || str_eq(code, "dashboard-unknown-entity")
        || str_eq(code, "dashboard-widget-capability")
        || str_eq(code, "dashboard-invalid-aspect")
        || str_eq(code, "dashboard-unknown-room")
        || str_eq(code, "dashboard-unknown-unit") {
        Some(misshapen_views())
    } else {
        None
    }
}

/// The files of a house that earn the code, where they can.
fn files_specimen(code: &str) -> (r: Option<HouseFiles>)
    ensures
        match r {
            Some(s) => files_earn(s, code@),
            None => {
                &&& code@ != "missing-units-dir"@
                &&& code@ != "parse-error"@
                &&& code@ != "unsupported-schema"@
                &&& code@ != "missing-entities-dir"@
            },
        },
{
    if str_eq(code, "missing-units-dir") {
        Some(no_files())
    } else if str_eq(code, "parse-error")
        || str_eq(code, "unsupported-schema")
        || str_eq(code, "missing-entities-dir") {
        Some(torn_files())
    } else {
        None
    }
}

/// For a registered code an input that earns it; None for any other text. So
/// the codes that have an explanation are exactly those that loading or
/// checking can report.
pub fn specimen(code: &str) -> (r: Option<Specimen>)
    ensures
        match r {
            Some(s) => s.earns(code@) && codes::explained(code@),
            None => !codes::explained(code@),
        },
{
    if let Some(h) = unit_specimen(code) {
        proof {
            lemma_earned_is_explained(h, code@);
        }
        return Some(Specimen::House(h));
    }
    if let Some(h) = entity_specimen(code) {
        proof {
            lemma_earned_is_explained(h, code@);
        }
        return Some(Specimen::House(h));
    }
    if let Some(h) = dashboard_specimen(code) {
        proof {
            lemma_earned_is_explained(h, code@);
        }
        return Some(Specimen::House(h));
    }
    if let Some(files) = files_specimen(code) {
        proof {
            lemma_loaded_is_explained(files, code@);
        }
        return Some(Specimen::Files(files));
    }
    proof {
        if codes::explained(code@) {
            lemma_registered_words(code@);
        }
    }
    None
}

} // verus!

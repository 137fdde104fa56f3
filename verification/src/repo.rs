//! A house as it was loaded, and loading it from the files that were read.

use crate::error;
use crate::error::report;
use crate::error::ErrorView;
use crate::error::ValidationError;
use crate::manifest::DashboardFile;
use crate::manifest::EntityFile;
use crate::manifest::UnitKind;
use crate::manifest::UnitManifest;
use crate::manifest::ZonesFile;
use crate::manifest::SUPPORTED_SCHEMA;
use crate::names::NameMap;
use crate::order;
use crate::scan;
use crate::text;
use crate::text::cat2;
use crate::text::cat3;
use crate::text::cat5;
use crate::text::str_eq;
use vstd::prelude::*;

verus! {

broadcast use crate::text::group_views;

#[derive(Debug, PartialEq, Eq)]
pub struct LoadedUnit {
    pub manifest: UnitManifest,
    /// House-relative path, e.g. `units/zigbee.toml`.
    pub path: String,
}

#[derive(Debug, PartialEq, Eq)]
pub struct LoadedEntity {
    /// The globally unique entity name: the file stem of the entity file.
    pub name: String,
    pub file: EntityFile,
    /// House-relative path, e.g. `entities/zigbee/kitchen_ceiling.toml`.
    pub path: String,
    /// Name of the unit whose entities dir this file lives in.
    pub owner: String,
}

#[derive(Debug, PartialEq, Eq)]
pub struct House {
    pub units: Vec<LoadedUnit>,
    pub entities: Vec<LoadedEntity>,
    pub zones: NameMap<Vec<String>>,
    pub dashboard: Option<DashboardFile>,
}

/// The first of the units with this name.
pub open spec fn unit_named(units: Seq<LoadedUnit>, name: Seq<char>) -> Option<LoadedUnit>
    decreases units.len(),
{
    if units.len() == 0 {
        None
    } else if units[0].manifest.unit.name@ == name {
        Some(units[0])
    } else {
        unit_named(units.drop_first(), name)
    }
}

/// The first of the entities with this name.
pub open spec fn entity_named(entities: Seq<LoadedEntity>, name: Seq<char>) -> Option<LoadedEntity>
    decreases entities.len(),
{
    if entities.len() == 0 {
        None
    } else if entities[0].name@ == name {
        Some(entities[0])
    } else {
        entity_named(entities.drop_first(), name)
    }
}

/// All rooms that house at least one entity, in order.
pub open spec fn rooms_of(entities: Seq<LoadedEntity>) -> Seq<Seq<char>> {
    order::distinct(Seq::new(entities.len(), |i: int| entities[i].file.entity.room@))
}

impl House {
    pub fn unit(&self, name: &str) -> (r: Option<&LoadedUnit>)
        ensures
            match r {
                Some(u) => unit_named(self.units@, name@) == Some(*u),
                None => unit_named(self.units@, name@) == None::<LoadedUnit>,
            },
    {
        let mut i: usize = 0;
        assert(self.units@.skip(0) =~= self.units@);
        while i < self.units.len()
            invariant
                i <= self.units@.len(),
                unit_named(self.units@, name@) == unit_named(self.units@.skip(i as int), name@),
            decreases self.units@.len() - i,
        {
            assert(self.units@.skip(i as int).drop_first() =~= self.units@.skip(i + 1));
            if str_eq(self.units[i].manifest.unit.name.as_str(), name) {
                return Some(&self.units[i]);
            }
            i = i + 1;
        }
        None
    }

    /// The entity with this name.
    pub fn entity(&self, name: &str) -> (r: Option<&LoadedEntity>)
        ensures
            match r {
                Some(e) => entity_named(self.entities@, name@) == Some(*e),
                None => entity_named(self.entities@, name@) == None::<LoadedEntity>,
            },
    {
        let mut i: usize = 0;
        assert(self.entities@.skip(0) =~= self.entities@);
        while i < self.entities.len()
            invariant
                i <= self.entities@.len(),
                entity_named(self.entities@, name@) == entity_named(
                    self.entities@.skip(i as int),
                    name@,
                ),
            decreases self.entities@.len() - i,
        {
            assert(self.entities@.skip(i as int).drop_first() =~= self.entities@.skip(i + 1));
            if str_eq(self.entities[i].name.as_str(), name) {
                return Some(&self.entities[i]);
            }
            i = i + 1;
        }
        None
    }

    /// All rooms that house at least one entity.
    pub fn rooms(&self) -> (r: Vec<String>)
        ensures
            text::views(r@) == rooms_of(self.entities@),
    {
        let mut rooms: Vec<String> = Vec::new();
        let mut i: usize = 0;
        while i < self.entities.len()
            invariant
                i <= self.entities@.len(),
                rooms@.len() == i,
                forall|j: int|
                    0 <= j < i ==> (#[trigger] rooms@[j])@ == self.entities@[j].file.entity.room@,
            decreases self.entities@.len() - i,
        {
            rooms.push(self.entities[i].file.entity.room.clone());
            i = i + 1;
        }
        let ghost all = Seq::new(
            self.entities@.len(),
            |i: int| self.entities@[i].file.entity.room@,
        );
        assert(text::views(rooms@) =~= all);
        order::sort_distinct(rooms)
    }
}

/// A file that was read: its name, and what it parsed to or the complaint of
/// who read or parsed it.
#[derive(Debug)]
pub struct ReadFile<T> {
    pub name: String,
    pub content: Result<T, String>,
}

/// The files of a house. A file or directory that does not exist is None.
#[derive(Debug)]
pub struct HouseFiles {
    pub zones: Option<Result<ZonesFile, String>>,
    pub dashboard: Option<Result<DashboardFile, String>>,
    /// The files of `units/`, in the order of their names.
    pub units: Option<Vec<ReadFile<UnitManifest>>>,
    /// For each of `entity_dirs`, the files in it, in the order of their
    /// names.
    pub entities: Vec<Option<Vec<ReadFile<EntityFile>>>>,
}

/// The TOML files among the names, in order.
pub open spec fn toml_names(names: Seq<Seq<char>>, n: nat) -> Seq<Seq<char>> {
    text::each(n, |i: int| text::only_if(scan::suffixed(names[i], ".toml"@), names[i]))
}

/// The TOML files among the names of a directory's files, in order.
pub fn toml_files(names: Vec<String>) -> (r: Vec<String>)
    ensures
        text::views(r@) == order::sorted::<String>(
            toml_names(text::views(names@), names@.len()),
        ),
{
    let mut files: Vec<String> = Vec::new();
    for i in 0..names.len()
        invariant
            text::views(files@) == toml_names(text::views(names@), i as nat),
    {
        assert(text::views(names@)[i as int] == names@[i as int]@);
        if scan::ends_with(names[i].as_str(), ".toml") {
            files.push(names[i].clone());
        }
    }
    order::sort(files)
}

/// What is wrong with a file that could not be read or parsed.
pub open spec fn parse_errors<T>(content: Result<T, String>, rel: Seq<char>) -> Seq<ErrorView> {
    match content {
        Err(message) => seq![error::failure("parse-error"@, rel, message@, None)],
        Ok(_) => Seq::empty(),
    }
}

/// What is wrong with a file's contract version.
pub open spec fn version_errors(schema: u32, subject: Seq<char>, rel: Seq<char>) -> Seq<ErrorView> {
    text::only_if(
        schema != SUPPORTED_SCHEMA,
        error::failure(
            "unsupported-schema"@,
            subject,
            "schema "@ + text::decimal(schema as nat) + " is not supported (expected "@
                + text::decimal(SUPPORTED_SCHEMA as nat) + ")"@,
            Some(rel),
        ),
    )
}

fn check_schema_version(schema: u32, subject: &str, rel: &str, errors: &mut Vec<ValidationError>)
    ensures
        text::views(final(errors)@) == text::views(old(errors)@) + version_errors(
            schema,
            subject@,
            rel@,
        ),
{
    if schema != SUPPORTED_SCHEMA {
        let message = cat5(
            "schema ",
            text::decimal_of(schema as u64).as_str(),
            " is not supported (expected ",
            text::decimal_of(SUPPORTED_SCHEMA as u64).as_str(),
            ")",
        );
        report(errors, "unsupported-schema", subject, message, Some(rel.to_owned()));
    }
    assert(schema == SUPPORTED_SCHEMA ==> text::views(errors@) =~= text::views(old(errors)@)
        + version_errors(schema, subject@, rel@));
    assert(schema != SUPPORTED_SCHEMA ==> text::views(errors@) =~= text::views(old(errors)@)
        + version_errors(schema, subject@, rel@));
}

/// What is wrong with `zones.toml`, where there is one.
pub open spec fn zones_errors(zones: Option<Result<ZonesFile, String>>) -> Seq<ErrorView> {
    match zones {
        Some(content) => parse_errors(content, "zones.toml"@) + match content {
            Ok(z) => version_errors(z.schema, "zones"@, "zones.toml"@),
            Err(_) => Seq::empty(),
        },
        None => Seq::empty(),
    }
}

/// What is wrong with `dashboard.toml`, where there is one.
pub open spec fn dashboard_errors(dashboard: Option<Result<DashboardFile, String>>) -> Seq<ErrorView> {
    match dashboard {
        Some(content) => parse_errors(content, "dashboard.toml"@),
        None => Seq::empty(),
    }
}

/// The house-relative path of a unit's manifest.
pub open spec fn unit_path(name: Seq<char>) -> Seq<char> {
    "units/"@ + name
}

/// What is wrong with a unit's file.
pub open spec fn unit_errors(file: ReadFile<UnitManifest>) -> Seq<ErrorView> {
    parse_errors(file.content, unit_path(file.name@)) + match file.content {
        Ok(m) => version_errors(m.schema, m.unit.name@, unit_path(file.name@)),
        Err(_) => Seq::empty(),
    }
}

pub open spec fn units_errors(files: Seq<ReadFile<UnitManifest>>, n: nat) -> Seq<ErrorView> {
    text::each(n, |i: int| unit_errors(files[i]))
}

/// The units that parsed, each with its path.
pub open spec fn parsed_units(files: Seq<ReadFile<UnitManifest>>, n: nat) -> Seq<
    (UnitManifest, Seq<char>),
> {
    text::each(
        n,
        |i: int|
            match files[i].content {
                Ok(m) => seq![(m, unit_path(files[i].name@))],
                Err(_) => Seq::empty(),
            },
    )
}

/// Loaded units by what they hold.
pub open spec fn unit_records(units: Seq<LoadedUnit>) -> Seq<(UnitManifest, Seq<char>)> {
    Seq::new(units.len(), |i: int| (units[i].manifest, units[i].path@))
}

/// Whether a unit binds entities: adapters do, and automations may (virtual
/// sensors).
pub open spec fn may_bind(kind: UnitKind) -> bool {
    kind == UnitKind::Adapter || kind == UnitKind::Automation
}

/// The entities dirs of the units, each with the unit that owns it.
pub open spec fn dirs_of(units: Seq<(UnitManifest, Seq<char>)>, n: nat) -> Seq<
    (Seq<char>, Seq<char>),
> {
    text::each(
        n,
        |i: int|
            match units[i].0.entities {
                Some(e) => text::only_if(
                    may_bind(units[i].0.unit.kind),
                    (units[i].0.unit.name@, e.dir@),
                ),
                None => Seq::empty(),
            },
    )
}

/// The house-relative path of an entity file.
pub open spec fn entity_path(dir: Seq<char>, name: Seq<char>) -> Seq<char> {
    scan::without_trailing(dir, '/') + "/"@ + name
}

/// The entity that a file name names: its stem.
pub open spec fn stem(name: Seq<char>) -> Seq<char> {
    scan::without_suffixes(name, ".toml"@)
}

/// What is wrong with an entity's file.
pub open spec fn entity_errors(dir: Seq<char>, file: ReadFile<EntityFile>) -> Seq<ErrorView> {
    let rel = entity_path(dir, file.name@);
    parse_errors(file.content, rel) + match file.content {
        Ok(e) => version_errors(e.schema, stem(file.name@), rel),
        Err(_) => Seq::empty(),
    }
}

pub open spec fn entities_errors(dir: Seq<char>, files: Seq<ReadFile<EntityFile>>, n: nat) -> Seq<
    ErrorView,
> {
    text::each(n, |i: int| entity_errors(dir, files[i]))
}

/// What is wrong with an entities dir.
pub open spec fn dir_errors(
    owner: Seq<char>,
    dir: Seq<char>,
    files: Option<Vec<ReadFile<EntityFile>>>,
) -> Seq<ErrorView> {
    match files {
        Some(v) => entities_errors(dir, v@, v@.len()),
        None => seq![
            error::failure(
                "missing-entities-dir"@,
                owner,
                "entities dir \""@ + dir + "\" not found"@,
                None,
            ),
        ],
    }
}

/// What is wrong with the first `n` entities dirs.
pub open spec fn all_dir_errors(
    dirs: Seq<(Seq<char>, Seq<char>)>,
    files: Seq<Option<Vec<ReadFile<EntityFile>>>>,
    n: nat,
) -> Seq<ErrorView> {
    text::each(n, |i: int| dir_errors(dirs[i].0, dirs[i].1, files[i]))
}

/// An entity by what it holds: name, file, path, owner.
pub struct EntityRecord {
    pub name: Seq<char>,
    pub file: EntityFile,
    pub path: Seq<char>,
    pub owner: Seq<char>,
}

/// Loaded entities by what they hold.
pub open spec fn entity_records(entities: Seq<LoadedEntity>) -> Seq<EntityRecord> {
    Seq::new(
        entities.len(),
        |i: int|
            EntityRecord {
                name: entities[i].name@,
                file: entities[i].file,
                path: entities[i].path@,
                owner: entities[i].owner@,
            },
    )
}

/// The entities that parsed in one dir.
pub open spec fn parsed_entities(
    owner: Seq<char>,
    dir: Seq<char>,
    files: Seq<ReadFile<EntityFile>>,
    n: nat,
) -> Seq<EntityRecord> {
    text::each(
        n,
        |i: int|
            match files[i].content {
                Ok(e) => seq![
                    EntityRecord {
                        name: stem(files[i].name@),
                        file: e,
                        path: entity_path(dir, files[i].name@),
                        owner,
                    },
                ],
                Err(_) => Seq::empty(),
            },
    )
}

/// The entities that parsed in the first `n` dirs.
pub open spec fn all_parsed_entities(
    dirs: Seq<(Seq<char>, Seq<char>)>,
    files: Seq<Option<Vec<ReadFile<EntityFile>>>>,
    n: nat,
) -> Seq<EntityRecord> {
    text::each(
        n,
        |i: int|
            match files[i] {
                Some(v) => parsed_entities(dirs[i].0, dirs[i].1, v@, v@.len()),
                None => Seq::empty(),
            },
    )
}

/// Where the entity files are: for each unit that binds entities its name and
/// the dir, as the manifests say it.
pub fn entity_dirs(files: &Option<Vec<ReadFile<UnitManifest>>>) -> (r: Vec<(String, String)>)
    ensures
        match files {
            Some(v) => text::views(r@) == dirs_of(
                parsed_units(v@, v@.len()),
                parsed_units(v@, v@.len()).len(),
            ),
            None => r@.len() == 0,
        },
{
    let mut out: Vec<(String, String)> = Vec::new();
    let files = match files {
        Some(v) => v,
        None => return out,
    };
    for i in 0..files.len()
        invariant
            text::views(out@) == dirs_of(
                parsed_units(files@, i as nat),
                parsed_units(files@, i as nat).len(),
            ),
    {
        let ghost before = parsed_units(files@, i as nat);
        let ghost after = parsed_units(files@, (i + 1) as nat);
        if let Ok(m) = &files[i].content {
            proof {
                assert(after == before.push((*m, unit_path(files@[i as int].name@))));
                lemma_dirs_prefix(before, after, before.len());
            }
            let binds = match m.unit.kind {
                UnitKind::Adapter => true,
                UnitKind::Automation => true,
                _ => false,
            };
            if let Some(entities) = &m.entities {
                if binds {
                    out.push((m.unit.name.clone(), entities.dir.clone()));
                }
            }
        } else {
            assert(after =~= before);
        }
    }
    out
}

proof fn lemma_dirs_prefix(
    a: Seq<(UnitManifest, Seq<char>)>,
    b: Seq<(UnitManifest, Seq<char>)>,
    n: nat,
)
    requires
        n <= a.len() <= b.len(),
        forall|i: int| 0 <= i < n ==> a[i] == b[i],
    ensures
        dirs_of(a, n) == dirs_of(b, n),
    decreases n,
{
    if n > 0 {
        lemma_dirs_prefix(a, b, (n - 1) as nat);
        assert(a[n - 1] == b[n - 1]);
    }
}

fn load_units(files: Vec<ReadFile<UnitManifest>>, errors: &mut Vec<ValidationError>) -> (r: Vec<
    LoadedUnit,
>)
    ensures
        text::views(final(errors)@) == text::views(old(errors)@) + units_errors(
            files@,
            files@.len(),
        ),
        unit_records(r@) == parsed_units(files@, files@.len()),
{
    let ghost all = files@;
    let ghost start = text::views(errors@);
    let mut rest = files;
    let mut units: Vec<LoadedUnit> = Vec::new();
    let ghost mut done: nat = 0;
    proof {
        assert(all.skip(0) =~= all);
        assert(start + units_errors(all, 0) =~= start);
        assert(unit_records(units@) =~= parsed_units(all, 0));
    }
    while rest.len() > 0
        invariant
            done <= all.len(),
            rest@ == all.skip(done as int),
            text::views(errors@) == start + units_errors(all, done),
            unit_records(units@) == parsed_units(all, done),
        decreases rest@.len(),
    {
        let file = rest.remove(0);
        let rel = cat2("units/", file.name.as_str());
        proof {
            assert(file == all[done as int]);
            assert(all.skip(done as int).remove(0) =~= all.skip((done + 1) as int));
        }
        let ghost before = text::views(errors@);
        let ghost records = unit_records(units@);
        match file.content {
            Ok(manifest) => {
                let ghost m = manifest;
                check_schema_version(
                    manifest.schema,
                    manifest.unit.name.as_str(),
                    rel.as_str(),
                    errors,
                );
                let ghost path = rel@;
                units.push(LoadedUnit { manifest, path: rel });
                proof {
                    assert(unit_records(units@) =~= records.push((m, path)));
                    assert(text::views(errors@) =~= before + unit_errors(all[done as int]));
                }
            },
            Err(message) => {
                report(errors, "parse-error", rel.as_str(), message, None);
                proof {
                    assert(text::views(errors@) =~= before + unit_errors(all[done as int]));
                    assert(records + Seq::<(UnitManifest, Seq<char>)>::empty() =~= records);
                }
            },
        }
        proof {
            assert(start + units_errors(all, done) + unit_errors(all[done as int]) =~= start
                + units_errors(all, done + 1));
            assert(unit_records(units@) =~= parsed_units(all, done + 1));
            done = done + 1;
        }
    }
    assert(done == all.len());
    units
}

fn load_dir(
    owner: &str,
    dir: &str,
    files: Vec<ReadFile<EntityFile>>,
    entities: &mut Vec<LoadedEntity>,
    errors: &mut Vec<ValidationError>,
)
    ensures
        text::views(final(errors)@) == text::views(old(errors)@) + entities_errors(
            dir@,
            files@,
            files@.len(),
        ),
        entity_records(final(entities)@) == entity_records(old(entities)@) + parsed_entities(
            owner@,
            dir@,
            files@,
            files@.len(),
        ),
{
    let ghost all = files@;
    let ghost start = text::views(errors@);
    let ghost had = entity_records(entities@);
    let mut rest = files;
    let ghost mut done: nat = 0;
    let base = scan::trim_trailing(dir, '/');
    proof {
        reveal_strlit(".toml");
        assert(all.skip(0) =~= all);
        assert(start + entities_errors(dir@, all, 0) =~= start);
        assert(had + parsed_entities(owner@, dir@, all, 0) =~= had);
    }
    while rest.len() > 0
        invariant
            ".toml"@.len() > 0,
            base@ == scan::without_trailing(dir@, '/'),
            done <= all.len(),
            rest@ == all.skip(done as int),
            text::views(errors@) == start + entities_errors(dir@, all, done),
            entity_records(entities@) == had + parsed_entities(owner@, dir@, all, done),
        decreases rest@.len(),
    {
        let file = rest.remove(0);
        let rel = cat3(base.as_str(), "/", file.name.as_str());
        proof {
            assert(file == all[done as int]);
            assert(all.skip(done as int).remove(0) =~= all.skip((done + 1) as int));
        }
        let ghost before = text::views(errors@);
        let ghost records = entity_records(entities@);
        match file.content {
            Ok(entity) => {
                let name = scan::trim_suffixes(file.name.as_str(), ".toml");
                let ghost record = EntityRecord {
                    name: name@,
                    file: entity,
                    path: rel@,
                    owner: owner@,
                };
                check_schema_version(entity.schema, name.as_str(), rel.as_str(), errors);
                entities.push(
                    LoadedEntity { name, file: entity, path: rel, owner: owner.to_owned() },
                );
                proof {
                    assert(entity_records(entities@) =~= records.push(record));
                    assert(text::views(errors@) =~= before + entity_errors(
                        dir@,
                        all[done as int],
                    ));
                }
            },
            Err(message) => {
                report(errors, "parse-error", rel.as_str(), message, None);
                proof {
                    assert(text::views(errors@) =~= before + entity_errors(
                        dir@,
                        all[done as int],
                    ));
                }
            },
        }
        proof {
            assert(start + entities_errors(dir@, all, done) + entity_errors(dir@, all[done as int])
                =~= start + entities_errors(dir@, all, done + 1));
            assert(entity_records(entities@) =~= had + parsed_entities(
                owner@,
                dir@,
                all,
                done + 1,
            ));
            done = done + 1;
        }
    }
    assert(done == all.len());
}

/// The units of the files that a house has.
pub open spec fn house_units(files: HouseFiles) -> Seq<(UnitManifest, Seq<char>)> {
    match files.units {
        Some(v) => parsed_units(v@, v@.len()),
        None => Seq::empty(),
    }
}

/// The entities dirs of the files that a house has.
pub open spec fn house_dirs(files: HouseFiles) -> Seq<(Seq<char>, Seq<char>)> {
    dirs_of(house_units(files), house_units(files).len())
}

/// What is wrong with the files of a house.
pub open spec fn load_errors(files: HouseFiles) -> Seq<ErrorView> {
    zones_errors(files.zones) + dashboard_errors(files.dashboard) + match files.units {
        Some(v) => units_errors(v@, v@.len()) + all_dir_errors(
            house_dirs(files),
            files.entities@,
            house_dirs(files).len(),
        ),
        None => seq![error::failure("missing-units-dir"@, "units"@, "directory not found"@, None)],
    }
}

/// Makes a house of its files. Parse failures never abort the walk: the
/// result is a typed model of everything that parsed plus a complete error
/// list.
pub fn load(files: HouseFiles) -> (r: (House, Vec<ValidationError>))
    requires
        files.entities@.len() == house_dirs(files).len(),
    ensures
        text::views(r.1@) == load_errors(files),
        unit_records(r.0.units@) == house_units(files),
        entity_records(r.0.entities@) == all_parsed_entities(
            house_dirs(files),
            files.entities@,
            house_dirs(files).len(),
        ),
        match files.zones {
            Some(Ok(z)) => r.0.zones == z.zones,
            _ => r.0.zones@.len() == 0,
        },
        match files.dashboard {
            Some(Ok(d)) => r.0.dashboard == Some(d),
            _ => r.0.dashboard is None,
        },
{
    let ghost whole = files;
    let mut errors: Vec<ValidationError> = Vec::new();
    let dirs = entity_dirs(&files.units);
    let mut zones: NameMap<Vec<String>> = NameMap::new();
    if let Some(content) = files.zones {
        match content {
            Ok(z) => {
                check_schema_version(z.schema, "zones", "zones.toml", &mut errors);
                zones = z.zones;
            },
            Err(message) => report(&mut errors, "parse-error", "zones.toml", message, None),
        }
    }
    assert(text::views(errors@) =~= zones_errors(whole.zones));
    let mut dashboard: Option<DashboardFile> = None;
    let ghost before = text::views(errors@);
    if let Some(content) = files.dashboard {
        match content {
            Ok(d) => {
                dashboard = Some(d);
            },
            Err(message) => report(&mut errors, "parse-error", "dashboard.toml", message, None),
        }
    }
    assert(text::views(errors@) =~= before + dashboard_errors(whole.dashboard));
    let ghost start = text::views(errors@);
    let mut entities: Vec<LoadedEntity> = Vec::new();
    let units = match files.units {
        Some(v) => load_units(v, &mut errors),
        None => {
            report(
                &mut errors,
                "missing-units-dir",
                "units",
                "directory not found".to_owned(),
                None,
            );
            let units: Vec<LoadedUnit> = Vec::new();
            proof {
                assert(unit_records(units@) =~= house_units(whole));
                assert(entity_records(entities@) =~= Seq::empty());
                assert(text::views(errors@) =~= load_errors(whole));
            }
            return (House { units, entities, zones, dashboard }, errors);
        },
    };
    let ghost after_units = text::views(errors@);
    let ghost places = house_dirs(whole);
    let ghost all = files.entities@;
    let mut rest = files.entities;
    let n = dirs.len();
    proof {
        assert(text::views(dirs@) == places);
        assert(all.skip(0) =~= all);
        assert(after_units + all_dir_errors(places, all, 0) =~= after_units);
        assert(entity_records(entities@) =~= all_parsed_entities(places, all, 0));
    }
    for i in 0..n
        invariant
            n == dirs@.len(),
            n == all.len(),
            places == text::views(dirs@),
            rest@ == all.skip(i as int),
            text::views(errors@) == after_units + all_dir_errors(places, all, i as nat),
            entity_records(entities@) == all_parsed_entities(places, all, i as nat),
    {
        let owner = dirs[i].0.as_str();
        let dir = dirs[i].1.as_str();
        let found = rest.remove(0);
        proof {
            assert(found == all[i as int]);
            assert(all.skip(i as int).remove(0) =~= all.skip(i + 1));
            assert(places[i as int] == (owner@, dir@));
        }
        let ghost errs = text::views(errors@);
        let ghost had = entity_records(entities@);
        match found {
            Some(files) => load_dir(owner, dir, files, &mut entities, &mut errors),
            None => {
                let message = cat3("entities dir \"", dir, "\" not found");
                report(&mut errors, "missing-entities-dir", owner, message, None);
                assert(had + Seq::<EntityRecord>::empty() =~= had);
            },
        }
        proof {
            assert(text::views(errors@) =~= errs + dir_errors(owner@, dir@, all[i as int]));
            assert(text::views(errors@) =~= after_units + all_dir_errors(
                places,
                all,
                (i + 1) as nat,
            ));
        }
    }
    assert(text::views(errors@) =~= load_errors(whole));
    (House { units, entities, zones, dashboard }, errors)
}

} // verus!

//! Structural validation of a loaded house.

use crate::config;
use crate::error;
use crate::error::report;
use crate::error::ErrorView;
use crate::error::ValidationError;
use crate::floats;
use crate::floats::Real;
use crate::keyspace;
use crate::keyspace::is_reserved_word;
use crate::keyspace::PSEUDO_ROOMS;
use crate::manifest;
use crate::manifest::DiscoveryMode;
use crate::manifest::ParamSpec;
use crate::manifest::ParamType;
use crate::manifest::UnitKind;
use crate::manifest::ViewSpec;
use crate::manifest::WidgetKind;
use crate::manifest::WidgetSpec;
use crate::manifest::WriteMode;
use crate::manifest::CAPABILITIES;
use crate::names;
use crate::names::NameMap;
use crate::order;
use crate::repo;
use crate::repo::House;
use crate::repo::LoadedEntity;
use crate::repo::LoadedUnit;
use crate::text;
use crate::text::cat2;
use crate::text::cat3;
use crate::text::cat4;
use crate::text::cat5;
use crate::text::is_listed;
use crate::text::parse_number;
use crate::text::split;
use crate::text::str_eq;
use crate::tomlvalue;
use crate::tomlvalue::TomlData;
use crate::tomlvalue::TomlValue;
use vstd::prelude::*;

verus! {

broadcast use crate::text::group_views;

/// The wall-clock time that a text denotes: hours below 24 and minutes below
/// 60 around one colon.
pub open spec fn time_of(s: Seq<char>) -> Option<(u8, u8)> {
    let pieces = text::split_at_each(s, ':');
    if pieces.len() == 2 {
        match (text::number(pieces[0]), text::number(pieces[1])) {
            (Some(h), Some(m)) => if h < 24 && m < 60 {
                Some((h as u8, m as u8))
            } else {
                None
            },
            _ => None,
        }
    } else {
        None
    }
}

/// The wall-clock time that a text denotes.
pub fn parse_time(s: &str) -> (r: Option<(u8, u8)>)
    ensures
        r == time_of(s@),
{
    let pieces = split(s, ':');
    if pieces.len() != 2 {
        return None;
    }
    assert(text::views(pieces@)[0] == pieces@[0]@);
    assert(text::views(pieces@)[1] == pieces@[1]@);
    let h = match parse_number(pieces[0].as_str(), 23) {
        Some(h) => h,
        None => {
            return None;
        },
    };
    let m = match parse_number(pieces[1].as_str(), 59) {
        Some(m) => m,
        None => {
            return None;
        },
    };
    Some((h as u8, m as u8))
}

/// Renders a TOML value without string quotes, for error messages and plan
/// output.
pub fn display_value(value: &TomlValue) -> (r: String)
    ensures
        r@ == tomlvalue::shown(value@),
{
    match &value.data {
        TomlData::Str(s) => s.clone(),
        _ => value.text.clone(),
    }
}

/// Whether the character may stand in a key segment.
pub open spec fn segment_char(c: char) -> bool {
    'a' <= c <= 'z' || 'A' <= c <= 'Z' || '0' <= c <= '9' || c == '_' || c == '-' || c == '.'
}

/// Whether a name is usable as exactly one bus key segment.
pub open spec fn is_segment(name: Seq<char>) -> bool {
    name.len() > 0 && forall|i: int| 0 <= i < name.len() ==> segment_char(#[trigger] name[i])
}

/// Whether a name is usable as exactly one bus key segment. Anything else
/// either breaks the fixed key schema (`/`), is meaningful to the bus
/// (`*`, `$`, `?`, `#`), or invites whitespace/encoding surprises.
pub fn valid_segment(name: &str) -> (r: bool)
    ensures
        r == is_segment(name@),
{
    let chars = text::chars_of(name);
    if chars.len() == 0 {
        return false;
    }
    for i in 0..chars.len()
        invariant
            chars@ == name@,
            forall|k: int| 0 <= k < i ==> segment_char(#[trigger] name@[k]),
    {
        let c = chars[i];
        if !(('a' <= c && c <= 'z') || ('A' <= c && c <= 'Z') || ('0' <= c && c <= '9') || c == '_'
            || c == '-' || c == '.') {
            assert(!segment_char(name@[i as int]));
            return false;
        }
    }
    true
}

/// What is said of a name that is no key segment.
pub open spec fn segment_message(what: Seq<char>, name: Seq<char>) -> Seq<char> {
    what + " \""@ + name
        + "\" must be a single key segment (letters, digits, \"_\", \"-\", \".\")"@
}

/// The failure of a name that is no key segment.
pub open spec fn name_errors(
    subject: Seq<char>,
    what: Seq<char>,
    name: Seq<char>,
    file: Seq<char>,
) -> Seq<ErrorView> {
    text::only_if(
        !is_segment(name),
        error::failure("invalid-name"@, subject, segment_message(what, name), Some(file)),
    )
}

fn check_name(
    subject: &str,
    what: &str,
    name: &str,
    file: &str,
    errors: &mut Vec<ValidationError>,
)
    ensures
        text::views(final(errors)@) == text::views(old(errors)@) + name_errors(
            subject@,
            what@,
            name@,
            file@,
        ),
{
    if !valid_segment(name) {
        report(
            errors,
            "invalid-name",
            subject,
            cat4(
                what,
                " \"",
                name,
                "\" must be a single key segment (letters, digits, \"_\", \"-\", \".\")",
            ),
            Some(file.to_owned()),
        );
    }
}

/// What is wrong with the names of the first `n` parameters of a unit.
pub open spec fn param_name_errors(u: LoadedUnit, n: nat) -> Seq<ErrorView> {
    let params = u.manifest.params->Some_0@;
    let unit = u.manifest.unit.name@;
    text::each(
        n,
        |i: int|
            name_errors(unit + "."@ + params[i].0@, "parameter name"@, params[i].0@, u.path@),
    )
}

/// What is wrong with the name of a unit and those of its parameters.
pub open spec fn unit_name_errors(u: LoadedUnit) -> Seq<ErrorView> {
    let name = u.manifest.unit.name@;
    name_errors(name, "unit name"@, name, u.path@) + text::only_if(
        is_segment(name) && name == "system"@,
        error::failure(
            "reserved-unit-name"@,
            name,
            "unit name \"system\" is reserved for the core's meta keys"@,
            Some(u.path@),
        ),
    ) + match u.manifest.params {
        Some(params) => param_name_errors(u, params@.len()),
        None => Seq::empty(),
    }
}

/// What is wrong with the name of an entity and that of its room.
pub open spec fn entity_name_errors(e: LoadedEntity) -> Seq<ErrorView> {
    name_errors(e.name@, "entity name"@, e.name@, e.path@) + name_errors(
        e.name@,
        "room"@,
        e.file.entity.room@,
        e.path@,
    )
}

/// The names of the first `n` units.
pub open spec fn unit_names_errors(h: House, n: nat) -> Seq<ErrorView> {
    text::each(n, |i: int| unit_name_errors(h.units@[i]))
}

/// The names of the first `n` entities.
pub open spec fn entity_names_errors(h: House, n: nat) -> Seq<ErrorView> {
    text::each(n, |i: int| entity_name_errors(h.entities@[i]))
}

/// The names of the first `n` zones.
pub open spec fn zone_names_errors(h: House, n: nat) -> Seq<ErrorView> {
    text::each(
        n,
        |i: int| name_errors(h.zones@[i].0@, "zone name"@, h.zones@[i].0@, "zones.toml"@),
    )
}

/// The names of the first `n` views.
pub open spec fn view_names_errors(views: Seq<ViewSpec>, n: nat) -> Seq<ErrorView> {
    text::each(
        n,
        |i: int| name_errors(views[i].name@, "view name"@, views[i].name@, "dashboard.toml"@),
    )
}

/// The views of the dashboard.
pub open spec fn views_in(h: House) -> Seq<ViewSpec> {
    match h.dashboard {
        Some(d) => d.view@,
        None => Seq::empty(),
    }
}

/// Everything that is wrong with names.
pub open spec fn names_errors(h: House) -> Seq<ErrorView> {
    unit_names_errors(h, h.units@.len()) + entity_names_errors(h, h.entities@.len())
        + zone_names_errors(h, h.zones@.len()) + view_names_errors(views_in(h), views_in(h).len())
}

fn check_unit_name(unit: &LoadedUnit, errors: &mut Vec<ValidationError>)
    ensures
        text::views(final(errors)@) == text::views(old(errors)@) + unit_name_errors(*unit),
{
    let name = unit.manifest.unit.name.as_str();
    let ghost start = text::views(errors@);
    check_name(name, "unit name", name, unit.path.as_str(), errors);
    if valid_segment(name) && str_eq(name, "system") {
        report(
            errors,
            "reserved-unit-name",
            name,
            "unit name \"system\" is reserved for the core's meta keys".to_owned(),
            Some(unit.path.clone()),
        );
    }
    if let Some(params) = &unit.manifest.params {
        let ghost before = text::views(errors@);
        let n = params.len();
        for i in 0..n
            invariant
                n == params@.len(),
                unit.manifest.params == Some(*params),
                name@ == unit.manifest.unit.name@,
                text::views(errors@) == before + param_name_errors(*unit, i as nat),
        {
            let param = params.name(i).as_str();
            let subject = cat3(name, ".", param);
            check_name(subject.as_str(), "parameter name", param, unit.path.as_str(), errors);
        }
    }
}

/// Every name that becomes a key segment: unit and parameter names
/// (`home/config/{unit}/{param}`, `home/meta/{unit}/...`), entity and room
/// names (`home/state/{room}/{entity}/{aspect}`), zone names (expanded in
/// key expressions). The unit name `system` is refused outright: the core
/// serves `home/meta/system/**` itself.
fn check_names(house: &House, errors: &mut Vec<ValidationError>)
    ensures
        text::views(final(errors)@) == text::views(old(errors)@) + names_errors(*house),
{
    let ghost e0 = text::views(errors@);
    for i in 0..house.units.len()
        invariant
            text::views(errors@) == e0 + unit_names_errors(*house, i as nat),
    {
        check_unit_name(&house.units[i], errors);
    }
    let ghost e1 = text::views(errors@);
    for i in 0..house.entities.len()
        invariant
            text::views(errors@) == e1 + entity_names_errors(*house, i as nat),
    {
        let e = &house.entities[i];
        check_name(e.name.as_str(), "entity name", e.name.as_str(), e.path.as_str(), errors);
        check_name(
            e.name.as_str(),
            "room",
            e.file.entity.room.as_str(),
            e.path.as_str(),
            errors,
        );
    }
    let ghost e2 = text::views(errors@);
    let zones = house.zones.len();
    for i in 0..zones
        invariant
            zones == house.zones@.len(),
            text::views(errors@) == e2 + zone_names_errors(*house, i as nat),
    {
        let zone = house.zones.name(i).as_str();
        check_name(zone, "zone name", zone, "zones.toml", errors);
    }
    let ghost e3 = text::views(errors@);
    if let Some(dashboard) = &house.dashboard {
        for i in 0..dashboard.view.len()
            invariant
                text::views(errors@) == e3 + view_names_errors(dashboard.view@, i as nat),
        {
            let name = dashboard.view[i].name.as_str();
            check_name(name, "view name", name, "dashboard.toml", errors);
        }
    }
}

/// The paths of those of the first `n` units that have the name.
pub open spec fn unit_paths(units: Seq<LoadedUnit>, name: Seq<char>, n: nat) -> Seq<Seq<char>> {
    text::each(n, |i: int| text::only_if(units[i].manifest.unit.name@ == name, units[i].path@))
}

/// The paths of those of the first `n` entities that have the name.
pub open spec fn entity_paths(entities: Seq<LoadedEntity>, name: Seq<char>, n: nat) -> Seq<
    Seq<char>,
> {
    text::each(n, |i: int| text::only_if(entities[i].name@ == name, entities[i].path@))
}

/// Whether the entity has the address in the owner's namespace.
pub open spec fn has_address(e: LoadedEntity, owner: Seq<char>, id: Seq<char>) -> bool {
    e.owner@ == owner && text::opt_text(e.file.entity.id) == Some(id)
}

/// The paths of those of the first `n` entities that have the address.
pub open spec fn address_paths(
    entities: Seq<LoadedEntity>,
    owner: Seq<char>,
    id: Seq<char>,
    n: nat,
) -> Seq<Seq<char>> {
    text::each(n, |i: int| text::only_if(has_address(entities[i], owner, id), entities[i].path@))
}

/// A name that several files define.
pub open spec fn shared_name_errors(
    code: Seq<char>,
    name: Seq<char>,
    paths: Seq<Seq<char>>,
) -> Seq<ErrorView> {
    text::only_if(
        paths.len() > 1,
        error::failure(
            code,
            name,
            "defined in "@ + text::joined(order::sorted::<String>(paths), " and "@),
            None,
        ),
    )
}

/// The names of all units, each once, in order.
pub open spec fn all_unit_names(units: Seq<LoadedUnit>) -> Seq<Seq<char>> {
    order::distinct(Seq::new(units.len(), |i: int| units[i].manifest.unit.name@))
}

/// The names of all entities, each once, in order.
pub open spec fn all_entity_names(entities: Seq<LoadedEntity>) -> Seq<Seq<char>> {
    order::distinct(Seq::new(entities.len(), |i: int| entities[i].name@))
}

/// The addresses of the first `n` entities.
pub open spec fn addresses(entities: Seq<LoadedEntity>, n: nat) -> Seq<(Seq<char>, Seq<char>)> {
    text::each(
        n,
        |i: int|
            match entities[i].file.entity.id {
                Some(id) => seq![(entities[i].owner@, id@)],
                None => Seq::empty(),
            },
    )
}

/// The addresses of all entities, each once, in order.
pub open spec fn all_addresses(entities: Seq<LoadedEntity>) -> Seq<(Seq<char>, Seq<char>)> {
    order::deduped(order::sorted::<(String, String)>(addresses(entities, entities.len())))
}

/// An address that several files bind.
pub open spec fn shared_address_errors(
    entities: Seq<LoadedEntity>,
    address: (Seq<char>, Seq<char>),
) -> Seq<ErrorView> {
    let paths = address_paths(entities, address.0, address.1, entities.len());
    text::only_if(
        paths.len() > 1,
        error::failure(
            "duplicate-entity-id"@,
            address.1,
            "bound to \""@ + address.0 + "\" by "@ + text::joined(
                order::sorted::<String>(paths),
                " and "@,
            ),
            None,
        ),
    )
}

/// The first `n` unit names, those that are shared.
pub open spec fn shared_unit_errors(h: House, n: nat) -> Seq<ErrorView> {
    let all = all_unit_names(h.units@);
    text::each(
        n,
        |i: int|
            shared_name_errors(
                "duplicate-unit-name"@,
                all[i],
                unit_paths(h.units@, all[i], h.units@.len()),
            ),
    )
}

/// The first `n` entity names, those that are shared.
pub open spec fn shared_entity_errors(h: House, n: nat) -> Seq<ErrorView> {
    let all = all_entity_names(h.entities@);
    text::each(
        n,
        |i: int|
            shared_name_errors(
                "duplicate-entity-name"@,
                all[i],
                entity_paths(h.entities@, all[i], h.entities@.len()),
            ),
    )
}

/// The first `n` addresses, those that are shared.
pub open spec fn shared_id_errors(h: House, n: nat) -> Seq<ErrorView> {
    text::each(n, |i: int| shared_address_errors(h.entities@, all_addresses(h.entities@)[i]))
}

/// Everything that is defined more than once.
pub open spec fn duplicates_errors(h: House) -> Seq<ErrorView> {
    shared_unit_errors(h, all_unit_names(h.units@).len()) + shared_entity_errors(
        h,
        all_entity_names(h.entities@).len(),
    ) + shared_id_errors(h, all_addresses(h.entities@).len())
}

fn report_shared(
    code: &'static str,
    name: &String,
    paths: Vec<String>,
    errors: &mut Vec<ValidationError>,
)
    ensures
        text::views(final(errors)@) == text::views(old(errors)@) + shared_name_errors(
            code@,
            name@,
            text::views(paths@),
        ),
{
    if paths.len() > 1 {
        let list = text::join(&order::sort(paths), " and ");
        report(errors, code, name.as_str(), cat2("defined in ", list.as_str()), None);
    }
}

fn check_unit_duplicates(house: &House, errors: &mut Vec<ValidationError>)
    ensures
        text::views(final(errors)@) == text::views(old(errors)@) + shared_unit_errors(
            *house,
            all_unit_names(house.units@).len(),
        ),
{
    let mut all: Vec<String> = Vec::new();
    for i in 0..house.units.len()
        invariant
            all@.len() == i,
            forall|k: int|
                0 <= k < i ==> (#[trigger] all@[k])@ == house.units@[k].manifest.unit.name@,
    {
        all.push(house.units[i].manifest.unit.name.clone());
    }
    assert(text::views(all@) =~= Seq::new(
        house.units@.len(),
        |i: int| house.units@[i].manifest.unit.name@,
    ));
    let all = order::sort_distinct(all);
    let ghost start = text::views(errors@);
    for i in 0..all.len()
        invariant
            text::views(all@) == all_unit_names(house.units@),
            text::views(errors@) == start + shared_unit_errors(*house, i as nat),
    {
        assert(text::views(all@)[i as int] == all@[i as int]@);
        let mut paths: Vec<String> = Vec::new();
        for j in 0..house.units.len()
            invariant
                i < all@.len(),
                text::views(paths@) == unit_paths(house.units@, all@[i as int]@, j as nat),
        {
            if str_eq(house.units[j].manifest.unit.name.as_str(), all[i].as_str()) {
                paths.push(house.units[j].path.clone());
            }
        }
        report_shared("duplicate-unit-name", &all[i], paths, errors);
    }
}

fn check_entity_duplicates(house: &House, errors: &mut Vec<ValidationError>)
    ensures
        text::views(final(errors)@) == text::views(old(errors)@) + shared_entity_errors(
            *house,
            all_entity_names(house.entities@).len(),
        ),
{
    let mut all: Vec<String> = Vec::new();
    for i in 0..house.entities.len()
        invariant
            all@.len() == i,
            forall|k: int| 0 <= k < i ==> (#[trigger] all@[k])@ == house.entities@[k].name@,
    {
        all.push(house.entities[i].name.clone());
    }
    assert(text::views(all@) =~= Seq::new(
        house.entities@.len(),
        |i: int| house.entities@[i].name@,
    ));
    let all = order::sort_distinct(all);
    let ghost start = text::views(errors@);
    for i in 0..all.len()
        invariant
            text::views(all@) == all_entity_names(house.entities@),
            text::views(errors@) == start + shared_entity_errors(*house, i as nat),
    {
        assert(text::views(all@)[i as int] == all@[i as int]@);
        let mut paths: Vec<String> = Vec::new();
        for j in 0..house.entities.len()
            invariant
                i < all@.len(),
                text::views(paths@) == entity_paths(house.entities@, all@[i as int]@, j as nat),
        {
            if str_eq(house.entities[j].name.as_str(), all[i].as_str()) {
                paths.push(house.entities[j].path.clone());
            }
        }
        report_shared("duplicate-entity-name", &all[i], paths, errors);
    }
}

fn check_id_duplicates(house: &House, errors: &mut Vec<ValidationError>)
    ensures
        text::views(final(errors)@) == text::views(old(errors)@) + shared_id_errors(
            *house,
            all_addresses(house.entities@).len(),
        ),
{
    let mut all: Vec<(String, String)> = Vec::new();
    for i in 0..house.entities.len()
        invariant
            text::views(all@) == addresses(house.entities@, i as nat),
    {
        if let Some(id) = &house.entities[i].file.entity.id {
            all.push((house.entities[i].owner.clone(), id.clone()));
        }
    }
    let all = order::dedup(order::sort(all));
    let ghost start = text::views(errors@);
    for i in 0..all.len()
        invariant
            text::views(all@) == all_addresses(house.entities@),
            text::views(errors@) == start + shared_id_errors(*house, i as nat),
    {
        assert(text::views(all@)[i as int] == all@[i as int]@);
        let mut paths: Vec<String> = Vec::new();
        for j in 0..house.entities.len()
            invariant
                i < all@.len(),
                text::views(paths@) == address_paths(
                    house.entities@,
                    all@[i as int].0@,
                    all@[i as int].1@,
                    j as nat,
                ),
        {
            if let Some(id) = &house.entities[j].file.entity.id {
                if str_eq(house.entities[j].owner.as_str(), all[i].0.as_str()) && str_eq(
                    id.as_str(),
                    all[i].1.as_str(),
                ) {
                    paths.push(house.entities[j].path.clone());
                }
            }
        }
        if paths.len() > 1 {
            let list = text::join(&order::sort(paths), " and ");
            report(
                errors,
                "duplicate-entity-id",
                all[i].1.as_str(),
                cat4("bound to \"", all[i].0.as_str(), "\" by ", list.as_str()),
                None,
            );
        }
    }
}

fn check_duplicates(house: &House, errors: &mut Vec<ValidationError>)
    ensures
        text::views(final(errors)@) == text::views(old(errors)@) + duplicates_errors(*house),
{
    check_unit_duplicates(house, errors);
    check_entity_duplicates(house, errors);
    check_id_duplicates(house, errors);
}

/// A manifest whose sections do not fit.
pub open spec fn shape_failure(u: LoadedUnit, message: Seq<char>) -> ErrorView {
    error::failure("invalid-manifest"@, u.manifest.unit.name@, message, Some(u.path@))
}

/// What is wrong with the sections of a manifest.
pub open spec fn shape_errors(u: LoadedUnit) -> Seq<ErrorView> {
    let m = u.manifest;
    let kind = m.unit.kind;
    let adapter = kind == UnitKind::Adapter;
    (match m.discovery {
        Some(d) => match d.mode {
            DiscoveryMode::Static => text::only_if(
                d.endpoint is None,
                shape_failure(u, "discovery mode \"static\" requires an endpoint"@),
            ),
            DiscoveryMode::Mdns => text::only_if(
                d.service is None,
                shape_failure(u, "discovery mode \"mdns\" requires a service"@),
            ),
        },
        None => Seq::empty(),
    }) + text::only_if(
        adapter && m.entities is None,
        shape_failure(u, "adapter requires an [entities] section"@),
    ) + text::only_if(
        adapter && m.discovery is None,
        shape_failure(u, "adapter requires a [discovery] section"@),
    ) + text::only_if(
        !adapter && m.entities is Some && kind != UnitKind::Automation,
        shape_failure(u, "[entities] is only valid for adapters and automations"@),
    ) + text::only_if(
        !adapter && m.discovery is Some && kind != UnitKind::Service,
        shape_failure(u, "[discovery] is only valid for adapters and services"@),
    )
}

/// The same over the first `n` units.
pub open spec fn shapes_errors(h: House, n: nat) -> Seq<ErrorView> {
    text::each(n, |i: int| shape_errors(h.units@[i]))
}

fn report_shape(unit: &LoadedUnit, message: &str, errors: &mut Vec<ValidationError>)
    ensures
        text::views(final(errors)@) == text::views(old(errors)@).push(
            shape_failure(*unit, message@),
        ),
{
    report(
        errors,
        "invalid-manifest",
        unit.manifest.unit.name.as_str(),
        message.to_owned(),
        Some(unit.path.clone()),
    );
}

fn check_unit_shape(unit: &LoadedUnit, errors: &mut Vec<ValidationError>)
    ensures
        text::views(final(errors)@) == text::views(old(errors)@) + shape_errors(*unit),
{
    let kind = unit.manifest.unit.kind;
    if let Some(d) = &unit.manifest.discovery {
        match d.mode {
            DiscoveryMode::Static => {
                if d.endpoint.is_none() {
                    report_shape(unit, "discovery mode \"static\" requires an endpoint", errors);
                }
            },
            DiscoveryMode::Mdns => {
                if d.service.is_none() {
                    report_shape(unit, "discovery mode \"mdns\" requires a service", errors);
                }
            },
        }
    }
    if kind == UnitKind::Adapter {
        if unit.manifest.entities.is_none() {
            report_shape(unit, "adapter requires an [entities] section", errors);
        }
        if unit.manifest.discovery.is_none() {
            report_shape(unit, "adapter requires a [discovery] section", errors);
        }
    } else {
        // Automations may bind entities (virtual sensors); services have
        // never needed to and stay refused until one does.
        if unit.manifest.entities.is_some() && kind != UnitKind::Automation {
            report_shape(unit, "[entities] is only valid for adapters and automations", errors);
        }
        // Services may talk to an external backend (e.g. the recorder's
        // store) and use [discovery] the same way adapters do.
        if unit.manifest.discovery.is_some() && kind != UnitKind::Service {
            report_shape(unit, "[discovery] is only valid for adapters and services", errors);
        }
    }
}

fn check_manifest_shape(house: &House, errors: &mut Vec<ValidationError>)
    ensures
        text::views(final(errors)@) == text::views(old(errors)@) + shapes_errors(
            *house,
            house.units@.len(),
        ),
{
    let ghost start = text::views(errors@);
    for i in 0..house.units.len()
        invariant
            text::views(errors@) == start + shapes_errors(*house, i as nat),
    {
        check_unit_shape(&house.units[i], errors);
    }
}

/// Whether the first unit of the name is an adapter.
pub open spec fn is_adapter(h: House, unit: Seq<char>) -> bool {
    match repo::unit_named(h.units@, unit) {
        Some(u) => u.manifest.unit.kind == UnitKind::Adapter,
        None => false,
    }
}

/// What is wrong with the owner that an entity file names.
pub open spec fn owner_errors(h: House, e: LoadedEntity) -> Seq<ErrorView> {
    let owner = e.file.write_policy.owner@;
    match repo::unit_named(h.units@, owner) {
        None => seq![
            error::failure(
                "missing-owner-unit"@,
                e.name@,
                "owner unit \""@ + owner + "\" does not exist"@,
                Some(e.path@),
            ),
        ],
        Some(u) => if u.manifest.unit.kind == UnitKind::Service {
            seq![
                error::failure(
                    "missing-owner-unit"@,
                    e.name@,
                    "owner \""@ + owner + "\" is not an adapter or automation"@,
                    Some(e.path@),
                ),
            ]
        } else if owner != e.owner@ {
            seq![
                error::failure(
                    "owner-mismatch"@,
                    e.name@,
                    "owner \""@ + owner + "\" but bound by unit \""@ + e.owner@ + "\""@,
                    Some(e.path@),
                ),
            ]
        } else {
            text::only_if(
                u.manifest.unit.kind == UnitKind::Automation && e.file.write_policy.in_force()
                    == WriteMode::Arbitrated,
                error::failure(
                    "virtual-entity-arbitrated"@,
                    e.name@,
                    "automation-owned entities are latches and cannot be arbitrated; use shared or exclusive"@,
                    Some(e.path@),
                ),
            )
        },
    }
}

/// What is wrong with an entity file.
pub open spec fn entity_errors(h: House, e: LoadedEntity) -> Seq<ErrorView> {
    let capability = e.file.entity.capability@;
    let room = e.file.entity.room@;
    text::only_if(
        !text::listed(CAPABILITIES@, capability),
        error::failure(
            "unknown-capability"@,
            e.name@,
            "unknown capability \""@ + capability + "\""@,
            Some(e.path@),
        ),
    ) + text::only_if(
        e.file.write_policy.mode is None && manifest::takes_commands(capability),
        error::failure(
            "write-mode-required"@,
            e.name@,
            "capability \""@ + capability + "\" takes commands, so [write_policy] needs a mode"@,
            Some(e.path@),
        ),
    ) + text::only_if(
        is_adapter(h, e.file.write_policy.owner@) && e.file.entity.id is None,
        error::failure(
            "entity-id-required"@,
            e.name@,
            "an adapter-owned entity needs an [entity] id: its adapter-native address"@,
            Some(e.path@),
        ),
    ) + text::only_if(
        keyspace::reserved(room) && !text::listed(PSEUDO_ROOMS@, room),
        error::failure(
            "reserved-room-name"@,
            e.name@,
            "room \""@ + room + "\" is a reserved word"@,
            Some(e.path@),
        ),
    ) + owner_errors(h, e)
}

/// The same over the first `n` entities.
pub open spec fn entities_errors(h: House, n: nat) -> Seq<ErrorView> {
    text::each(n, |i: int| entity_errors(h, h.entities@[i]))
}

fn check_owner(house: &House, e: &LoadedEntity, errors: &mut Vec<ValidationError>)
    ensures
        text::views(final(errors)@) == text::views(old(errors)@) + owner_errors(*house, *e),
{
    let owner = e.file.write_policy.owner.as_str();
    let unit = match house.unit(owner) {
        Some(unit) => unit,
        None => {
            report(
                errors,
                "missing-owner-unit",
                e.name.as_str(),
                cat3("owner unit \"", owner, "\" does not exist"),
                Some(e.path.clone()),
            );
            return ;
        },
    };
    if unit.manifest.unit.kind == UnitKind::Service {
        report(
            errors,
            "missing-owner-unit",
            e.name.as_str(),
            cat3("owner \"", owner, "\" is not an adapter or automation"),
            Some(e.path.clone()),
        );
    } else if !str_eq(owner, e.owner.as_str()) {
        report(
            errors,
            "owner-mismatch",
            e.name.as_str(),
            cat5("owner \"", owner, "\" but bound by unit \"", e.owner.as_str(), "\""),
            Some(e.path.clone()),
        );
    } else if unit.manifest.unit.kind == UnitKind::Automation && e.file.write_policy.mode()
        == WriteMode::Arbitrated {
        // A commandable virtual entity is a latch: no device to contend for,
        // no hold to expire, so arbitration has nothing to order.
        report(
            errors,
            "virtual-entity-arbitrated",
            e.name.as_str(),
            "automation-owned entities are latches and cannot be arbitrated; use shared or exclusive".to_owned(),
            Some(e.path.clone()),
        );
    }
}

fn bound_by_adapter(house: &House, unit: &str) -> (r: bool)
    ensures
        r == is_adapter(*house, unit@),
{
    match house.unit(unit) {
        Some(u) => u.manifest.unit.kind == UnitKind::Adapter,
        None => false,
    }
}

fn commandable(capability: &str) -> (r: bool)
    ensures
        r == manifest::takes_commands(capability@),
{
    match manifest::capability(capability) {
        Some(c) => c.base.is_some(),
        None => false,
    }
}

#[verifier::rlimit(40)]
fn check_entity(house: &House, e: &LoadedEntity, errors: &mut Vec<ValidationError>)
    ensures
        text::views(final(errors)@) == text::views(old(errors)@) + entity_errors(*house, *e),
{
    let capability = e.file.entity.capability.as_str();
    if !is_listed(&CAPABILITIES, capability) {
        report(
            errors,
            "unknown-capability",
            e.name.as_str(),
            cat3("unknown capability \"", capability, "\""),
            Some(e.path.clone()),
        );
    }
    // A write mode governs commands, so it means nothing on a capability
    // that takes none. It stays required where there IS something to
    // govern, so a light or a lock never inherits a policy silently.
    if e.file.write_policy.mode.is_none() && commandable(capability) {
        report(
            errors,
            "write-mode-required",
            e.name.as_str(),
            cat3(
                "capability \"",
                capability,
                "\" takes commands, so [write_policy] needs a mode",
            ),
            Some(e.path.clone()),
        );
    }
    // An adapter binds periphery, so its entity files address it. An
    // automation's do not: a computed value has no device behind it.
    if bound_by_adapter(house, e.file.write_policy.owner.as_str()) && e.file.entity.id.is_none() {
        report(
            errors,
            "entity-id-required",
            e.name.as_str(),
            "an adapter-owned entity needs an [entity] id: its adapter-native address".to_owned(),
            Some(e.path.clone()),
        );
    }
    let room = e.file.entity.room.as_str();
    if is_reserved_word(room) && !is_listed(&PSEUDO_ROOMS, room) {
        report(
            errors,
            "reserved-room-name",
            e.name.as_str(),
            cat3("room \"", room, "\" is a reserved word"),
            Some(e.path.clone()),
        );
    }
    check_owner(house, e, errors);
}

fn check_entities(house: &House, errors: &mut Vec<ValidationError>)
    ensures
        text::views(final(errors)@) == text::views(old(errors)@) + entities_errors(
            *house,
            house.entities@.len(),
        ),
{
    let ghost start = text::views(errors@);
    for i in 0..house.entities.len()
        invariant
            text::views(errors@) == start + entities_errors(*house, i as nat),
    {
        check_entity(house, &house.entities[i], errors);
    }
}

/// The failure of a zone.
pub open spec fn zone_failure(code: Seq<char>, zone: Seq<char>, message: Seq<char>) -> ErrorView {
    error::failure(code, zone, message, Some("zones.toml"@))
}

/// What is wrong with one member of a zone.
pub open spec fn member_errors(rooms: Seq<Seq<char>>, zone: Seq<char>, room: Seq<char>) -> Seq<
    ErrorView,
> {
    if text::listed(PSEUDO_ROOMS@, room) {
        seq![
            zone_failure("zone-pseudo-room"@, zone, "zone includes pseudo-room \""@ + room + "\""@),
        ]
    } else {
        text::only_if(
            !rooms.contains(room),
            zone_failure(
                "zone-unknown-room"@,
                zone,
                "zone references unknown room \""@ + room + "\""@,
            ),
        )
    }
}

/// What is wrong with the first `n` members of a zone.
pub open spec fn members_errors(
    rooms: Seq<Seq<char>>,
    zone: Seq<char>,
    members: Seq<String>,
    n: nat,
) -> Seq<ErrorView> {
    text::each(n, |i: int| member_errors(rooms, zone, members[i]@))
}

/// What is wrong with a zone.
pub open spec fn zone_errors(
    rooms: Seq<Seq<char>>,
    zone: Seq<char>,
    members: Seq<String>,
) -> Seq<ErrorView> {
    if keyspace::reserved(zone) {
        seq![
            zone_failure(
                "reserved-zone-name"@,
                zone,
                "zone name \""@ + zone + "\" is a reserved word"@,
            ),
        ]
    } else {
        text::only_if(
            rooms.contains(zone),
            zone_failure(
                "zone-room-collision"@,
                zone,
                "zone name \""@ + zone + "\" collides with a room name"@,
            ),
        ) + members_errors(rooms, zone, members, members.len())
    }
}

/// The same over the first `n` zones.
pub open spec fn zones_errors(h: House, n: nat) -> Seq<ErrorView> {
    text::each(
        n,
        |i: int| zone_errors(repo::rooms_of(h.entities@), h.zones@[i].0@, h.zones@[i].1@),
    )
}

fn report_zone(
    errors: &mut Vec<ValidationError>,
    code: &'static str,
    zone: &str,
    message: String,
)
    ensures
        text::views(final(errors)@) == text::views(old(errors)@).push(
            zone_failure(code@, zone@, message@),
        ),
{
    report(errors, code, zone, message, Some("zones.toml".to_owned()));
}

fn check_zone(
    rooms: &Vec<String>,
    zone: &str,
    members: &Vec<String>,
    errors: &mut Vec<ValidationError>,
)
    ensures
        text::views(final(errors)@) == text::views(old(errors)@) + zone_errors(
            text::views(rooms@),
            zone@,
            members@,
        ),
{
    if is_reserved_word(zone) {
        report_zone(
            errors,
            "reserved-zone-name",
            zone,
            cat3("zone name \"", zone, "\" is a reserved word"),
        );
        return ;
    }
    if text::has(rooms, zone) {
        report_zone(
            errors,
            "zone-room-collision",
            zone,
            cat3("zone name \"", zone, "\" collides with a room name"),
        );
    }
    let ghost before = text::views(errors@);
    for i in 0..members.len()
        invariant
            text::views(errors@) == before + members_errors(
                text::views(rooms@),
                zone@,
                members@,
                i as nat,
            ),
    {
        let room = members[i].as_str();
        if is_listed(&PSEUDO_ROOMS, room) {
            report_zone(
                errors,
                "zone-pseudo-room",
                zone,
                cat3("zone includes pseudo-room \"", room, "\""),
            );
        } else if !text::has(rooms, room) {
            report_zone(
                errors,
                "zone-unknown-room",
                zone,
                cat3("zone references unknown room \"", room, "\""),
            );
        }
    }
}

fn check_zones(house: &House, errors: &mut Vec<ValidationError>)
    ensures
        text::views(final(errors)@) == text::views(old(errors)@) + zones_errors(
            *house,
            house.zones@.len(),
        ),
{
    let rooms = house.rooms();
    let ghost start = text::views(errors@);
    let n = house.zones.len();
    for i in 0..n
        invariant
            n == house.zones@.len(),
            text::views(rooms@) == repo::rooms_of(house.entities@),
            text::views(errors@) == start + zones_errors(*house, i as nat),
    {
        check_zone(&rooms, house.zones.name(i).as_str(), house.zones.value(i), errors);
    }
}

/// Whether a default has its declared type; an integer literal is accepted
/// for a float.
pub open spec fn default_fits(spec: ParamSpec) -> bool {
    match (spec.param_type, spec.default.data) {
        (ParamType::Bool, TomlData::Boolean(_)) => true,
        (ParamType::Int, TomlData::Integer(_)) => true,
        (ParamType::Float, TomlData::Float(_)) => true,
        (ParamType::Float, TomlData::Integer(_)) => true,
        (ParamType::String, TomlData::Str(_)) => true,
        (ParamType::Time, TomlData::Str(s)) => time_of(s@) is Some,
        _ => false,
    }
}

/// A constraint on numbers.
pub open spec fn is_range_key(key: Seq<char>) -> bool {
    key == "min"@ || key == "max"@
}

/// A constraint on times.
pub open spec fn is_window_key(key: Seq<char>) -> bool {
    key == "after"@ || key == "before"@
}

/// Whether the type understands the constraint; `None` for a constraint that
/// no type understands.
pub open spec fn understood(t: ParamType, key: Seq<char>) -> Option<bool> {
    if is_range_key(key) {
        Some(t == ParamType::Int || t == ParamType::Float)
    } else if is_window_key(key) {
        Some(t == ParamType::Time)
    } else if key == "enum"@ {
        Some(t == ParamType::String)
    } else {
        None
    }
}

/// All of the items are strings.
pub open spec fn all_strings(items: Seq<TomlValue>) -> bool {
    forall|i: int| 0 <= i < items.len() ==> (#[trigger] items[i]).data is Str
}

/// Whether the value is one the constraint can have.
pub open spec fn bound_fits(key: Seq<char>, value: TomlValue) -> bool {
    if is_range_key(key) {
        value.data is Integer || value.data is Float
    } else if is_window_key(key) {
        match value.data {
            TomlData::Str(s) => time_of(s@) is Some,
            _ => false,
        }
    } else {
        match value.data {
            TomlData::Array(items) => items@.len() > 0 && all_strings(items@),
            _ => false,
        }
    }
}

/// What a constraint's value must be.
pub open spec fn expected_bound(key: Seq<char>) -> Seq<char> {
    if is_range_key(key) {
        "a number"@
    } else if is_window_key(key) {
        "a time (HH:MM)"@
    } else {
        "a non-empty array of strings"@
    }
}

/// What is wrong with one constraint.
pub open spec fn constraint_fault(t: ParamType, key: Seq<char>, value: TomlValue) -> Option<
    Seq<char>,
> {
    match understood(t, key) {
        None => Some("unknown constraint \""@ + key + "\""@),
        Some(false) => Some(
            "constraint \""@ + key + "\" is not valid for type \""@ + t.word() + "\""@,
        ),
        Some(true) => if bound_fits(key, value) {
            None
        } else {
            Some("constraint \""@ + key + "\" must be "@ + expected_bound(key))
        },
    }
}

/// The failure of a constraint.
pub open spec fn constraint_errors(
    subject: Seq<char>,
    path: Seq<char>,
    t: ParamType,
    key: Seq<char>,
    value: TomlValue,
) -> Seq<ErrorView> {
    match constraint_fault(t, key, value) {
        Some(message) => seq![
            error::failure("malformed-constraint"@, subject, message, Some(path)),
        ],
        None => Seq::empty(),
    }
}

/// The failures of the first `n` constraints of a parameter.
pub open spec fn constraints_errors(
    subject: Seq<char>,
    path: Seq<char>,
    t: ParamType,
    table: Seq<(String, TomlValue)>,
    n: nat,
) -> Seq<ErrorView> {
    text::each(n, |i: int| constraint_errors(subject, path, t, table[i].0@, table[i].1))
}

/// A range whose ends are the wrong way round.
pub open spec fn range_errors(
    subject: Seq<char>,
    path: Seq<char>,
    table: Seq<(String, TomlValue)>,
) -> Seq<ErrorView> {
    match (config::number_bound(table, "min"@), config::number_bound(table, "max"@)) {
        (Some(min), Some(max)) => text::only_if(
            floats::float_lt(floats::float_bits(max), floats::float_bits(min)),
            error::failure(
                "malformed-constraint"@,
                subject,
                "min ("@ + tomlvalue::shown(names::lookup(table, "min"@)->Some_0@)
                    + ") is greater than max ("@ + tomlvalue::shown(
                    names::lookup(table, "max"@)->Some_0@,
                ) + ")"@,
                Some(path),
            ),
        ),
        _ => Seq::empty(),
    }
}

/// What is wrong with a parameter apart from its default breaking its own
/// constraint.
pub open spec fn form_errors(subject: Seq<char>, spec: ParamSpec, path: Seq<char>) -> Seq<
    ErrorView,
> {
    text::only_if(
        !default_fits(spec),
        error::failure(
            "invalid-default"@,
            subject,
            "default "@ + tomlvalue::shown(spec.default@) + " does not match type \""@
                + spec.param_type.word() + "\""@,
            Some(path),
        ),
    ) + match spec.constraint {
        None => Seq::empty(),
        Some(table) => constraints_errors(
            subject,
            path,
            spec.param_type,
            table@,
            table@.len(),
        ) + range_errors(subject, path, table@),
    }
}

/// What is wrong with a parameter. The default must satisfy its own
/// constraint: an out-of-constraint default never plans, let alone reaches a
/// running unit. Skipped when the parameter already has errors — a default
/// judged against a malformed constraint would only add noise.
pub open spec fn param_errors(subject: Seq<char>, spec: ParamSpec, path: Seq<char>) -> Seq<
    ErrorView,
> {
    let form = form_errors(subject, spec, path);
    if spec.constraint is None || form.len() > 0 {
        form
    } else {
        match config::default_fault(spec) {
            Some(message) => seq![
                error::failure(
                    "invalid-default"@,
                    subject,
                    "default "@ + tomlvalue::shown(spec.default@) + ": "@ + message,
                    Some(path),
                ),
            ],
            None => Seq::empty(),
        }
    }
}

/// The failures of the first `n` parameters of a unit.
pub open spec fn unit_params_errors(u: LoadedUnit, n: nat) -> Seq<ErrorView> {
    let params = u.manifest.params->Some_0@;
    text::each(
        n,
        |i: int|
            param_errors(u.manifest.unit.name@ + "."@ + params[i].0@, params[i].1, u.path@),
    )
}

/// The failures of the parameters of the first `n` units.
pub open spec fn params_errors(h: House, n: nat) -> Seq<ErrorView> {
    text::each(
        n,
        |i: int|
            match h.units@[i].manifest.params {
                Some(params) => unit_params_errors(h.units@[i], params@.len()),
                None => Seq::empty(),
            },
    )
}

fn fits_type(spec: &ParamSpec) -> (r: bool)
    ensures
        r == default_fits(*spec),
{
    match (&spec.param_type, &spec.default.data) {
        (ParamType::Bool, TomlData::Boolean(_)) => true,
        (ParamType::Int, TomlData::Integer(_)) => true,
        (ParamType::Float, TomlData::Float(_)) => true,
        (ParamType::Float, TomlData::Integer(_)) => true,
        (ParamType::String, TomlData::Str(_)) => true,
        (ParamType::Time, TomlData::Str(s)) => parse_time(s.as_str()).is_some(),
        _ => false,
    }
}

fn only_strings(items: &Vec<TomlValue>) -> (r: bool)
    ensures
        r == all_strings(items@),
{
    for i in 0..items.len()
        invariant
            forall|k: int| 0 <= k < i ==> (#[trigger] items@[k]).data is Str,
    {
        match &items[i].data {
            TomlData::Str(_) => {},
            _ => {
                return false;
            },
        }
    }
    true
}

fn fits_bound(key: &str, value: &TomlValue) -> (r: bool)
    ensures
        r == bound_fits(key@, *value),
{
    if str_eq(key, "min") || str_eq(key, "max") {
        match &value.data {
            TomlData::Integer(_) | TomlData::Float(_) => true,
            _ => false,
        }
    } else if str_eq(key, "after") || str_eq(key, "before") {
        match &value.data {
            TomlData::Str(s) => parse_time(s.as_str()).is_some(),
            _ => false,
        }
    } else {
        match &value.data {
            TomlData::Array(items) => items.len() > 0 && only_strings(items),
            _ => false,
        }
    }
}

fn judge_constraint(t: ParamType, key: &str, value: &TomlValue) -> (r: Option<String>)
    ensures
        text::opt_text(r) == constraint_fault(t, key@, *value),
{
    let range = str_eq(key, "min") || str_eq(key, "max");
    let window = str_eq(key, "after") || str_eq(key, "before");
    let valid = if range {
        t == ParamType::Int || t == ParamType::Float
    } else if window {
        t == ParamType::Time
    } else if str_eq(key, "enum") {
        t == ParamType::String
    } else {
        return Some(cat3("unknown constraint \"", key, "\""));
    };
    if !valid {
        return Some(
            cat5("constraint \"", key, "\" is not valid for type \"", t.as_str(), "\""),
        );
    }
    if fits_bound(key, value) {
        return None;
    }
    let expected = if range {
        "a number"
    } else if window {
        "a time (HH:MM)"
    } else {
        "a non-empty array of strings"
    };
    Some(cat4("constraint \"", key, "\" must be ", expected))
}

fn as_number(value: &TomlValue) -> (r: Option<Real>)
    ensures
        config::opt_number(r) == match value.data {
            TomlData::Integer(i) => Some(floats::float_of_int(i as int)),
            TomlData::Float(f) => Some(f.text@),
            _ => None,
        },
{
    match &value.data {
        TomlData::Integer(i) => Some(Real::from_int(*i as i128)),
        TomlData::Float(f) => Some(f.copy()),
        _ => None,
    }
}

fn check_bounds(
    subject: &str,
    path: &str,
    table: &NameMap<TomlValue>,
    errors: &mut Vec<ValidationError>,
)
    ensures
        text::views(final(errors)@) == text::views(old(errors)@) + range_errors(
            subject@,
            path@,
            table@,
        ),
{
    if let Some(low) = table.get("min") {
        if let Some(high) = table.get("max") {
            if let Some(min) = as_number(low) {
                if let Some(max) = as_number(high) {
                    if max.less(&min) {
                        let from = display_value(low);
                        let to = display_value(high);
                        report(
                            errors,
                            "malformed-constraint",
                            subject,
                            cat5(
                                "min (",
                                from.as_str(),
                                ") is greater than max (",
                                to.as_str(),
                                ")",
                            ),
                            Some(path.to_owned()),
                        );
                    }
                }
            }
        }
    }
}

fn check_param(subject: &str, spec: &ParamSpec, path: &str, errors: &mut Vec<ValidationError>)
    ensures
        text::views(final(errors)@) == text::views(old(errors)@) + param_errors(
            subject@,
            *spec,
            path@,
        ),
{
    let before = errors.len();
    let ghost start = text::views(errors@);
    let t = spec.param_type;
    if !fits_type(spec) {
        let shown = display_value(&spec.default);
        report(
            errors,
            "invalid-default",
            subject,
            cat5("default ", shown.as_str(), " does not match type \"", t.as_str(), "\""),
            Some(path.to_owned()),
        );
    }
    let table = match &spec.constraint {
        Some(table) => table,
        None => {
            return ;
        },
    };
    let ghost typed = text::views(errors@);
    let n = table.len();
    for i in 0..n
        invariant
            n == table@.len(),
            text::views(errors@) == typed + constraints_errors(
                subject@,
                path@,
                t,
                table@,
                i as nat,
            ),
    {
        if let Some(message) = judge_constraint(t, table.name(i).as_str(), table.value(i)) {
            report(errors, "malformed-constraint", subject, message, Some(path.to_owned()));
        }
    }
    check_bounds(subject, path, table, errors);
    assert(text::views(errors@) =~= start + form_errors(subject@, *spec, path@));
    if errors.len() == before {
        if let Err(message) = config::default_within_constraint(spec) {
            let shown = display_value(&spec.default);
            report(
                errors,
                "invalid-default",
                subject,
                cat4("default ", shown.as_str(), ": ", message.as_str()),
                Some(path.to_owned()),
            );
        }
    }
}

fn check_params(house: &House, errors: &mut Vec<ValidationError>)
    ensures
        text::views(final(errors)@) == text::views(old(errors)@) + params_errors(
            *house,
            house.units@.len(),
        ),
{
    let ghost start = text::views(errors@);
    for i in 0..house.units.len()
        invariant
            text::views(errors@) == start + params_errors(*house, i as nat),
    {
        let unit = &house.units[i];
        if let Some(params) = &unit.manifest.params {
            let ghost before = text::views(errors@);
            let n = params.len();
            for j in 0..n
                invariant
                    n == params@.len(),
                    unit.manifest.params == Some(*params),
                    text::views(errors@) == before + unit_params_errors(*unit, j as nat),
            {
                let subject = cat3(
                    unit.manifest.unit.name.as_str(),
                    ".",
                    params.name(j).as_str(),
                );
                check_param(subject.as_str(), params.value(j), unit.path.as_str(), errors);
            }
        }
    }
}

/// The failure of a part of the dashboard.
pub open spec fn dashboard_failure(
    code: Seq<char>,
    subject: Seq<char>,
    message: Seq<char>,
) -> ErrorView {
    error::failure(code, subject, message, Some("dashboard.toml"@))
}

fn report_dashboard(
    errors: &mut Vec<ValidationError>,
    code: &'static str,
    subject: &str,
    message: String,
)
    ensures
        text::views(final(errors)@) == text::views(old(errors)@).push(
            dashboard_failure(code@, subject@, message@),
        ),
{
    report(errors, code, subject, message, Some("dashboard.toml".to_owned()));
}

/// The fields that a kind of widget needs.
pub open spec fn required_fields(kind: WidgetKind) -> Seq<Seq<char>> {
    match kind {
        WidgetKind::Tile | WidgetKind::Dial | WidgetKind::Burner | WidgetKind::Entity => seq![
            "entity"@,
        ],
        WidgetKind::Chart => seq!["entity"@, "aspect"@],
        WidgetKind::Room => seq!["room"@],
        WidgetKind::Unit | WidgetKind::Params => seq!["unit"@],
        WidgetKind::People | WidgetKind::Deviations | WidgetKind::MapView => Seq::empty(),
        WidgetKind::Group => seq!["widgets"@],
    }
}

/// The fields that a kind of widget may have besides.
pub open spec fn optional_fields(kind: WidgetKind) -> Seq<Seq<char>> {
    match kind {
        WidgetKind::Tile | WidgetKind::Dial => seq!["aspect"@],
        WidgetKind::Chart => seq!["hours"@],
        WidgetKind::Group => seq!["label"@],
        _ => Seq::empty(),
    }
}

/// The fields that a widget has.
pub open spec fn present_fields(w: WidgetSpec) -> Seq<Seq<char>> {
    text::only_if(w.entity is Some, "entity"@) + text::only_if(w.aspect is Some, "aspect"@)
        + text::only_if(w.room is Some, "room"@) + text::only_if(w.unit is Some, "unit"@)
        + text::only_if(w.hours is Some, "hours"@) + text::only_if(w.label is Some, "label"@)
        + text::only_if(w.widgets@.len() > 0, "widgets"@)
}

/// The first of the words, from the place `from`, that the list does not
/// hold.
pub open spec fn first_missing(words: Seq<Seq<char>>, list: Seq<Seq<char>>, from: int) -> Option<
    Seq<char>,
>
    decreases words.len() - from,
{
    if from < 0 || from >= words.len() {
        None
    } else if !list.contains(words[from]) {
        Some(words[from])
    } else {
        first_missing(words, list, from + 1)
    }
}

/// Why the fields of a widget do not fit its kind.
pub open spec fn fields_fault(w: WidgetSpec) -> Option<Seq<char>> {
    let present = present_fields(w);
    let required = required_fields(w.kind);
    match first_missing(required, present, 0) {
        Some(field) => Some("a `"@ + w.kind.word() + "` widget needs `"@ + field + "`"@),
        None => match first_missing(present, required + optional_fields(w.kind), 0) {
            Some(field) => Some("a `"@ + w.kind.word() + "` widget takes no `"@ + field + "`"@),
            None => match w.hours {
                Some(hours) => if floats::place(hours.bits()) > 0 && floats::finite(hours.bits()) {
                    None
                } else {
                    Some("`hours` must be a positive number, not "@ + hours.text@)
                },
                None => None,
            },
        },
    }
}

fn one(word: &str) -> (r: Vec<String>)
    ensures
        text::views(r@) == seq![word@],
{
    let mut v: Vec<String> = Vec::new();
    v.push(word.to_owned());
    assert(text::views(v@) =~= seq![word@]);
    v
}

fn needed_fields(kind: WidgetKind) -> (r: Vec<String>)
    ensures
        text::views(r@) == required_fields(kind),
{
    match kind {
        WidgetKind::Tile | WidgetKind::Dial | WidgetKind::Burner | WidgetKind::Entity => one(
            "entity",
        ),
        WidgetKind::Chart => {
            let mut v = one("entity");
            v.push("aspect".to_owned());
            assert(text::views(v@) =~= seq!["entity"@, "aspect"@]);
            v
        },
        WidgetKind::Room => one("room"),
        WidgetKind::Unit | WidgetKind::Params => one("unit"),
        WidgetKind::People | WidgetKind::Deviations | WidgetKind::MapView => Vec::new(),
        WidgetKind::Group => one("widgets"),
    }
}

fn further_fields(kind: WidgetKind) -> (r: Vec<String>)
    ensures
        text::views(r@) == optional_fields(kind),
{
    match kind {
        WidgetKind::Tile | WidgetKind::Dial => one("aspect"),
        WidgetKind::Chart => one("hours"),
        WidgetKind::Group => one("label"),
        _ => Vec::new(),
    }
}

fn add_field(out: &mut Vec<String>, set: bool, word: &str)
    ensures
        text::views(final(out)@) == text::views(old(out)@) + text::only_if(set, word@),
{
    if set {
        out.push(word.to_owned());
    }
}

fn fields_of(w: &WidgetSpec) -> (r: Vec<String>)
    ensures
        text::views(r@) == present_fields(*w),
{
    let mut out: Vec<String> = Vec::new();
    add_field(&mut out, w.entity.is_some(), "entity");
    add_field(&mut out, w.aspect.is_some(), "aspect");
    add_field(&mut out, w.room.is_some(), "room");
    add_field(&mut out, w.unit.is_some(), "unit");
    add_field(&mut out, w.hours.is_some(), "hours");
    add_field(&mut out, w.label.is_some(), "label");
    add_field(&mut out, w.widgets.len() > 0, "widgets");
    out
}

fn find_missing(words: &Vec<String>, list: &Vec<String>) -> (r: Option<String>)
    ensures
        text::opt_text(r) == first_missing(text::views(words@), text::views(list@), 0),
{
    let mut i: usize = 0;
    while i < words.len()
        invariant
            i <= words@.len(),
            first_missing(text::views(words@), text::views(list@), 0) == first_missing(
                text::views(words@),
                text::views(list@),
                i as int,
            ),
        decreases words@.len() - i,
    {
        assert(text::views(words@)[i as int] == words@[i as int]@);
        if !text::has(list, words[i].as_str()) {
            return Some(words[i].clone());
        }
        i = i + 1;
    }
    None
}

/// The fields a widget kind takes — required ones first, then optional —
/// against what it carries; None when they agree.
pub fn widget_fields_message(widget: &WidgetSpec) -> (r: Option<String>)
    ensures
        text::opt_text(r) == fields_fault(*widget),
{
    let present = fields_of(widget);
    let required = needed_fields(widget.kind);
    let kind = widget.kind.as_str();
    if let Some(field) = find_missing(&required, &present) {
        return Some(cat5("a `", kind, "` widget needs `", field.as_str(), "`"));
    }
    let mut known = required;
    let ghost first = text::views(known@);
    let mut further = further_fields(widget.kind);
    let ghost second = text::views(further@);
    let ghost all = known@ + further@;
    known.append(&mut further);
    assert(text::views(known@) =~= first + second);
    if let Some(field) = find_missing(&present, &known) {
        return Some(cat5("a `", kind, "` widget takes no `", field.as_str(), "`"));
    }
    if let Some(hours) = &widget.hours {
        if !hours.positive_finite() {
            return Some(cat2("`hours` must be a positive number, not ", hours.text.as_str()));
        }
    }
    None
}

/// Where the entity that a widget names is none of the house, or not one that
/// the widget can show.
pub open spec fn entity_reference_errors(h: House, w: WidgetSpec, subject: Seq<char>) -> Seq<
    ErrorView,
> {
    match w.entity {
        Some(entity) => match repo::entity_named(h.entities@, entity@) {
            None => seq![
                dashboard_failure(
                    "dashboard-unknown-entity"@,
                    subject,
                    "widget names unknown entity \""@ + entity@ + "\""@,
                ),
            ],
            Some(e) => text::only_if(
                w.kind == WidgetKind::Burner && e.file.entity.capability@ != "burner"@,
                dashboard_failure(
                    "dashboard-widget-capability"@,
                    subject,
                    "a `burner` widget needs a burner; \""@ + entity@ + "\" is a "@
                        + e.file.entity.capability@,
                ),
            ),
        },
        None => Seq::empty(),
    }
}

/// Where the aspect that a widget names is no key segment.
pub open spec fn aspect_reference_errors(w: WidgetSpec, subject: Seq<char>) -> Seq<ErrorView> {
    match w.aspect {
        Some(aspect) => text::only_if(
            !is_segment(aspect@),
            dashboard_failure(
                "dashboard-invalid-aspect"@,
                subject,
                "aspect \""@ + aspect@ + "\" must be a single key segment"@,
            ),
        ),
        None => Seq::empty(),
    }
}

/// Where the room that a widget names is none of the house.
pub open spec fn room_reference_errors(h: House, w: WidgetSpec, subject: Seq<char>) -> Seq<
    ErrorView,
> {
    match w.room {
        Some(room) => text::only_if(
            !repo::rooms_of(h.entities@).contains(room@),
            dashboard_failure(
                "dashboard-unknown-room"@,
                subject,
                "widget names unknown room \""@ + room@ + "\""@,
            ),
        ),
        None => Seq::empty(),
    }
}

/// Where the unit that a widget names is none of the house.
pub open spec fn unit_reference_errors(h: House, w: WidgetSpec, subject: Seq<char>) -> Seq<
    ErrorView,
> {
    match w.unit {
        Some(unit) => text::only_if(
            repo::unit_named(h.units@, unit@) is None,
            dashboard_failure(
                "dashboard-unknown-unit"@,
                subject,
                "widget names unknown unit \""@ + unit@ + "\""@,
            ),
        ),
        None => Seq::empty(),
    }
}

/// Where a widget's references do not resolve against the house.
pub open spec fn reference_errors(h: House, w: WidgetSpec, subject: Seq<char>) -> Seq<ErrorView> {
    entity_reference_errors(h, w, subject) + aspect_reference_errors(w, subject)
        + room_reference_errors(h, w, subject) + unit_reference_errors(h, w, subject)
}

/// What is wrong with a widget: fields that do not fit its kind, else
/// references that do not resolve.
pub open spec fn widget_errors(h: House, w: WidgetSpec, subject: Seq<char>) -> Seq<ErrorView> {
    match fields_fault(w) {
        Some(message) => seq![dashboard_failure("dashboard-widget-fields"@, subject, message)],
        None => reference_errors(h, w, subject),
    }
}

fn check_references(
    house: &House,
    rooms: &Vec<String>,
    widget: &WidgetSpec,
    subject: &str,
    errors: &mut Vec<ValidationError>,
)
    requires
        text::views(rooms@) == repo::rooms_of(house.entities@),
    ensures
        text::views(final(errors)@) == text::views(old(errors)@) + reference_errors(
            *house,
            *widget,
            subject@,
        ),
{
    if let Some(entity) = &widget.entity {
        match house.entity(entity.as_str()) {
            None => {
                report_dashboard(
                    errors,
                    "dashboard-unknown-entity",
                    subject,
                    cat3("widget names unknown entity \"", entity.as_str(), "\""),
                );
            },
            Some(e) => {
                // A capability widget draws that capability's vocabulary, so
                // it is only meaningful over an entity that speaks it.
                let capability = e.file.entity.capability.as_str();
                if widget.kind == WidgetKind::Burner && !str_eq(capability, "burner") {
                    report_dashboard(
                        errors,
                        "dashboard-widget-capability",
                        subject,
                        cat4(
                            "a `burner` widget needs a burner; \"",
                            entity.as_str(),
                            "\" is a ",
                            capability,
                        ),
                    );
                }
            },
        }
    }
    if let Some(aspect) = &widget.aspect {
        if !valid_segment(aspect.as_str()) {
            report_dashboard(
                errors,
                "dashboard-invalid-aspect",
                subject,
                cat3("aspect \"", aspect.as_str(), "\" must be a single key segment"),
            );
        }
    }
    if let Some(room) = &widget.room {
        if !text::has(rooms, room.as_str()) {
            report_dashboard(
                errors,
                "dashboard-unknown-room",
                subject,
                cat3("widget names unknown room \"", room.as_str(), "\""),
            );
        }
    }
    if let Some(unit) = &widget.unit {
        if house.unit(unit.as_str()).is_none() {
            report_dashboard(
                errors,
                "dashboard-unknown-unit",
                subject,
                cat3("widget names unknown unit \"", unit.as_str(), "\""),
            );
        }
    }
}

/// One widget: the fields its kind takes, and references that resolve
/// against the house.
fn check_widget(
    house: &House,
    rooms: &Vec<String>,
    widget: &WidgetSpec,
    subject: &str,
    errors: &mut Vec<ValidationError>,
)
    requires
        text::views(rooms@) == repo::rooms_of(house.entities@),
    ensures
        text::views(final(errors)@) == text::views(old(errors)@) + widget_errors(
            *house,
            *widget,
            subject@,
        ),
{
    match widget_fields_message(widget) {
        Some(message) => {
            report_dashboard(errors, "dashboard-widget-fields", subject, message);
        },
        None => {
            check_references(house, rooms, widget, subject, errors);
        },
    }
}

/// `subject[i]`
pub open spec fn indexed(subject: Seq<char>, i: int) -> Seq<char> {
    subject + "["@ + text::decimal(i as nat) + "]"@
}

fn index_subject(subject: &str, i: usize) -> (r: String)
    ensures
        r@ == indexed(subject@, i as int),
{
    let n = text::decimal_of(i as u64);
    cat4(subject, "[", n.as_str(), "]")
}

/// What is wrong with the first `n` members of a group. One level only: a
/// group of groups is a layout language, which the file is deliberately not.
pub open spec fn group_errors(h: House, w: WidgetSpec, subject: Seq<char>, n: nat) -> Seq<
    ErrorView,
> {
    text::each(
        n,
        |j: int|
            if w.widgets@[j].kind == WidgetKind::Group {
                seq![
                    dashboard_failure(
                        "dashboard-nested-group"@,
                        indexed(subject, j),
                        "a group holds widgets, never another group"@,
                    ),
                ]
            } else {
                widget_errors(h, w.widgets@[j], indexed(subject, j))
            },
    )
}

/// What is wrong with the first `n` widgets of a view and their members.
pub open spec fn widgets_errors(h: House, v: ViewSpec, n: nat) -> Seq<ErrorView> {
    text::each(
        n,
        |i: int|
            widget_errors(h, v.widgets@[i], indexed(v.name@, i)) + group_errors(
                h,
                v.widgets@[i],
                indexed(v.name@, i),
                v.widgets@[i].widgets@.len(),
            ),
    )
}

/// Whether one of the first `n` views has the name.
pub open spec fn seen_before(views: Seq<ViewSpec>, n: int, name: Seq<char>) -> bool {
    exists|k: int| 0 <= k < n && k < views.len() && (#[trigger] views[k]).name@ == name
}

/// What is wrong with the view at a place.
pub open spec fn view_errors(h: House, views: Seq<ViewSpec>, i: int) -> Seq<ErrorView> {
    let v = views[i];
    text::only_if(
        v.name@ == "health"@ || v.name@ == "notshown"@,
        dashboard_failure(
            "dashboard-reserved-view"@,
            v.name@,
            "view name \""@ + v.name@ + "\" belongs to the dashboard's fixed chrome"@,
        ),
    ) + text::only_if(
        seen_before(views, i, v.name@),
        dashboard_failure(
            "dashboard-duplicate-view"@,
            v.name@,
            "view \""@ + v.name@ + "\" is declared more than once"@,
        ),
    ) + text::only_if(
        v.kind is Some <==> v.widgets@.len() > 0,
        dashboard_failure(
            "dashboard-view-shape"@,
            v.name@,
            "a view is a generated `kind` or a list of `widgets`, never both or neither"@,
        ),
    ) + widgets_errors(h, v, v.widgets@.len())
}

/// What is wrong with the first `n` views.
pub open spec fn views_errors(h: House, views: Seq<ViewSpec>, n: nat) -> Seq<ErrorView> {
    text::each(n, |i: int| view_errors(h, views, i))
}

/// Those of the first `n` entities that still carry a `[dashboard]` table.
pub open spec fn retired_errors(h: House, n: nat) -> Seq<ErrorView> {
    text::each(
        n,
        |i: int|
            text::only_if(
                h.entities@[i].file.dashboard is Some,
                error::failure(
                    "entity-dashboard-retired"@,
                    h.entities@[i].name@,
                    "[dashboard] on an entity is retired: place it with { kind = \"tile\", entity = \""@
                        + h.entities@[i].name@ + "\" } on a view in dashboard.toml"@,
                    Some(h.entities@[i].path@),
                ),
            ),
    )
}

/// Everything that is wrong with the dashboard.
pub open spec fn dashboard_errors(h: House) -> Seq<ErrorView> {
    retired_errors(h, h.entities@.len()) + views_errors(h, views_in(h), views_in(h).len())
}

fn check_group(
    house: &House,
    rooms: &Vec<String>,
    widget: &WidgetSpec,
    subject: &str,
    errors: &mut Vec<ValidationError>,
)
    requires
        text::views(rooms@) == repo::rooms_of(house.entities@),
    ensures
        text::views(final(errors)@) == text::views(old(errors)@) + group_errors(
            *house,
            *widget,
            subject@,
            widget.widgets@.len(),
        ),
{
    let ghost start = text::views(errors@);
    for j in 0..widget.widgets.len()
        invariant
            text::views(rooms@) == repo::rooms_of(house.entities@),
            text::views(errors@) == start + group_errors(*house, *widget, subject@, j as nat),
    {
        let member = &widget.widgets[j];
        let place = index_subject(subject, j);
        if member.kind == WidgetKind::Group {
            report_dashboard(
                errors,
                "dashboard-nested-group",
                place.as_str(),
                "a group holds widgets, never another group".to_owned(),
            );
        } else {
            check_widget(house, rooms, member, place.as_str(), errors);
        }
    }
}

fn declared_before(views: &Vec<ViewSpec>, n: usize, name: &str) -> (r: bool)
    requires
        n <= views@.len(),
    ensures
        r == seen_before(views@, n as int, name@),
{
    for k in 0..n
        invariant
            n <= views@.len(),
            forall|m: int| 0 <= m < k ==> (#[trigger] views@[m]).name@ != name@,
    {
        if str_eq(views[k].name.as_str(), name) {
            return true;
        }
    }
    false
}

fn check_view(
    house: &House,
    rooms: &Vec<String>,
    views: &Vec<ViewSpec>,
    i: usize,
    errors: &mut Vec<ValidationError>,
)
    requires
        i < views@.len(),
        text::views(rooms@) == repo::rooms_of(house.entities@),
    ensures
        text::views(final(errors)@) == text::views(old(errors)@) + view_errors(
            *house,
            views@,
            i as int,
        ),
{
    let view = &views[i];
    let name = view.name.as_str();
    if str_eq(name, "health") || str_eq(name, "notshown") {
        report_dashboard(
            errors,
            "dashboard-reserved-view",
            name,
            cat3("view name \"", name, "\" belongs to the dashboard's fixed chrome"),
        );
    }
    if declared_before(views, i, name) {
        report_dashboard(
            errors,
            "dashboard-duplicate-view",
            name,
            cat3("view \"", name, "\" is declared more than once"),
        );
    }
    if view.kind.is_some() == (view.widgets.len() > 0) {
        report_dashboard(
            errors,
            "dashboard-view-shape",
            name,
            "a view is a generated `kind` or a list of `widgets`, never both or neither".to_owned(),
        );
    }
    let ghost start = text::views(errors@);
    for k in 0..view.widgets.len()
        invariant
            name@ == view.name@,
            text::views(rooms@) == repo::rooms_of(house.entities@),
            text::views(errors@) == start + widgets_errors(*house, *view, k as nat),
    {
        let widget = &view.widgets[k];
        let subject = index_subject(name, k);
        check_widget(house, rooms, widget, subject.as_str(), errors);
        // A group's members are widgets like any other, and take the same
        // checks.
        check_group(house, rooms, widget, subject.as_str(), errors);
    }
}

/// `dashboard.toml`: each view is a generated one or a composition, never
/// both; each widget carries exactly the fields its kind takes, and every
/// reference resolves against the house. The `[dashboard]` table on an
/// entity file is retired in favour of a `tile` widget here.
fn check_dashboard(house: &House, errors: &mut Vec<ValidationError>)
    ensures
        text::views(final(errors)@) == text::views(old(errors)@) + dashboard_errors(*house),
{
    let ghost start = text::views(errors@);
    for i in 0..house.entities.len()
        invariant
            text::views(errors@) == start + retired_errors(*house, i as nat),
    {
        let e = &house.entities[i];
        if e.file.dashboard.is_some() {
            report(
                errors,
                "entity-dashboard-retired",
                e.name.as_str(),
                cat3(
                    "[dashboard] on an entity is retired: place it with { kind = \"tile\", entity = \"",
                    e.name.as_str(),
                    "\" } on a view in dashboard.toml",
                ),
                Some(e.path.clone()),
            );
        }
    }
    let ghost after = text::views(errors@);
    if let Some(dashboard) = &house.dashboard {
        let rooms = house.rooms();
        for i in 0..dashboard.view.len()
            invariant
                text::views(rooms@) == repo::rooms_of(house.entities@),
                text::views(errors@) == after + views_errors(*house, dashboard.view@, i as nat),
        {
            check_view(house, &rooms, &dashboard.view, i, errors);
        }
    }
}

/// Everything that structural validation finds wrong with a house.
pub open spec fn house_errors(h: House) -> Seq<ErrorView> {
    names_errors(h) + duplicates_errors(h) + shapes_errors(h, h.units@.len()) + entities_errors(
        h,
        h.entities@.len(),
    ) + zones_errors(h, h.zones@.len()) + params_errors(h, h.units@.len()) + dashboard_errors(h)
}

/// Structural validation that does not involve key expansion or grants:
/// uniqueness, capabilities, reserved rooms, ownership, zones, params.
pub fn validate(house: &House) -> (r: Vec<ValidationError>)
    ensures
        text::views(r@) == house_errors(*house),
{
    let mut errors: Vec<ValidationError> = Vec::new();
    check_names(house, &mut errors);
    check_duplicates(house, &mut errors);
    check_manifest_shape(house, &mut errors);
    check_entities(house, &mut errors);
    check_zones(house, &mut errors);
    check_params(house, &mut errors);
    check_dashboard(house, &mut errors);
    errors
}

} // verus!

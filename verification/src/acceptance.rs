//! What a house must be to be accepted: each section of the checks says
//! nothing exactly where what it looks at is in order.

use crate::bounds;
use crate::config;
use crate::floats;
use crate::keyspace;
use crate::keyspace::PSEUDO_ROOMS;
use crate::manifest;
use crate::manifest::DiscoveryMode;
use crate::manifest::ParamSpec;
use crate::manifest::ParamType;
use crate::manifest::UnitKind;
use crate::manifest::WriteMode;
use crate::manifest::CAPABILITIES;
use crate::names;
use crate::order;
use crate::policies::is_first_unit;
use crate::policies::law_units_are_found_by_name;
use crate::reach;
use crate::reach::write_mode;
use crate::repo;
use crate::repo::House;
use crate::repo::LoadedEntity;
use crate::repo::LoadedUnit;
use crate::text;
use crate::tomlvalue::TomlData;
use crate::tomlvalue::TomlValue;
use crate::validate;
use vstd::prelude::*;

verus! {

/// The name can stand in a key as one segment: it is not empty and has
/// nothing but letters, digits, underscores, hyphens and dots.
pub open spec fn plain_name(name: Seq<char>) -> bool {
    &&& name.len() > 0
    &&& forall|i: int|
        0 <= i < name.len() ==> {
            let c = #[trigger] name[i];
            ||| 'a' <= c <= 'z'
            ||| 'A' <= c <= 'Z'
            ||| '0' <= c <= '9'
            ||| c == '_'
            ||| c == '-'
            ||| c == '.'
        }
}

/// The unit's name and those of its parameters are plain, and the unit does
/// not go by the name of the core.
pub open spec fn unit_names_plain(u: LoadedUnit) -> bool {
    &&& plain_name(u.manifest.unit.name@)
    &&& u.manifest.unit.name@ != "system"@
    &&& u.manifest.params matches Some(params) ==> forall|j: int|
        0 <= j < params@.len() ==> plain_name((#[trigger] params@[j]).0@)
}

/// Nothing is said about names exactly where those of units, parameters,
/// entities, rooms, zones and views are plain and no unit is called
/// `system`.
pub proof fn law_names_are_plain(h: House)
    ensures
        validate::names_errors(h).len() == 0 <==> {
            &&& forall|i: int| 0 <= i < h.units@.len() ==> unit_names_plain(#[trigger] h.units@[i])
            &&& forall|i: int|
                0 <= i < h.entities@.len() ==> plain_name((#[trigger] h.entities@[i]).name@)
                    && plain_name(h.entities@[i].file.entity.room@)
            &&& forall|i: int| 0 <= i < h.zones@.len() ==> plain_name((#[trigger] h.zones@[i]).0@)
            &&& forall|i: int|
                0 <= i < validate::views_in(h).len() ==> plain_name(
                    (#[trigger] validate::views_in(h)[i]).name@,
                )
        },
{
    let views = validate::views_in(h);
    let fu = |i: int| validate::unit_name_errors(h.units@[i]);
    let fe = |i: int| validate::entity_name_errors(h.entities@[i]);
    let fz = |i: int|
        validate::name_errors(h.zones@[i].0@, "zone name"@, h.zones@[i].0@, "zones.toml"@);
    let fv = |i: int|
        validate::name_errors(views[i].name@, "view name"@, views[i].name@, "dashboard.toml"@);
    text::lemma_each_empty(h.units@.len(), fu);
    text::lemma_each_empty(h.entities@.len(), fe);
    text::lemma_each_empty(h.zones@.len(), fz);
    text::lemma_each_empty(views.len(), fv);
    assert forall|i: int| 0 <= i < h.units@.len() implies ((#[trigger] fu(i)).len() == 0
        <==> unit_names_plain(h.units@[i])) by {
        let u = h.units@[i];
        lemma_plain(u.manifest.unit.name@);
        if u.manifest.params is Some {
            let params = u.manifest.params->Some_0@;
            let unit = u.manifest.unit.name@;
            let g = |j: int|
                validate::name_errors(
                    unit + "."@ + params[j].0@,
                    "parameter name"@,
                    params[j].0@,
                    u.path@,
                );
            text::lemma_each_empty(params.len(), g);
            assert forall|j: int| 0 <= j < params.len() implies ((#[trigger] g(j)).len() == 0
                <==> plain_name(params[j].0@)) by {
                lemma_plain(params[j].0@);
            }
            if validate::param_name_errors(u, params.len()).len() == 0 {
                assert forall|j: int| 0 <= j < params.len() implies plain_name(
                    (#[trigger] params[j]).0@,
                ) by {
                    assert(g(j).len() == 0);
                }
            }
        }
    }
    assert forall|i: int| 0 <= i < h.entities@.len() implies ((#[trigger] fe(i)).len() == 0 <==> (
    plain_name(h.entities@[i].name@) && plain_name(h.entities@[i].file.entity.room@))) by {
        lemma_plain(h.entities@[i].name@);
        lemma_plain(h.entities@[i].file.entity.room@);
    }
    assert forall|i: int| 0 <= i < h.zones@.len() implies ((#[trigger] fz(i)).len() == 0
        <==> plain_name(h.zones@[i].0@)) by {
        lemma_plain(h.zones@[i].0@);
    }
    assert forall|i: int| 0 <= i < views.len() implies ((#[trigger] fv(i)).len() == 0
        <==> plain_name(views[i].name@)) by {
        lemma_plain(views[i].name@);
    }
    if validate::names_errors(h).len() == 0 {
        assert forall|i: int| 0 <= i < h.units@.len() implies unit_names_plain(
            #[trigger] h.units@[i],
        ) by {
            assert(fu(i).len() == 0);
        }
        assert forall|i: int| 0 <= i < h.entities@.len() implies plain_name(
            (#[trigger] h.entities@[i]).name@,
        ) && plain_name(h.entities@[i].file.entity.room@) by {
            assert(fe(i).len() == 0);
        }
        assert forall|i: int| 0 <= i < h.zones@.len() implies plain_name(
            (#[trigger] h.zones@[i]).0@,
        ) by {
            assert(fz(i).len() == 0);
        }
        assert forall|i: int| 0 <= i < views.len() implies plain_name((#[trigger] views[i]).name@) by {
            assert(fv(i).len() == 0);
        }
    }
}

pub proof fn lemma_plain(name: Seq<char>)
    ensures
        validate::is_segment(name) <==> plain_name(name),
{
    if validate::is_segment(name) {
        assert forall|i: int| 0 <= i < name.len() implies {
            let c = #[trigger] name[i];
            ||| 'a' <= c <= 'z'
            ||| 'A' <= c <= 'Z'
            ||| '0' <= c <= '9'
            ||| c == '_'
            ||| c == '-'
            ||| c == '.'
        } by {
            assert(validate::segment_char(name[i]));
        }
    }
}

/// The sections of a manifest fit its kind. An adapter has entities and a
/// discovery; entities may else be had by automations, a discovery by
/// services. A static discovery has an endpoint, one over mDNS a service.
pub open spec fn sections_fit(u: LoadedUnit) -> bool {
    let m = u.manifest;
    &&& m.unit.kind == UnitKind::Adapter ==> m.entities is Some && m.discovery is Some
    &&& m.unit.kind == UnitKind::Automation ==> m.discovery is None
    &&& m.unit.kind == UnitKind::Service ==> m.entities is None
    &&& m.discovery matches Some(d) ==> {
        &&& d.mode == DiscoveryMode::Static ==> d.endpoint is Some
        &&& d.mode == DiscoveryMode::Mdns ==> d.service is Some
    }
}

/// Nothing is said about the sections of manifests exactly where they fit.
pub proof fn law_sections_fit_the_kind(h: House)
    ensures
        validate::shapes_errors(h, h.units@.len()).len() == 0 <==> forall|i: int|
            0 <= i < h.units@.len() ==> sections_fit(#[trigger] h.units@[i]),
{
    let f = |i: int| validate::shape_errors(h.units@[i]);
    text::lemma_each_empty(h.units@.len(), f);
    assert forall|i: int| 0 <= i < h.units@.len() implies ((#[trigger] f(i)).len() == 0
        <==> sections_fit(h.units@[i])) by {
        lemma_sections(h.units@[i]);
    }
    if validate::shapes_errors(h, h.units@.len()).len() == 0 {
        assert forall|i: int| 0 <= i < h.units@.len() implies sections_fit(
            #[trigger] h.units@[i],
        ) by {
            assert(f(i).len() == 0);
        }
    }
}

proof fn lemma_sections(u: LoadedUnit)
    ensures
        validate::shape_errors(u).len() == 0 <==> sections_fit(u),
{
    let m = u.manifest;
    match m.unit.kind {
        UnitKind::Adapter => {},
        UnitKind::Automation => {},
        UnitKind::Service => {},
    }
}

/// A word that the key space keeps to itself: `home` and its classes.
pub open spec fn is_key_word(word: Seq<char>) -> bool {
    word == "home"@ || reach::is_class(word)
}

/// A room for what has no place.
pub open spec fn is_pseudo_room(word: Seq<char>) -> bool {
    word == "global"@ || word == "person"@
}

proof fn lemma_pseudo(word: Seq<char>)
    ensures
        text::listed(PSEUDO_ROOMS@, word) <==> is_pseudo_room(word),
        keyspace::reserved(word) <==> is_key_word(word) || is_pseudo_room(word),
{
    let all = PSEUDO_ROOMS@;
    assert(all.len() == 2);
    assert(all[0]@ == "global"@ && all[1]@ == "person"@);
    if text::listed(all, word) {
        let i = choose|i: int| 0 <= i < all.len() && (#[trigger] all[i])@ == word;
        assert(i == 0 || i == 1);
    }
    reach::lemma_classes(word);
}

proof fn lemma_words()
    ensures
        "home"@ != "global"@,
        "home"@ != "person"@,
        !reach::is_class("global"@),
        !reach::is_class("person"@),
{
    reveal_strlit("home");
    reveal_strlit("global");
    reveal_strlit("person");
    reveal_strlit("state");
    reveal_strlit("cmd");
    reveal_strlit("arbiter");
    reveal_strlit("forecast");
    reveal_strlit("config");
    reveal_strlit("meta");
    reveal_strlit("health");
    reveal_strlit("clock");
    reveal_strlit("history");
    reveal_strlit("discovery");
    assert("home"@.len() == 4 && "global"@.len() == 6 && "person"@.len() == 6 && "state"@.len() == 5
        && "cmd"@.len() == 3 && "arbiter"@.len() == 7 && "forecast"@.len() == 8 && "config"@.len()
        == 6 && "meta"@.len() == 4 && "health"@.len() == 6 && "clock"@.len() == 5
        && "history"@.len() == 7 && "discovery"@.len() == 9);
    assert("global"@[0] == 'g' && "person"@[0] == 'p' && "config"@[0] == 'c' && "health"@[0]
        == 'h');
}

/// The entity's file is in order. Its capability is known; it declares a
/// write mode where the capability takes commands; its room is no word of
/// the key space; it has an address where an adapter owns it; and the unit
/// that it names as its owner, an adapter or an automation, is the one that
/// binds it. What an automation owns is not arbitrated.
pub open spec fn entity_in_order(h: House, e: LoadedEntity) -> bool {
    let policy = e.file.write_policy;
    &&& text::listed(CAPABILITIES@, e.file.entity.capability@)
    &&& manifest::takes_commands(e.file.entity.capability@) ==> policy.mode is Some
    &&& !is_key_word(e.file.entity.room@)
    &&& policy.owner@ == e.owner@
    &&& exists|u: int| #[trigger]
        is_first_unit(h.units@, u, policy.owner@) && owner_fits(h.units@[u], e)
}

/// The unit may own the entity as it is.
pub open spec fn owner_fits(u: LoadedUnit, e: LoadedEntity) -> bool {
    match u.manifest.unit.kind {
        UnitKind::Adapter => e.file.entity.id is Some,
        UnitKind::Automation => write_mode(e) != WriteMode::Arbitrated,
        UnitKind::Service => false,
    }
}

proof fn lemma_entity(h: House, e: LoadedEntity)
    ensures
        validate::entity_errors(h, e).len() == 0 <==> entity_in_order(h, e),
{
    let owner = e.file.write_policy.owner@;
    lemma_pseudo(e.file.entity.room@);
    lemma_words();
    law_units_are_found_by_name(h.units@, owner);
    match repo::unit_named(h.units@, owner) {
        Some(unit) => {
            let u = choose|u: int|
                #[trigger] is_first_unit(h.units@, u, owner) && h.units@[u] == unit;
            assert(is_first_unit(h.units@, u, owner));
            assert forall|v: int| #[trigger] is_first_unit(h.units@, v, owner) implies v == u by {
                if v < u {
                    assert(h.units@[v].manifest.unit.name@ != owner);
                } else if u < v {
                    assert(h.units@[u].manifest.unit.name@ != owner);
                }
            }
            match unit.manifest.unit.kind {
                UnitKind::Adapter => {},
                UnitKind::Automation => {},
                UnitKind::Service => {},
            }
        },
        None => {
            assert forall|v: int| !(#[trigger] is_first_unit(h.units@, v, owner)) by {
                if is_first_unit(h.units@, v, owner) {
                    assert(h.units@[v].manifest.unit.name@ != owner);
                }
            }
        },
    }
}

/// Nothing is said about entity files exactly where each is in order.
pub proof fn law_entities_are_in_order(h: House)
    ensures
        validate::entities_errors(h, h.entities@.len()).len() == 0 <==> forall|i: int|
            0 <= i < h.entities@.len() ==> entity_in_order(h, #[trigger] h.entities@[i]),
{
    let f = |i: int| validate::entity_errors(h, h.entities@[i]);
    text::lemma_each_empty(h.entities@.len(), f);
    assert forall|i: int| 0 <= i < h.entities@.len() implies ((#[trigger] f(i)).len() == 0
        <==> entity_in_order(h, h.entities@[i])) by {
        lemma_entity(h, h.entities@[i]);
    }
    if validate::entities_errors(h, h.entities@.len()).len() == 0 {
        assert forall|i: int| 0 <= i < h.entities@.len() implies entity_in_order(
            h,
            #[trigger] h.entities@[i],
        ) by {
            assert(f(i).len() == 0);
        }
    }
}

/// Some entity of the house is in the room.
pub open spec fn is_room(h: House, room: Seq<char>) -> bool {
    exists|i: int|
        0 <= i < h.entities@.len() && (#[trigger] h.entities@[i]).file.entity.room@ == room
}

pub proof fn lemma_rooms(h: House, room: Seq<char>)
    ensures
        repo::rooms_of(h.entities@).contains(room) <==> is_room(h, room),
{
    let entities = h.entities@;
    let named = Seq::new(entities.len(), |i: int| entities[i].file.entity.room@);
    order::lemma_distinct(named);
    if named.contains(room) {
        let i = named.index_of(room);
        assert(h.entities@[i].file.entity.room@ == room);
    }
    if is_room(h, room) {
        let i = choose|i: int|
            0 <= i < h.entities@.len() && (#[trigger] h.entities@[i]).file.entity.room@ == room;
        assert(named[i] == room);
    }
}

/// The zone's name is no word of the key space, no pseudo-room and no room,
/// and its members are rooms that have entities.
pub open spec fn zone_in_order(h: House, zone: Seq<char>, members: Seq<String>) -> bool {
    &&& !is_key_word(zone)
    &&& !is_pseudo_room(zone)
    &&& !is_room(h, zone)
    &&& forall|j: int|
        0 <= j < members.len() ==> !is_pseudo_room((#[trigger] members[j])@) && is_room(
            h,
            members[j]@,
        )
}

/// Nothing is said about zones exactly where each is in order.
pub proof fn law_zones_are_in_order(h: House)
    ensures
        validate::zones_errors(h, h.zones@.len()).len() == 0 <==> forall|i: int|
            0 <= i < h.zones@.len() ==> zone_in_order(
                h,
                (#[trigger] h.zones@[i]).0@,
                h.zones@[i].1@,
            ),
{
    let f = |i: int|
        validate::zone_errors(repo::rooms_of(h.entities@), h.zones@[i].0@, h.zones@[i].1@);
    text::lemma_each_empty(h.zones@.len(), f);
    assert forall|i: int| 0 <= i < h.zones@.len() implies ((#[trigger] f(i)).len() == 0
        <==> zone_in_order(h, h.zones@[i].0@, h.zones@[i].1@)) by {
        lemma_zone(h, h.zones@[i].0@, h.zones@[i].1@);
    }
    if validate::zones_errors(h, h.zones@.len()).len() == 0 {
        assert forall|i: int| 0 <= i < h.zones@.len() implies zone_in_order(
            h,
            (#[trigger] h.zones@[i]).0@,
            h.zones@[i].1@,
        ) by {
            assert(f(i).len() == 0);
        }
    }
}

proof fn lemma_zone(h: House, zone: Seq<char>, members: Seq<String>)
    ensures
        validate::zone_errors(repo::rooms_of(h.entities@), zone, members).len() == 0
            <==> zone_in_order(h, zone, members),
{
    let rooms = repo::rooms_of(h.entities@);
    lemma_pseudo(zone);
    lemma_rooms(h, zone);
    let g = |j: int| validate::member_errors(rooms, zone, members[j]@);
    text::lemma_each_empty(members.len(), g);
    assert forall|j: int| 0 <= j < members.len() implies ((#[trigger] g(j)).len() == 0 <==> (
    !is_pseudo_room(members[j]@) && is_room(h, members[j]@))) by {
        lemma_pseudo(members[j]@);
        lemma_rooms(h, members[j]@);
    }
    if validate::members_errors(rooms, zone, members, members.len()).len() == 0 {
        assert forall|j: int| 0 <= j < members.len() implies !is_pseudo_room(
            (#[trigger] members[j])@,
        ) && is_room(h, members[j]@) by {
            assert(g(j).len() == 0);
        }
    }
}

/// The default is a value of the parameter's type. An integer is a value of
/// type float too.
pub open spec fn default_has_type(spec: ParamSpec) -> bool {
    match spec.param_type {
        ParamType::Bool => spec.default.data is Boolean,
        ParamType::Int => spec.default.data is Integer,
        ParamType::Float => spec.default.data is Integer || spec.default.data is Float,
        ParamType::String => spec.default.data is Str,
        ParamType::Time => spec.default.data is Str && bounds::minutes_in(
            spec.default.data->Str_0@,
        ) is Some,
    }
}

/// The entry of a constraint is one that the type has, with a value of its
/// sort.
pub open spec fn bound_in_order(t: ParamType, key: Seq<char>, value: TomlValue) -> bool {
    ||| (key == "min"@ || key == "max"@) && (t == ParamType::Int || t == ParamType::Float) && (
    value.data is Integer || value.data is Float)
    ||| (key == "after"@ || key == "before"@) && t == ParamType::Time && value.data is Str
        && bounds::minutes_in(value.data->Str_0@) is Some
    ||| key == "enum"@ && t == ParamType::String && value.data is Array
        && value.data->Array_0@.len() > 0 && forall|i: int|
        0 <= i < value.data->Array_0@.len() ==> (#[trigger] value.data->Array_0@[i]).data is Str
}

proof fn lemma_bound_words()
    ensures
        "min"@ != "max"@,
        "min"@ != "after"@,
        "min"@ != "before"@,
        "min"@ != "enum"@,
        "max"@ != "after"@,
        "max"@ != "before"@,
        "max"@ != "enum"@,
        "after"@ != "before"@,
        "after"@ != "enum"@,
        "before"@ != "enum"@,
{
    reveal_strlit("min");
    reveal_strlit("max");
    reveal_strlit("after");
    reveal_strlit("before");
    reveal_strlit("enum");
    assert("min"@.len() == 3 && "max"@.len() == 3 && "after"@.len() == 5 && "before"@.len() == 6
        && "enum"@.len() == 4);
    assert("min"@[1] == 'i' && "max"@[1] == 'a');
}

proof fn lemma_bound(t: ParamType, key: Seq<char>, value: TomlValue)
    ensures
        validate::constraint_fault(t, key, value) is None <==> bound_in_order(t, key, value),
{
    lemma_bound_words();
    if let TomlData::Str(s) = value.data {
        bounds::lemma_minutes(s@);
    }
}

/// The default keeps to every bound of the constraint.
pub open spec fn default_keeps(spec: ParamSpec) -> bool {
    match spec.default.data {
        TomlData::Integer(i) => bounds::in_range(
            spec,
            floats::float_bits(floats::float_of_int(i as int)),
        ),
        TomlData::Float(f) => floats::finite(floats::float_bits(f.text@)) && bounds::in_range(
            spec,
            floats::float_bits(f.text@),
        ),
        TomlData::Str(s) => if spec.param_type == ParamType::Time {
            bounds::in_hours(spec, bounds::minutes_in(s@)->Some_0)
        } else {
            bounds::is_listed(spec, s@)
        },
        _ => true,
    }
}

/// `min` and `max`, where both are numbers, are in order.
pub open spec fn range_in_order(spec: ParamSpec) -> bool {
    match (bounds::bound(spec, "min"@), bounds::bound(spec, "max"@)) {
        (Some(min), Some(max)) => (min is Integer || min is Float) && (max is Integer || max
            is Float) ==> !floats::float_lt(bounds::number_bits(max), bounds::number_bits(min)),
        _ => true,
    }
}

/// The parameter's default has its type, the bounds of its constraint are in
/// order, and the default keeps to them.
pub open spec fn param_in_order(spec: ParamSpec) -> bool {
    &&& default_has_type(spec)
    &&& spec.constraint matches Some(table) ==> {
        &&& forall|i: int|
            0 <= i < table@.len() ==> bound_in_order(
                spec.param_type,
                (#[trigger] table@[i]).0@,
                table@[i].1,
            )
        &&& range_in_order(spec)
        &&& default_keeps(spec)
    }
}

proof fn lemma_default_type(spec: ParamSpec)
    ensures
        validate::default_fits(spec) <==> default_has_type(spec),
{
    if let TomlData::Str(s) = spec.default.data {
        bounds::lemma_minutes(s@);
    }
}

proof fn lemma_default_keeps(spec: ParamSpec)
    requires
        default_has_type(spec),
    ensures
        config::default_fault(spec) is None <==> default_keeps(spec),
{
    match spec.default.data {
        TomlData::Integer(i) => {
            bounds::lemma_range(spec, floats::float_of_int(i as int));
        },
        TomlData::Float(f) => {
            bounds::lemma_range(spec, f.text@);
        },
        TomlData::Str(s) => {
            bounds::lemma_minutes(s@);
            if spec.param_type == ParamType::Time {
                bounds::lemma_hours(spec, s@);
            } else {
                bounds::lemma_listed(spec, s@);
            }
        },
        _ => {},
    }
}

proof fn lemma_param(subject: Seq<char>, spec: ParamSpec, path: Seq<char>)
    ensures
        validate::param_errors(subject, spec, path).len() == 0 <==> param_in_order(spec),
{
    lemma_default_type(spec);
    if default_has_type(spec) {
        lemma_default_keeps(spec);
    }
    if spec.constraint is Some {
        let table = spec.constraint->Some_0@;
        let t = spec.param_type;
        let f = |i: int|
            validate::constraint_errors(subject, path, t, table[i].0@, table[i].1);
        text::lemma_each_empty(table.len(), f);
        assert forall|i: int| 0 <= i < table.len() implies ((#[trigger] f(i)).len() == 0
            <==> bound_in_order(t, table[i].0@, table[i].1)) by {
            lemma_bound(t, table[i].0@, table[i].1);
        }
        if validate::constraints_errors(subject, path, t, table, table.len()).len() == 0 {
            assert forall|i: int| 0 <= i < table.len() implies bound_in_order(
                t,
                (#[trigger] table[i]).0@,
                table[i].1,
            ) by {
                assert(f(i).len() == 0);
            }
        }
        assert(validate::range_errors(subject, path, table).len() == 0 <==> range_in_order(spec));
    }
}

/// Nothing is said about parameters exactly where each is in order.
pub proof fn law_parameters_are_in_order(h: House)
    ensures
        validate::params_errors(h, h.units@.len()).len() == 0 <==> forall|i: int, j: int|
            #![trigger h.units@[i].manifest.params->Some_0@[j]]
            0 <= i < h.units@.len() && h.units@[i].manifest.params is Some && 0 <= j
                < h.units@[i].manifest.params->Some_0@.len() ==> param_in_order(
                h.units@[i].manifest.params->Some_0@[j].1,
            ),
{
    let f = |i: int|
        match h.units@[i].manifest.params {
            Some(params) => validate::unit_params_errors(h.units@[i], params@.len()),
            None => Seq::empty(),
        };
    text::lemma_each_empty(h.units@.len(), f);
    assert forall|i: int| 0 <= i < h.units@.len() implies ((#[trigger] f(i)).len() == 0 <==> (
    h.units@[i].manifest.params is Some ==> forall|j: int|
        0 <= j < h.units@[i].manifest.params->Some_0@.len() ==> param_in_order(
            (#[trigger] h.units@[i].manifest.params->Some_0@[j]).1,
        ))) by {
        let u = h.units@[i];
        if u.manifest.params is Some {
            let params = u.manifest.params->Some_0@;
            let g = |j: int|
                validate::param_errors(
                    u.manifest.unit.name@ + "."@ + params[j].0@,
                    params[j].1,
                    u.path@,
                );
            text::lemma_each_empty(params.len(), g);
            assert forall|j: int| 0 <= j < params.len() implies ((#[trigger] g(j)).len() == 0
                <==> param_in_order(params[j].1)) by {
                lemma_param(
                    u.manifest.unit.name@ + "."@ + params[j].0@,
                    params[j].1,
                    u.path@,
                );
            }
            if f(i).len() == 0 {
                assert forall|j: int|
                    0 <= j < h.units@[i].manifest.params->Some_0@.len() implies param_in_order(
                    (#[trigger] h.units@[i].manifest.params->Some_0@[j]).1,
                ) by {
                    assert(g(j).len() == 0);
                }
            }
        }
    }
    if validate::params_errors(h, h.units@.len()).len() == 0 {
        assert forall|i: int, j: int|
            #![trigger h.units@[i].manifest.params->Some_0@[j]]
            0 <= i < h.units@.len() && h.units@[i].manifest.params is Some && 0 <= j
                < h.units@[i].manifest.params->Some_0@.len() implies param_in_order(
            h.units@[i].manifest.params->Some_0@[j].1,
        ) by {
            assert(f(i).len() == 0);
        }
    }
}

} // verus!

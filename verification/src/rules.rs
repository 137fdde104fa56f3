//! What breaks a rule is reported, under the code of the rule: each of the
//! registered codes has its rule here.

use crate::error::ErrorView;
use crate::expand;
use crate::expand::Direction;
use crate::expand::ExpandedView;
use crate::grants;
use crate::grants::GrantView;
use crate::graph;
use crate::keyspace;
use crate::keyspace::SegmentView;
use crate::keyspace::PSEUDO_ROOMS;
use crate::manifest;
use crate::manifest::CAPABILITIES;
use crate::manifest::SUPPORTED_SCHEMA;
use crate::manifest::ParamSpec;
use crate::manifest::UnitKind;
use crate::manifest::ViewSpec;
use crate::manifest::WidgetKind;
use crate::manifest::WidgetSpec;
use crate::manifest::WriteMode;
use crate::order;
use crate::repo;
use crate::repo::House;
use crate::repo::HouseFiles;
use crate::repo::LoadedEntity;
use crate::repo::LoadedUnit;
use crate::text;
use crate::validate;
use vstd::prelude::*;

verus! {

/// Some failure has the code.
pub open spec fn reported(errors: Seq<ErrorView>, code: Seq<char>) -> bool {
    exists|i: int| 0 <= i < errors.len() && (#[trigger] errors[i]).code == code
}

broadcast proof fn lemma_reported_in_sum(a: Seq<ErrorView>, b: Seq<ErrorView>, code: Seq<char>)
    ensures
        #[trigger] reported(a + b, code) == (reported(a, code) || reported(b, code)),
{
    let c = a + b;
    if reported(a, code) {
        let i = choose|i: int| 0 <= i < a.len() && (#[trigger] a[i]).code == code;
        assert(c[i].code == code);
    }
    if reported(b, code) {
        let i = choose|i: int| 0 <= i < b.len() && (#[trigger] b[i]).code == code;
        assert(c[a.len() + i].code == code);
    }
    if reported(c, code) {
        let i = choose|i: int| 0 <= i < c.len() && (#[trigger] c[i]).code == code;
        if i < a.len() {
            assert(a[i].code == code);
        } else {
            assert(b[i - a.len()].code == code);
        }
    }
}

broadcast proof fn lemma_reported_alone(e: ErrorView, code: Seq<char>)
    ensures
        #[trigger] reported(seq![e], code) == (e.code == code),
{
    assert(seq![e][0] == e);
}

broadcast proof fn lemma_reported_if(b: bool, e: ErrorView, code: Seq<char>)
    ensures
        #[trigger] reported(text::only_if(b, e), code) == (b && e.code == code),
{
    assert(b ==> text::only_if(b, e)[0] == e);
}

broadcast group group_reported {
    lemma_reported_in_sum,
    lemma_reported_alone,
    lemma_reported_if,
}

proof fn lemma_reported_in_each(
    n: nat,
    f: spec_fn(int) -> Seq<ErrorView>,
    i: int,
    code: Seq<char>,
)
    requires
        0 <= i < n,
        reported(f(i), code),
    ensures
        reported(text::each(n, f), code),
{
    let part = f(i);
    let k = choose|k: int| 0 <= k < part.len() && (#[trigger] part[k]).code == code;
    assert(part.contains(part[k]));
    text::lemma_each_has(n, f, i, part[k]);
    let whole = text::each(n, f);
    let m = whole.index_of(part[k]);
    assert(whole[m].code == code);
}

/// What is wrong with the sections of a unit is part of what is reported.
proof fn lemma_unit_parts(h: House, i: int, code: Seq<char>)
    requires
        0 <= i < h.units@.len(),
        reported(validate::unit_name_errors(h.units@[i]), code) || reported(
            validate::shape_errors(h.units@[i]),
            code,
        ) || reported(expand::unit_errors(h.units@[i]), code),
    ensures
        reported(crate::check_errors(h), code),
{
    broadcast use group_reported;

    let n = h.units@.len();
    let a = |i: int| validate::unit_name_errors(h.units@[i]);
    let b = |i: int| validate::shape_errors(h.units@[i]);
    let c = |i: int| expand::unit_errors(h.units@[i]);
    if reported(a(i), code) {
        lemma_reported_in_each(n, a, i, code);
        assert(reported(validate::unit_names_errors(h, n), code));
        assert(reported(validate::names_errors(h), code));
    } else if reported(b(i), code) {
        lemma_reported_in_each(n, b, i, code);
        assert(reported(validate::shapes_errors(h, n), code));
    } else {
        lemma_reported_in_each(n, c, i, code);
        assert(reported(expand::house_key_errors(h, n), code));
    }
    if !reported(expand::house_key_errors(h, n), code) {
        assert(reported(validate::house_errors(h), code));
    }
}

proof fn lemma_unit_rules(u: LoadedUnit)
    ensures
        !validate::is_segment(u.manifest.unit.name@) ==> reported(
            validate::unit_name_errors(u),
            "invalid-name"@,
        ),
        u.manifest.unit.name@ == "system"@ ==> reported(
            validate::unit_name_errors(u),
            "reserved-unit-name"@,
        ),
        u.manifest.unit.kind == UnitKind::Adapter && (u.manifest.entities is None
            || u.manifest.discovery is None) ==> reported(
            validate::shape_errors(u),
            "invalid-manifest"@,
        ),
{
    broadcast use group_reported;

    reveal_strlit("system");
    assert(validate::is_segment("system"@));
}

/// A unit whose name or manifest breaks a rule is reported.
pub proof fn law_a_broken_unit_is_reported(h: House, i: int)
    requires
        0 <= i < h.units@.len(),
    ensures
        ({
            let m = h.units@[i].manifest;
            let errors = crate::check_errors(h);
            &&& !validate::is_segment(m.unit.name@) ==> reported(errors, "invalid-name"@)
            &&& m.unit.name@ == "system"@ ==> reported(errors, "reserved-unit-name"@)
            &&& m.unit.kind == UnitKind::Adapter && (m.entities is None || m.discovery is None)
                ==> reported(errors, "invalid-manifest"@)
        }),
{
    let u = h.units@[i];
    let m = u.manifest;
    lemma_unit_rules(u);
    if !validate::is_segment(m.unit.name@) {
        lemma_unit_parts(h, i, "invalid-name"@);
    }
    if m.unit.name@ == "system"@ {
        lemma_unit_parts(h, i, "reserved-unit-name"@);
    }
    if m.unit.kind == UnitKind::Adapter && (m.entities is None || m.discovery is None) {
        lemma_unit_parts(h, i, "invalid-manifest"@);
    }
}

proof fn lemma_two_parts<T>(n: nat, f: spec_fn(int) -> Seq<T>, i: int, j: int)
    requires
        0 <= i < j < n,
        f(i).len() > 0,
        f(j).len() > 0,
    ensures
        text::each(n, f).len() > 1,
    decreases n,
{
    let m = (n - 1) as nat;
    if j < m {
        lemma_two_parts(m, f, i, j);
    } else {
        text::lemma_each_empty(m, f);
    }
}

proof fn lemma_unit_path(units: Seq<LoadedUnit>, name: Seq<char>, i: int, n: nat)
    requires
        0 <= i < n <= units.len(),
        units[i].manifest.unit.name@ == name,
    ensures
        validate::unit_paths(units, name, n).len() > 0,
    decreases n,
{
    if i < n - 1 {
        lemma_unit_path(units, name, i, (n - 1) as nat);
    }
}

proof fn lemma_unit_paths(units: Seq<LoadedUnit>, name: Seq<char>, i: int, j: int, n: nat)
    requires
        0 <= i < j < n <= units.len(),
        units[i].manifest.unit.name@ == name,
        units[j].manifest.unit.name@ == name,
    ensures
        validate::unit_paths(units, name, n).len() > 1,
    decreases n,
{
    if j < n - 1 {
        lemma_unit_paths(units, name, i, j, (n - 1) as nat);
    } else {
        lemma_unit_path(units, name, i, (n - 1) as nat);
    }
}

proof fn lemma_entity_path(entities: Seq<LoadedEntity>, name: Seq<char>, i: int, n: nat)
    requires
        0 <= i < n <= entities.len(),
        entities[i].name@ == name,
    ensures
        validate::entity_paths(entities, name, n).len() > 0,
    decreases n,
{
    if i < n - 1 {
        lemma_entity_path(entities, name, i, (n - 1) as nat);
    }
}

proof fn lemma_entity_paths(entities: Seq<LoadedEntity>, name: Seq<char>, i: int, j: int, n: nat)
    requires
        0 <= i < j < n <= entities.len(),
        entities[i].name@ == name,
        entities[j].name@ == name,
    ensures
        validate::entity_paths(entities, name, n).len() > 1,
    decreases n,
{
    if j < n - 1 {
        lemma_entity_paths(entities, name, i, j, (n - 1) as nat);
    } else {
        lemma_entity_path(entities, name, i, (n - 1) as nat);
    }
}

proof fn lemma_shared_unit_name(h: House, i: int, j: int)
    requires
        0 <= i < j < h.units@.len(),
        h.units@[i].manifest.unit.name@ == h.units@[j].manifest.unit.name@,
    ensures
        reported(
            validate::shared_unit_errors(h, validate::all_unit_names(h.units@).len()),
            "duplicate-unit-name"@,
        ),
{
    let units = h.units@;
    let name = units[i].manifest.unit.name@;
    let given = Seq::new(units.len(), |i: int| units[i].manifest.unit.name@);
    let all = validate::all_unit_names(units);
    assert(given[i] == name);
    assert(given.contains(name));
    order::lemma_distinct(given);
    assert(all.contains(name));
    let k = all.index_of(name);
    lemma_unit_paths(units, all[k], i, j, units.len());
    let f = |i: int|
        validate::shared_name_errors(
            "duplicate-unit-name"@,
            all[i],
            validate::unit_paths(h.units@, all[i], h.units@.len()),
        );
    assert(f(k)[0].code == "duplicate-unit-name"@);
    lemma_reported_in_each(all.len(), f, k, "duplicate-unit-name"@);
}

proof fn lemma_shared_entity_name(h: House, i: int, j: int)
    requires
        0 <= i < j < h.entities@.len(),
        h.entities@[i].name@ == h.entities@[j].name@,
    ensures
        reported(
            validate::shared_entity_errors(h, validate::all_entity_names(h.entities@).len()),
            "duplicate-entity-name"@,
        ),
{
    let entities = h.entities@;
    let name = entities[i].name@;
    let given = Seq::new(entities.len(), |i: int| entities[i].name@);
    let all = validate::all_entity_names(entities);
    assert(given[i] == name);
    assert(given.contains(name));
    order::lemma_distinct(given);
    assert(all.contains(name));
    let k = all.index_of(name);
    lemma_entity_paths(entities, all[k], i, j, entities.len());
    let f = |i: int|
        validate::shared_name_errors(
            "duplicate-entity-name"@,
            all[i],
            validate::entity_paths(h.entities@, all[i], h.entities@.len()),
        );
    assert(f(k)[0].code == "duplicate-entity-name"@);
    lemma_reported_in_each(all.len(), f, k, "duplicate-entity-name"@);
}

proof fn lemma_shared_address(h: House, i: int, j: int)
    requires
        0 <= i < j < h.entities@.len(),
        h.entities@[i].owner@ == h.entities@[j].owner@,
        h.entities@[i].file.entity.id is Some,
        text::opt_text(h.entities@[i].file.entity.id) == text::opt_text(
            h.entities@[j].file.entity.id,
        ),
    ensures
        reported(
            validate::shared_id_errors(h, validate::all_addresses(h.entities@).len()),
            "duplicate-entity-id"@,
        ),
{
    let entities = h.entities@;
    let owner = entities[i].owner@;
    let id = entities[i].file.entity.id->Some_0@;
    let bound = |i: int|
        match entities[i].file.entity.id {
            Some(id) => seq![(entities[i].owner@, id@)],
            None => Seq::empty(),
        };
    assert(bound(i)[0] == (owner, id));
    text::lemma_each_has(entities.len(), bound, i, (owner, id));
    let given = validate::addresses(entities, entities.len());
    let in_order = order::sorted::<(String, String)>(given);
    let all = validate::all_addresses(entities);
    order::lemma_sorted::<(String, String)>(given);
    vstd::seq_lib::to_multiset_contains(given, (owner, id));
    vstd::seq_lib::to_multiset_contains(in_order, (owner, id));
    order::lemma_deduped_keeps(in_order, (owner, id));
    let k = all.index_of((owner, id));
    let paths = |i: int|
        text::only_if(validate::has_address(entities[i], owner, id), entities[i].path@);
    lemma_two_parts(entities.len(), paths, i, j);
    let f = |i: int|
        validate::shared_address_errors(h.entities@, validate::all_addresses(h.entities@)[i]);
    assert(f(k)[0].code == "duplicate-entity-id"@);
    lemma_reported_in_each(all.len(), f, k, "duplicate-entity-id"@);
}

proof fn lemma_duplicates_are_reported(h: House, code: Seq<char>)
    requires
        reported(
            validate::shared_unit_errors(h, validate::all_unit_names(h.units@).len()),
            code,
        ) || reported(
            validate::shared_entity_errors(h, validate::all_entity_names(h.entities@).len()),
            code,
        ) || reported(
            validate::shared_id_errors(h, validate::all_addresses(h.entities@).len()),
            code,
        ),
    ensures
        reported(crate::check_errors(h), code),
{
    broadcast use group_reported;

    assert(reported(validate::duplicates_errors(h), code));
    assert(reported(validate::house_errors(h), code));
}

/// Two units of one name, two entities of one name, and two entities of one
/// owner with one address are reported.
pub proof fn law_a_duplicate_is_reported(h: House, i: int, j: int)
    ensures
        0 <= i < j < h.units@.len() && h.units@[i].manifest.unit.name@
            == h.units@[j].manifest.unit.name@ ==> reported(
            crate::check_errors(h),
            "duplicate-unit-name"@,
        ),
        0 <= i < j < h.entities@.len() && h.entities@[i].name@ == h.entities@[j].name@ ==> reported(
            crate::check_errors(h),
            "duplicate-entity-name"@,
        ),
        0 <= i < j < h.entities@.len() && h.entities@[i].owner@ == h.entities@[j].owner@
            && h.entities@[i].file.entity.id is Some && text::opt_text(
            h.entities@[i].file.entity.id,
        ) == text::opt_text(h.entities@[j].file.entity.id) ==> reported(
            crate::check_errors(h),
            "duplicate-entity-id"@,
        ),
{
    if 0 <= i < j < h.units@.len() && h.units@[i].manifest.unit.name@
        == h.units@[j].manifest.unit.name@ {
        lemma_shared_unit_name(h, i, j);
        lemma_duplicates_are_reported(h, "duplicate-unit-name"@);
    }
    if 0 <= i < j < h.entities@.len() {
        let (a, b) = (h.entities@[i], h.entities@[j]);
        if a.name@ == b.name@ {
            lemma_shared_entity_name(h, i, j);
            lemma_duplicates_are_reported(h, "duplicate-entity-name"@);
        }
        if a.owner@ == b.owner@ && a.file.entity.id is Some && text::opt_text(a.file.entity.id)
            == text::opt_text(b.file.entity.id) {
            lemma_shared_address(h, i, j);
            lemma_duplicates_are_reported(h, "duplicate-entity-id"@);
        }
    }
}

/// The keys that a house expands to.
pub open spec fn keys_of(h: House) -> Seq<ExpandedView> {
    expand::house_keys(h, h.units@.len())
}

/// The grants of a house.
pub open spec fn table_of(h: House) -> Seq<GrantView> {
    grants::grant_table(h, keys_of(h))
}

proof fn lemma_validation_is_reported(h: House, code: Seq<char>)
    requires
        reported(validate::house_errors(h), code),
    ensures
        reported(crate::check_errors(h), code),
{
    broadcast use lemma_reported_in_sum;

}

proof fn lemma_resolution_is_reported(h: House, code: Seq<char>)
    requires
        reported(grants::resolve_errors(h, keys_of(h)), code),
    ensures
        reported(crate::check_errors(h), code),
{
    broadcast use lemma_reported_in_sum;

}

proof fn lemma_feeds_are_reported(h: House, code: Seq<char>)
    requires
        reported(grants::house_feed_errors(h, keys_of(h), h.entities@.len()), code),
    ensures
        reported(crate::check_errors(h), code),
{
    broadcast use lemma_reported_in_sum;

}

proof fn lemma_retired(h: House, i: int, n: nat)
    requires
        0 <= i < n <= h.entities@.len(),
        h.entities@[i].file.dashboard is Some,
    ensures
        reported(validate::retired_errors(h, n), "entity-dashboard-retired"@),
    decreases n,
{
    broadcast use group_reported;

    if i < n - 1 {
        lemma_retired(h, i, (n - 1) as nat);
    }
}

/// What is wrong with an entity is part of what is reported.
proof fn lemma_entity_parts(h: House, i: int, code: Seq<char>)
    requires
        0 <= i < h.entities@.len(),
        reported(validate::entity_errors(h, h.entities@[i]), code) || reported(
            grants::arbitrated_errors(h.entities@[i], keys_of(h)),
            code,
        ) || reported(grants::exclusive_errors(h.entities@[i], table_of(h)), code) || reported(
            grants::entity_feed_errors(h, keys_of(h), h.entities@[i]),
            code,
        ),
    ensures
        reported(crate::check_errors(h), code),
{
    let n = h.entities@.len();
    let keys = keys_of(h);
    let table = table_of(h);
    let a = |i: int| validate::entity_errors(h, h.entities@[i]);
    let b = |i: int| grants::arbitrated_errors(h.entities@[i], keys);
    let c = |i: int| grants::exclusive_errors(h.entities@[i], table);
    let d = |i: int| grants::entity_feed_errors(h, keys, h.entities@[i]);
    if reported(a(i), code) {
        lemma_reported_in_each(n, a, i, code);
        assert(reported(validate::house_errors(h), code)) by {
            broadcast use lemma_reported_in_sum;

            assert(reported(validate::entities_errors(h, n), code));
        }
        lemma_validation_is_reported(h, code);
    } else if reported(d(i), code) {
        lemma_reported_in_each(n, d, i, code);
        lemma_feeds_are_reported(h, code);
    } else {
        if reported(b(i), code) {
            lemma_reported_in_each(n, b, i, code);
            assert(reported(grants::all_arbitrated_errors(h, keys, n), code));
        } else {
            lemma_reported_in_each(n, c, i, code);
            assert(reported(grants::all_exclusive_errors(h, table, n), code));
        }
        assert(reported(grants::resolve_errors(h, keys), code)) by {
            broadcast use lemma_reported_in_sum;

        }
        lemma_resolution_is_reported(h, code);
    }
}

/// The unit that an entity file names as its owner.
pub open spec fn owner_of(h: House, e: LoadedEntity) -> Option<LoadedUnit> {
    repo::unit_named(h.units@, e.file.write_policy.owner@)
}

/// What an entity file may not say is among the errors.
pub open spec fn entity_file_told(h: House, e: LoadedEntity, errors: Seq<ErrorView>) -> bool {
    let policy = e.file.write_policy;
    let room = e.file.entity.room@;
    let capability = e.file.entity.capability@;
    &&& !text::listed(CAPABILITIES@, capability) ==> reported(errors, "unknown-capability"@)
    &&& policy.mode is None && manifest::takes_commands(capability) ==> reported(
        errors,
        "write-mode-required"@,
    )
    &&& validate::is_adapter(h, policy.owner@) && e.file.entity.id is None ==> reported(
        errors,
        "entity-id-required"@,
    )
    &&& keyspace::reserved(room) && !text::listed(PSEUDO_ROOMS@, room) ==> reported(
        errors,
        "reserved-room-name"@,
    )
    &&& match owner_of(h, e) {
        None => reported(errors, "missing-owner-unit"@),
        Some(u) => {
            let kind = u.manifest.unit.kind;
            &&& kind == UnitKind::Service ==> reported(errors, "missing-owner-unit"@)
            &&& kind != UnitKind::Service && policy.owner@ != e.owner@ ==> reported(
                errors,
                "owner-mismatch"@,
            )
            &&& kind == UnitKind::Automation && policy.owner@ == e.owner@ && policy.in_force()
                == WriteMode::Arbitrated ==> reported(errors, "virtual-entity-arbitrated"@)
        },
    }
}

proof fn lemma_entity_rules(h: House, e: LoadedEntity)
    ensures
        entity_file_told(h, e, validate::entity_errors(h, e)),
{
    broadcast use group_reported;

}

/// An entity whose file breaks a rule, or whose policy the grants and inputs
/// of the house do not bear out, is reported.
pub proof fn law_a_broken_entity_is_reported(h: House, i: int)
    requires
        0 <= i < h.entities@.len(),
    ensures
        ({
            let e = h.entities@[i];
            let mode = e.file.write_policy.in_force();
            let table = table_of(h);
            let errors = crate::check_errors(h);
            &&& entity_file_told(h, e, errors)
            &&& e.file.dashboard is Some ==> reported(errors, "entity-dashboard-retired"@)
            &&& mode == WriteMode::Arbitrated && !grants::arbiter_covers(keys_of(h), e)
                ==> reported(errors, "arbitrated-uncovered"@)
            &&& mode == WriteMode::Exclusive && grants::writers_of(
                table,
                e.name@,
                table.len(),
            ).len() > 1 ==> reported(errors, "exclusive-write-conflict"@)
            &&& e.file.inputs is Some && grants::is_automation(h, e.owner@) ==> reported(
                errors,
                "virtual-entity-fed"@,
            )
        }),
{
    let e = h.entities@[i];
    let mode = e.file.write_policy.in_force();
    let keys = keys_of(h);
    let table = table_of(h);
    lemma_entity_rules(h, e);
    let found = validate::entity_errors(h, e);
    if reported(found, "unknown-capability"@) {
        lemma_entity_parts(h, i, "unknown-capability"@);
    }
    if reported(found, "write-mode-required"@) {
        lemma_entity_parts(h, i, "write-mode-required"@);
    }
    if reported(found, "entity-id-required"@) {
        lemma_entity_parts(h, i, "entity-id-required"@);
    }
    if reported(found, "reserved-room-name"@) {
        lemma_entity_parts(h, i, "reserved-room-name"@);
    }
    if reported(found, "missing-owner-unit"@) {
        lemma_entity_parts(h, i, "missing-owner-unit"@);
    }
    if reported(found, "owner-mismatch"@) {
        lemma_entity_parts(h, i, "owner-mismatch"@);
    }
    if reported(found, "virtual-entity-arbitrated"@) {
        lemma_entity_parts(h, i, "virtual-entity-arbitrated"@);
    }
    if e.file.dashboard is Some {
        lemma_retired(h, i, h.entities@.len());
        assert(reported(validate::house_errors(h), "entity-dashboard-retired"@)) by {
            broadcast use lemma_reported_in_sum;

            assert(reported(validate::dashboard_errors(h), "entity-dashboard-retired"@));
        }
        lemma_validation_is_reported(h, "entity-dashboard-retired"@);
    }
    if mode == WriteMode::Arbitrated && !grants::arbiter_covers(keys, e) {
        assert(grants::arbitrated_errors(e, keys)[0].code == "arbitrated-uncovered"@);
        lemma_entity_parts(h, i, "arbitrated-uncovered"@);
    }
    if mode == WriteMode::Exclusive && grants::writers_of(table, e.name@, table.len()).len() > 1 {
        assert(grants::exclusive_errors(e, table)[0].code == "exclusive-write-conflict"@);
        lemma_entity_parts(h, i, "exclusive-write-conflict"@);
    }
    if e.file.inputs is Some && grants::is_automation(h, e.owner@) {
        assert(grants::entity_feed_errors(h, keys, e)[0].code == "virtual-entity-fed"@);
        lemma_entity_parts(h, i, "virtual-entity-fed"@);
    }
}

proof fn lemma_zone_rules(
    rooms: Seq<Seq<char>>,
    zone: Seq<char>,
    members: Seq<String>,
    j: int,
)
    ensures
        keyspace::reserved(zone) ==> reported(
            validate::zone_errors(rooms, zone, members),
            "reserved-zone-name"@,
        ),
        !keyspace::reserved(zone) && rooms.contains(zone) ==> reported(
            validate::zone_errors(rooms, zone, members),
            "zone-room-collision"@,
        ),
        !keyspace::reserved(zone) && 0 <= j < members.len() && text::listed(
            PSEUDO_ROOMS@,
            members[j]@,
        ) ==> reported(validate::zone_errors(rooms, zone, members), "zone-pseudo-room"@),
        !keyspace::reserved(zone) && 0 <= j < members.len() && !text::listed(
            PSEUDO_ROOMS@,
            members[j]@,
        ) && !rooms.contains(members[j]@) ==> reported(
            validate::zone_errors(rooms, zone, members),
            "zone-unknown-room"@,
        ),
{
    broadcast use group_reported;

    if 0 <= j < members.len() {
        let n = members.len();
        let f = |i: int| validate::member_errors(rooms, zone, members[i]@);
        if reported(f(j), "zone-pseudo-room"@) {
            lemma_reported_in_each(n, f, j, "zone-pseudo-room"@);
            assert(reported(validate::members_errors(rooms, zone, members, n), "zone-pseudo-room"@));
        }
        if reported(f(j), "zone-unknown-room"@) {
            lemma_reported_in_each(n, f, j, "zone-unknown-room"@);
            assert(reported(
                validate::members_errors(rooms, zone, members, n),
                "zone-unknown-room"@,
            ));
        }
    }
}

proof fn lemma_zone_parts(h: House, i: int, code: Seq<char>)
    requires
        0 <= i < h.zones@.len(),
        reported(
            validate::zone_errors(
                repo::rooms_of(h.entities@),
                h.zones@[i].0@,
                h.zones@[i].1@,
            ),
            code,
        ),
    ensures
        reported(crate::check_errors(h), code),
{
    let n = h.zones@.len();
    let f = |i: int|
        validate::zone_errors(repo::rooms_of(h.entities@), h.zones@[i].0@, h.zones@[i].1@);
    lemma_reported_in_each(n, f, i, code);
    assert(reported(validate::house_errors(h), code)) by {
        broadcast use lemma_reported_in_sum;

        assert(reported(validate::zones_errors(h, n), code));
    }
    lemma_validation_is_reported(h, code);
}

/// A zone whose name is taken, and a member that is no room of the house, are
/// reported.
pub proof fn law_a_broken_zone_is_reported(h: House, i: int, j: int)
    requires
        0 <= i < h.zones@.len(),
    ensures
        ({
            let rooms = repo::rooms_of(h.entities@);
            let zone = h.zones@[i].0@;
            let members = h.zones@[i].1@;
            let errors = crate::check_errors(h);
            let member = !keyspace::reserved(zone) && 0 <= j < members.len();
            &&& keyspace::reserved(zone) ==> reported(errors, "reserved-zone-name"@)
            &&& !keyspace::reserved(zone) && rooms.contains(zone) ==> reported(
                errors,
                "zone-room-collision"@,
            )
            &&& member && text::listed(PSEUDO_ROOMS@, members[j]@) ==> reported(
                errors,
                "zone-pseudo-room"@,
            )
            &&& member && !text::listed(PSEUDO_ROOMS@, members[j]@) && !rooms.contains(members[j]@)
                ==> reported(errors, "zone-unknown-room"@)
        }),
{
    let rooms = repo::rooms_of(h.entities@);
    let zone = h.zones@[i].0@;
    let members = h.zones@[i].1@;
    let found = validate::zone_errors(rooms, zone, members);
    lemma_zone_rules(rooms, zone, members, j);
    if reported(found, "reserved-zone-name"@) {
        lemma_zone_parts(h, i, "reserved-zone-name"@);
    }
    if reported(found, "zone-room-collision"@) {
        lemma_zone_parts(h, i, "zone-room-collision"@);
    }
    if reported(found, "zone-pseudo-room"@) {
        lemma_zone_parts(h, i, "zone-pseudo-room"@);
    }
    if reported(found, "zone-unknown-room"@) {
        lemma_zone_parts(h, i, "zone-unknown-room"@);
    }
}

proof fn lemma_parameter_rules(subject: Seq<char>, spec: ParamSpec, path: Seq<char>, k: int)
    ensures
        !validate::default_fits(spec) ==> reported(
            validate::param_errors(subject, spec, path),
            "invalid-default"@,
        ),
        spec.constraint is Some && 0 <= k < spec.constraint->Some_0@.len()
            && validate::constraint_fault(
            spec.param_type,
            spec.constraint->Some_0@[k].0@,
            spec.constraint->Some_0@[k].1,
        ) is Some ==> reported(
            validate::param_errors(subject, spec, path),
            "malformed-constraint"@,
        ),
{
    broadcast use group_reported;

    let form = validate::form_errors(subject, spec, path);
    if !validate::default_fits(spec) {
        assert(reported(form, "invalid-default"@));
    }
    if spec.constraint is Some && 0 <= k < spec.constraint->Some_0@.len() {
        let t = spec.param_type;
        let table = spec.constraint->Some_0@;
        let f = |i: int|
            validate::constraint_errors(subject, path, t, table[i].0@, table[i].1);
        if validate::constraint_fault(t, table[k].0@, table[k].1) is Some {
            assert(reported(f(k), "malformed-constraint"@));
            lemma_reported_in_each(table.len(), f, k, "malformed-constraint"@);
            assert(reported(
                validate::constraints_errors(subject, path, t, table, table.len()),
                "malformed-constraint"@,
            ));
            assert(reported(form, "malformed-constraint"@));
        }
    }
}

/// The failures of a unit's parameter.
spec fn found_in_param(u: LoadedUnit, j: int) -> Seq<ErrorView> {
    validate::param_errors(
        u.manifest.unit.name@ + "."@ + u.manifest.params->Some_0@[j].0@,
        u.manifest.params->Some_0@[j].1,
        u.path@,
    )
}

proof fn lemma_unit_params(u: LoadedUnit, j: int, n: nat, code: Seq<char>)
    requires
        0 <= j < n,
        reported(found_in_param(u, j), code),
    ensures
        reported(validate::unit_params_errors(u, n), code),
    decreases n,
{
    broadcast use lemma_reported_in_sum;

    if j < n - 1 {
        lemma_unit_params(u, j, (n - 1) as nat, code);
    }
}

proof fn lemma_params(h: House, i: int, n: nat, code: Seq<char>)
    requires
        0 <= i < n,
        h.units@[i].manifest.params is Some,
        reported(
            validate::unit_params_errors(
                h.units@[i],
                h.units@[i].manifest.params->Some_0@.len(),
            ),
            code,
        ),
    ensures
        reported(validate::params_errors(h, n), code),
    decreases n,
{
    broadcast use lemma_reported_in_sum;

    if i < n - 1 {
        lemma_params(h, i, (n - 1) as nat, code);
    }
}

/// A default that is not of its type, and a constraint that its type does not
/// understand or whose value it cannot have, are reported.
pub proof fn law_a_broken_parameter_is_reported(h: House, i: int, j: int, k: int)
    requires
        0 <= i < h.units@.len(),
        h.units@[i].manifest.params is Some,
        0 <= j < h.units@[i].manifest.params->Some_0@.len(),
    ensures
        ({
            let spec = h.units@[i].manifest.params->Some_0@[j].1;
            let table = spec.constraint->Some_0@;
            let errors = crate::check_errors(h);
            &&& !validate::default_fits(spec) ==> reported(errors, "invalid-default"@)
            &&& spec.constraint is Some && 0 <= k < table.len() && validate::constraint_fault(
                spec.param_type,
                table[k].0@,
                table[k].1,
            ) is Some ==> reported(errors, "malformed-constraint"@)
        }),
{
    let u = h.units@[i];
    let params = u.manifest.params->Some_0@;
    lemma_parameter_rules(
        u.manifest.unit.name@ + "."@ + params[j].0@,
        params[j].1,
        u.path@,
        k,
    );
    if reported(found_in_param(u, j), "invalid-default"@) {
        lemma_param_parts(h, i, j, "invalid-default"@);
    }
    if reported(found_in_param(u, j), "malformed-constraint"@) {
        lemma_param_parts(h, i, j, "malformed-constraint"@);
    }
}

proof fn lemma_param_parts(h: House, i: int, j: int, code: Seq<char>)
    requires
        0 <= i < h.units@.len(),
        h.units@[i].manifest.params is Some,
        0 <= j < h.units@[i].manifest.params->Some_0@.len(),
        reported(found_in_param(h.units@[i], j), code),
    ensures
        reported(crate::check_errors(h), code),
{
    lemma_unit_params(h.units@[i], j, h.units@[i].manifest.params->Some_0@.len(), code);
    lemma_params(h, i, h.units@.len(), code);
    assert(reported(validate::house_errors(h), code)) by {
        broadcast use lemma_reported_in_sum;

    }
    lemma_validation_is_reported(h, code);
}

/// What a unit says of one entry of its bus section.
spec fn found_in_publish(u: LoadedUnit, j: int) -> Seq<ErrorView> {
    let entries = u.manifest.bus->Some_0.publishes@;
    expand::entry_errors(u, entries[j].0@, entries[j].1.key@)
}

spec fn found_in_subscribe(u: LoadedUnit, j: int) -> Seq<ErrorView> {
    let entries = u.manifest.bus->Some_0.subscribes@;
    expand::entry_errors(u, entries[j].0@, entries[j].1@)
}

proof fn lemma_publish_parts(u: LoadedUnit, j: int, n: nat, code: Seq<char>)
    requires
        0 <= j < n,
        reported(found_in_publish(u, j), code),
    ensures
        reported(expand::publish_errors(u, n), code),
    decreases n,
{
    broadcast use lemma_reported_in_sum;

    if j < n - 1 {
        lemma_publish_parts(u, j, (n - 1) as nat, code);
    }
}

proof fn lemma_subscribe_parts(u: LoadedUnit, j: int, n: nat, code: Seq<char>)
    requires
        0 <= j < n,
        reported(found_in_subscribe(u, j), code),
    ensures
        reported(expand::subscribe_errors(u, n), code),
    decreases n,
{
    broadcast use lemma_reported_in_sum;

    if j < n - 1 {
        lemma_subscribe_parts(u, j, (n - 1) as nat, code);
    }
}

/// A templated expression that a service may not use.
pub open spec fn stray_template(u: LoadedUnit, raw: Seq<char>) -> bool {
    match expand::checked(raw) {
        Ok(k) => keyspace::templated(k) && u.manifest.unit.kind == UnitKind::Service,
        Err(_) => false,
    }
}

/// An entry whose key is not in the key space, or uses a template where none
/// may stand, is reported.
pub proof fn law_a_broken_entry_is_reported(h: House, i: int, j: int)
    requires
        0 <= i < h.units@.len(),
        h.units@[i].manifest.bus is Some,
    ensures
        ({
            let u = h.units@[i];
            let bus = u.manifest.bus->Some_0;
            let errors = crate::check_errors(h);
            &&& 0 <= j < bus.publishes@.len() ==> {
                &&& expand::checked(bus.publishes@[j].1.key@) is Err ==> reported(
                    errors,
                    "key-outside-schema"@,
                )
                &&& stray_template(u, bus.publishes@[j].1.key@) ==> reported(
                    errors,
                    "template-outside-binding-unit"@,
                )
            }
            &&& 0 <= j < bus.subscribes@.len() ==> {
                &&& expand::checked(bus.subscribes@[j].1@) is Err ==> reported(
                    errors,
                    "key-outside-schema"@,
                )
                &&& stray_template(u, bus.subscribes@[j].1@) ==> reported(
                    errors,
                    "template-outside-binding-unit"@,
                )
            }
        }),
{
    let u = h.units@[i];
    let bus = u.manifest.bus->Some_0;
    if 0 <= j < bus.publishes@.len() {
        let found = found_in_publish(u, j);
        if expand::checked(bus.publishes@[j].1.key@) is Err {
            assert(found[0].code == "key-outside-schema"@);
            lemma_publish_parts(u, j, bus.publishes@.len(), "key-outside-schema"@);
            lemma_entry_parts(h, i, "key-outside-schema"@);
        }
        if stray_template(u, bus.publishes@[j].1.key@) {
            assert(found[0].code == "template-outside-binding-unit"@);
            lemma_publish_parts(u, j, bus.publishes@.len(), "template-outside-binding-unit"@);
            lemma_entry_parts(h, i, "template-outside-binding-unit"@);
        }
    }
    if 0 <= j < bus.subscribes@.len() {
        let found = found_in_subscribe(u, j);
        if expand::checked(bus.subscribes@[j].1@) is Err {
            assert(found[0].code == "key-outside-schema"@);
            lemma_subscribe_parts(u, j, bus.subscribes@.len(), "key-outside-schema"@);
            lemma_entry_parts(h, i, "key-outside-schema"@);
        }
        if stray_template(u, bus.subscribes@[j].1@) {
            assert(found[0].code == "template-outside-binding-unit"@);
            lemma_subscribe_parts(u, j, bus.subscribes@.len(), "template-outside-binding-unit"@);
            lemma_entry_parts(h, i, "template-outside-binding-unit"@);
        }
    }
}

proof fn lemma_entry_parts(h: House, i: int, code: Seq<char>)
    requires
        0 <= i < h.units@.len(),
        h.units@[i].manifest.bus is Some,
        ({
            let u = h.units@[i];
            let bus = u.manifest.bus->Some_0;
            reported(expand::publish_errors(u, bus.publishes@.len()), code) || reported(
                expand::subscribe_errors(u, bus.subscribes@.len()),
                code,
            )
        }),
    ensures
        reported(crate::check_errors(h), code),
{
    assert(reported(expand::unit_errors(h.units@[i]), code)) by {
        broadcast use lemma_reported_in_sum;

    }
    lemma_unit_parts(h, i, code);
}

proof fn lemma_view_parts(h: House, i: int, code: Seq<char>)
    requires
        0 <= i < validate::views_in(h).len(),
        reported(validate::view_errors(h, validate::views_in(h), i), code),
    ensures
        reported(crate::check_errors(h), code),
{
    let views = validate::views_in(h);
    let f = |i: int| validate::view_errors(h, views, i);
    lemma_reported_in_each(views.len(), f, i, code);
    assert(reported(validate::house_errors(h), code)) by {
        broadcast use lemma_reported_in_sum;

        assert(reported(validate::views_errors(h, views, views.len()), code));
        assert(reported(validate::dashboard_errors(h), code));
    }
    lemma_validation_is_reported(h, code);
}

proof fn lemma_view_rules(h: House, views: Seq<ViewSpec>, i: int)
    ensures
        ({
            let v = views[i];
            let errors = validate::view_errors(h, views, i);
            &&& v.name@ == "health"@ || v.name@ == "notshown"@ ==> reported(
                errors,
                "dashboard-reserved-view"@,
            )
            &&& validate::seen_before(views, i, v.name@) ==> reported(
                errors,
                "dashboard-duplicate-view"@,
            )
            &&& (v.kind is Some <==> v.widgets@.len() > 0) ==> reported(
                errors,
                "dashboard-view-shape"@,
            )
        }),
{
    broadcast use group_reported;

}

/// A view whose name is taken or whose form is none of the two is reported.
pub proof fn law_a_broken_view_is_reported(h: House, i: int)
    requires
        0 <= i < validate::views_in(h).len(),
    ensures
        ({
            let views = validate::views_in(h);
            let v = views[i];
            let errors = crate::check_errors(h);
            &&& v.name@ == "health"@ || v.name@ == "notshown"@ ==> reported(
                errors,
                "dashboard-reserved-view"@,
            )
            &&& validate::seen_before(views, i, v.name@) ==> reported(
                errors,
                "dashboard-duplicate-view"@,
            )
            &&& (v.kind is Some <==> v.widgets@.len() > 0) ==> reported(
                errors,
                "dashboard-view-shape"@,
            )
        }),
{
    let views = validate::views_in(h);
    let found = validate::view_errors(h, views, i);
    lemma_view_rules(h, views, i);
    if reported(found, "dashboard-reserved-view"@) {
        lemma_view_parts(h, i, "dashboard-reserved-view"@);
    }
    if reported(found, "dashboard-duplicate-view"@) {
        lemma_view_parts(h, i, "dashboard-duplicate-view"@);
    }
    if reported(found, "dashboard-view-shape"@) {
        lemma_view_parts(h, i, "dashboard-view-shape"@);
    }
}

/// What is wrong with the widget at a place of a view, or with the widgets in
/// it.
spec fn found_in_widget(h: House, v: ViewSpec, j: int) -> Seq<ErrorView> {
    let w = v.widgets@[j];
    let subject = validate::indexed(v.name@, j);
    validate::widget_errors(h, w, subject) + validate::group_errors(
        h,
        w,
        subject,
        w.widgets@.len(),
    )
}

proof fn lemma_widgets(h: House, v: ViewSpec, j: int, n: nat, code: Seq<char>)
    requires
        0 <= j < n,
        reported(found_in_widget(h, v, j), code),
    ensures
        reported(validate::widgets_errors(h, v, n), code),
    decreases n,
{
    broadcast use lemma_reported_in_sum;

    if j < n - 1 {
        lemma_widgets(h, v, j, (n - 1) as nat, code);
    }
}

proof fn lemma_widget_parts(h: House, i: int, j: int, code: Seq<char>)
    requires
        0 <= i < validate::views_in(h).len(),
        0 <= j < validate::views_in(h)[i].widgets@.len(),
        reported(found_in_widget(h, validate::views_in(h)[i], j), code),
    ensures
        reported(crate::check_errors(h), code),
{
    let views = validate::views_in(h);
    lemma_widgets(h, views[i], j, views[i].widgets@.len(), code);
    assert(reported(validate::view_errors(h, views, i), code)) by {
        broadcast use lemma_reported_in_sum;

    }
    lemma_view_parts(h, i, code);
}

proof fn lemma_group_rules(h: House, w: WidgetSpec, subject: Seq<char>, k: int, n: nat)
    requires
        0 <= k < n <= w.widgets@.len(),
        w.widgets@[k].kind == WidgetKind::Group,
    ensures
        reported(validate::group_errors(h, w, subject, n), "dashboard-nested-group"@),
    decreases n,
{
    broadcast use group_reported;

    if k < n - 1 {
        lemma_group_rules(h, w, subject, k, (n - 1) as nat);
    }
}

proof fn lemma_widget_rules(h: House, w: WidgetSpec, subject: Seq<char>)
    ensures
        ({
            let errors = validate::widget_errors(h, w, subject);
            let fits = validate::fields_fault(w) is None;
            &&& !fits ==> reported(errors, "dashboard-widget-fields"@)
            &&& fits && stray_entity(h, w) ==> reported(errors, "dashboard-unknown-entity"@)
            &&& fits && stray_burner(h, w) ==> reported(errors, "dashboard-widget-capability"@)
            &&& fits && w.aspect is Some && !validate::is_segment(w.aspect->Some_0@) ==> reported(
                errors,
                "dashboard-invalid-aspect"@,
            )
            &&& fits && w.room is Some && !repo::rooms_of(h.entities@).contains(w.room->Some_0@)
                ==> reported(errors, "dashboard-unknown-room"@)
            &&& fits && w.unit is Some && repo::unit_named(h.units@, w.unit->Some_0@) is None
                ==> reported(errors, "dashboard-unknown-unit"@)
        }),
{
    broadcast use group_reported;

    if validate::fields_fault(w) is None {
        let found = validate::reference_errors(h, w, subject);
        assert(validate::widget_errors(h, w, subject) == found);
        if stray_entity(h, w) {
            assert(reported(found, "dashboard-unknown-entity"@));
        }
        if stray_burner(h, w) {
            assert(reported(found, "dashboard-widget-capability"@));
        }
    }
}

/// A widget that names an entity the house does not have.
pub open spec fn stray_entity(h: House, w: WidgetSpec) -> bool {
    w.entity is Some && repo::entity_named(h.entities@, w.entity->Some_0@) is None
}

/// A burner widget on an entity that is no burner.
pub open spec fn stray_burner(h: House, w: WidgetSpec) -> bool {
    w.entity is Some && w.kind == WidgetKind::Burner && match repo::entity_named(
        h.entities@,
        w.entity->Some_0@,
    ) {
        Some(e) => e.file.entity.capability@ != "burner"@,
        None => false,
    }
}

/// A widget whose fields do not fit its kind, whose references do not resolve
/// or that groups a group is reported.
pub proof fn law_a_broken_widget_is_reported(h: House, i: int, j: int, k: int)
    requires
        0 <= i < validate::views_in(h).len(),
        0 <= j < validate::views_in(h)[i].widgets@.len(),
    ensures
        ({
            let w = validate::views_in(h)[i].widgets@[j];
            let errors = crate::check_errors(h);
            let fits = validate::fields_fault(w) is None;
            &&& !fits ==> reported(errors, "dashboard-widget-fields"@)
            &&& fits && stray_entity(h, w) ==> reported(errors, "dashboard-unknown-entity"@)
            &&& fits && stray_burner(h, w) ==> reported(errors, "dashboard-widget-capability"@)
            &&& fits && w.aspect is Some && !validate::is_segment(w.aspect->Some_0@) ==> reported(
                errors,
                "dashboard-invalid-aspect"@,
            )
            &&& fits && w.room is Some && !repo::rooms_of(h.entities@).contains(w.room->Some_0@)
                ==> reported(errors, "dashboard-unknown-room"@)
            &&& fits && w.unit is Some && repo::unit_named(h.units@, w.unit->Some_0@) is None
                ==> reported(errors, "dashboard-unknown-unit"@)
            &&& 0 <= k < w.widgets@.len() && w.widgets@[k].kind == WidgetKind::Group ==> reported(
                errors,
                "dashboard-nested-group"@,
            )
        }),
{
    let v = validate::views_in(h)[i];
    let w = v.widgets@[j];
    let subject = validate::indexed(v.name@, j);
    lemma_widget_rules(h, w, subject);
    lemma_widget_is_found(h, v, j, "dashboard-widget-fields"@);
    lemma_widget_is_found(h, v, j, "dashboard-unknown-entity"@);
    lemma_widget_is_found(h, v, j, "dashboard-widget-capability"@);
    lemma_widget_is_found(h, v, j, "dashboard-invalid-aspect"@);
    lemma_widget_is_found(h, v, j, "dashboard-unknown-room"@);
    lemma_widget_is_found(h, v, j, "dashboard-unknown-unit"@);
    let found = found_in_widget(h, v, j);
    if reported(found, "dashboard-widget-fields"@) {
        lemma_widget_parts(h, i, j, "dashboard-widget-fields"@);
    }
    if reported(found, "dashboard-unknown-entity"@) {
        lemma_widget_parts(h, i, j, "dashboard-unknown-entity"@);
    }
    if reported(found, "dashboard-widget-capability"@) {
        lemma_widget_parts(h, i, j, "dashboard-widget-capability"@);
    }
    if reported(found, "dashboard-invalid-aspect"@) {
        lemma_widget_parts(h, i, j, "dashboard-invalid-aspect"@);
    }
    if reported(found, "dashboard-unknown-room"@) {
        lemma_widget_parts(h, i, j, "dashboard-unknown-room"@);
    }
    if reported(found, "dashboard-unknown-unit"@) {
        lemma_widget_parts(h, i, j, "dashboard-unknown-unit"@);
    }
    if 0 <= k < w.widgets@.len() && w.widgets@[k].kind == WidgetKind::Group {
        lemma_group_rules(h, w, subject, k, w.widgets@.len());
        lemma_widget_is_found(h, v, j, "dashboard-nested-group"@);
        lemma_widget_parts(h, i, j, "dashboard-nested-group"@);
    }
}

proof fn lemma_widget_is_found(h: House, v: ViewSpec, j: int, code: Seq<char>)
    ensures
        ({
            let w = v.widgets@[j];
            let subject = validate::indexed(v.name@, j);
            reported(found_in_widget(h, v, j), code) == (reported(
                validate::widget_errors(h, w, subject),
                code,
            ) || reported(validate::group_errors(h, w, subject, w.widgets@.len()), code))
        }),
{
    broadcast use lemma_reported_in_sum;

}

/// What is wrong with a key is part of what is reported.
proof fn lemma_key_parts(h: House, m: int, code: Seq<char>)
    requires
        0 <= m < keys_of(h).len(),
        ({
            let k = keys_of(h)[m];
            reported(grants::capability_errors(h, k), code) || reported(
                grants::state_errors(h, k, k.exprs.len()),
                code,
            ) || reported(grants::reserved_errors(h, keys_of(h), k), code)
        }),
    ensures
        reported(crate::check_errors(h), code),
{
    let keys = keys_of(h);
    let n = keys.len();
    let a = |i: int| grants::capability_errors(h, keys[i]);
    let b = |i: int| grants::state_errors(h, keys[i], keys[i].exprs.len());
    let c = |i: int| grants::reserved_errors(h, keys, keys[i]);
    if reported(a(m), code) {
        lemma_reported_in_each(n, a, m, code);
        assert(reported(grants::all_capability_errors(h, keys, n), code));
    } else if reported(b(m), code) {
        lemma_reported_in_each(n, b, m, code);
        assert(reported(grants::all_state_errors(h, keys, n), code));
    } else {
        lemma_reported_in_each(n, c, m, code);
        assert(reported(grants::all_reserved_errors(h, keys, n), code));
    }
    assert(reported(grants::resolve_errors(h, keys), code)) by {
        broadcast use lemma_reported_in_sum;

    }
    lemma_resolution_is_reported(h, code);
}

/// A state expression that is not under an entity its unit binds.
pub open spec fn stray_state(h: House, unit: Seq<char>, expr: Seq<SegmentView>) -> bool {
    keyspace::class_of(expr) == Some("state"@) && match (
        grants::literal_at(expr, 2),
        grants::literal_at(expr, 3),
    ) {
        (Some(room), Some(name)) => !grants::binds(h, unit, room, name),
        _ => true,
    }
}

proof fn lemma_state_rules(h: House, k: ExpandedView, j: int)
    requires
        0 <= j < k.exprs.len(),
        k.direction == Direction::Publishes,
        !k.templated,
        stray_state(h, k.unit, k.exprs[j]),
    ensures
        reported(grants::state_errors(h, k, k.exprs.len()), "state-publish-unbound"@),
{
    broadcast use group_reported;

    let f = |j: int| grants::state_key_errors(h, k, k.exprs[j]);
    assert(reported(f(j), "state-publish-unbound"@));
    lemma_reported_in_each(k.exprs.len(), f, j, "state-publish-unbound"@);
}

/// A publish that names no capability or an unknown one, that claims a state
/// its unit does not bind or that a unit of its kind may not make is reported.
pub proof fn law_a_broken_publish_is_reported(h: House, m: int, j: int)
    requires
        0 <= m < keys_of(h).len(),
    ensures
        ({
            let k = keys_of(h)[m];
            let errors = crate::check_errors(h);
            let capability = grants::declaration(h, k).capability;
            &&& grants::commands(k) && capability is None ==> reported(
                errors,
                "publish-missing-capability"@,
            )
            &&& grants::commands(k) && capability is Some && !text::listed(
                CAPABILITIES@,
                capability->Some_0@,
            ) ==> reported(errors, "unknown-capability"@)
            &&& k.direction == Direction::Publishes && !k.templated && 0 <= j < k.exprs.len()
                && stray_state(h, k.unit, k.exprs[j]) ==> reported(
                errors,
                "state-publish-unbound"@,
            )
            &&& k.direction == Direction::Publishes && grants::reserved_message(
                h,
                keys_of(h),
                k,
            ) is Some ==> reported(errors, "reserved-class-publish"@)
        }),
{
    let keys = keys_of(h);
    let k = keys[m];
    let capability = grants::declaration(h, k).capability;
    if grants::commands(k) && capability is None {
        assert(grants::capability_errors(h, k)[0].code == "publish-missing-capability"@);
        lemma_key_parts(h, m, "publish-missing-capability"@);
    }
    if grants::commands(k) && capability is Some && !text::listed(
        CAPABILITIES@,
        capability->Some_0@,
    ) {
        assert(grants::capability_errors(h, k)[0].code == "unknown-capability"@);
        lemma_key_parts(h, m, "unknown-capability"@);
    }
    if k.direction == Direction::Publishes && !k.templated && 0 <= j < k.exprs.len()
        && stray_state(h, k.unit, k.exprs[j]) {
        lemma_state_rules(h, k, j);
        lemma_key_parts(h, m, "state-publish-unbound"@);
    }
    if k.direction == Direction::Publishes && grants::reserved_message(h, keys, k) is Some {
        assert(grants::reserved_errors(h, keys, k)[0].code == "reserved-class-publish"@);
        lemma_key_parts(h, m, "reserved-class-publish"@);
    }
}

proof fn lemma_latches(h: House, i: int, j: int, code: Seq<char>)
    requires
        0 <= i < table_of(h).len(),
        0 <= j < table_of(h)[i].entities.len(),
        reported(
            grants::latch_errors(
                h,
                keys_of(h),
                table_of(h)[i],
                table_of(h)[i].entities[j].name,
            ),
            code,
        ),
    ensures
        reported(
            grants::all_latch_errors(h, keys_of(h), table_of(h), table_of(h).len()),
            code,
        ),
{
    let keys = keys_of(h);
    let table = table_of(h);
    lemma_grant_latches(h, keys, table[i], j, code);
    let f = |i: int| grants::grant_latch_errors(h, keys, table[i], table[i].entities.len());
    lemma_reported_in_each(table.len(), f, i, code);
}

proof fn lemma_grant_latches(
    h: House,
    keys: Seq<ExpandedView>,
    g: GrantView,
    j: int,
    code: Seq<char>,
)
    requires
        0 <= j < g.entities.len(),
        reported(grants::latch_errors(h, keys, g, g.entities[j].name), code),
    ensures
        reported(grants::grant_latch_errors(h, keys, g, g.entities.len()), code),
{
    let f = |j: int| grants::latch_errors(h, keys, g, g.entities[j].name);
    lemma_reported_in_each(g.entities.len(), f, j, code);
}

/// A command to a latch whose owner does not listen, and grants that leave
/// no order to start their units in, are reported.
pub proof fn law_a_broken_grant_is_reported(h: House, i: int, j: int, u: Seq<char>)
    ensures
        ({
            let table = table_of(h);
            let errors = crate::check_errors(h);
            &&& 0 <= i < table.len() && 0 <= j < table[i].entities.len() && deaf_latch(
                h,
                table[i].entities[j].name,
            ) ==> reported(errors, "virtual-entity-commanded"@)
            &&& graph::stuck(grants::grant_edges_of(table, table.len()), u) ==> reported(
                errors,
                "grant-cycle"@,
            )
        }),
{
    let keys = keys_of(h);
    let table = table_of(h);
    let edges = grants::grant_edges_of(table, table.len());
    if 0 <= i < table.len() && 0 <= j < table[i].entities.len() && deaf_latch(
        h,
        table[i].entities[j].name,
    ) {
        let found = grants::latch_errors(h, keys, table[i], table[i].entities[j].name);
        assert(found[0].code == "virtual-entity-commanded"@);
        lemma_latches(h, i, j, "virtual-entity-commanded"@);
        lemma_table_parts(h, "virtual-entity-commanded"@);
    }
    if graph::stuck(edges, u) {
        graph::lemma_stuck_is_node(edges, u);
        let all = graph::nodes(edges);
        let f = |i: int| text::only_if(graph::stuck(edges, all[i]), all[i]);
        let m = all.index_of(u);
        assert(f(m).len() == 1);
        text::lemma_each_empty(all.len(), f);
        assert(grants::cyclic_units(table).len() > 0);
        assert(grants::cycle_errors(table)[0].code == "grant-cycle"@);
        lemma_table_parts(h, "grant-cycle"@);
    }
}

/// An entity that an automation binds without listening for its commands.
pub open spec fn deaf_latch(h: House, name: Seq<char>) -> bool {
    match repo::entity_named(h.entities@, name) {
        Some(e) => grants::is_automation(h, e.owner@) && !grants::owner_listens(keys_of(h), e),
        None => false,
    }
}

proof fn lemma_table_parts(h: House, code: Seq<char>)
    requires
        reported(
            grants::all_latch_errors(h, keys_of(h), table_of(h), table_of(h).len()),
            code,
        ) || reported(grants::cycle_errors(table_of(h)), code),
    ensures
        reported(crate::check_errors(h), code),
{
    assert(reported(grants::resolve_errors(h, keys_of(h)), code)) by {
        broadcast use lemma_reported_in_sum;

    }
    lemma_resolution_is_reported(h, code);
}

/// What is wrong with one input of an entity.
spec fn found_in_input(h: House, e: LoadedEntity, j: int) -> Seq<ErrorView> {
    let inputs = e.file.inputs->Some_0@;
    grants::input_errors(h, keys_of(h), e, inputs[j].0@, inputs[j].1)
}

proof fn lemma_inputs(h: House, e: LoadedEntity, j: int, n: nat, code: Seq<char>)
    requires
        0 <= j < n,
        reported(found_in_input(h, e, j), code),
    ensures
        reported(grants::inputs_errors(h, keys_of(h), e, n), code),
    decreases n,
{
    broadcast use lemma_reported_in_sum;

    if j < n - 1 {
        lemma_inputs(h, e, j, (n - 1) as nat, code);
    }
}

/// An input that is fed from an entity the house does not have, or from an
/// aspect that is not published, is reported.
pub proof fn law_a_broken_input_is_reported(h: House, i: int, j: int)
    requires
        0 <= i < h.entities@.len(),
        h.entities@[i].file.inputs is Some,
        !grants::is_automation(h, h.entities@[i].owner@),
        0 <= j < h.entities@[i].file.inputs->Some_0@.len(),
    ensures
        ({
            let source = h.entities@[i].file.inputs->Some_0@[j].1;
            let errors = crate::check_errors(h);
            match repo::entity_named(h.entities@, source.entity@) {
                None => reported(errors, "input-unknown-entity"@),
                Some(src) => grants::unpublished(h, keys_of(h), src, source.aspect@) ==> reported(
                    errors,
                    "input-unpublished-aspect"@,
                ),
            }
        }),
{
    let e = h.entities@[i];
    let source = e.file.inputs->Some_0@[j].1;
    let n = e.file.inputs->Some_0@.len();
    match repo::entity_named(h.entities@, source.entity@) {
        None => {
            assert(found_in_input(h, e, j)[0].code == "input-unknown-entity"@);
            lemma_inputs(h, e, j, n, "input-unknown-entity"@);
            lemma_entity_parts(h, i, "input-unknown-entity"@);
        },
        Some(src) => {
            if grants::unpublished(h, keys_of(h), src, source.aspect@) {
                assert(found_in_input(h, e, j)[0].code == "input-unpublished-aspect"@);
                lemma_inputs(h, e, j, n, "input-unpublished-aspect"@);
                lemma_entity_parts(h, i, "input-unpublished-aspect"@);
            }
        },
    }
}

/// A unit file that does not parse or has another contract version, and a
/// directory that is not there, are reported.
pub proof fn law_a_broken_file_is_reported(files: HouseFiles, i: int)
    ensures
        ({
            let errors = repo::load_errors(files);
            &&& files.units is None ==> reported(errors, "missing-units-dir"@)
            &&& files.units is Some ==> {
                let units = files.units->Some_0@;
                let dirs = repo::house_dirs(files);
                &&& 0 <= i < units.len() && units[i].content is Err ==> reported(
                    errors,
                    "parse-error"@,
                )
                &&& 0 <= i < units.len() && units[i].content is Ok
                    && units[i].content->Ok_0.schema != SUPPORTED_SCHEMA ==> reported(
                    errors,
                    "unsupported-schema"@,
                )
                &&& 0 <= i < dirs.len() && files.entities@[i] is None ==> reported(
                    errors,
                    "missing-entities-dir"@,
                )
            }
        }),
{
    broadcast use group_reported;

    if files.units is Some {
        let units = files.units->Some_0@;
        let dirs = repo::house_dirs(files);
        let given = files.entities@;
        let f = |i: int| repo::unit_errors(units[i]);
        let g = |i: int| repo::dir_errors(dirs[i].0, dirs[i].1, given[i]);
        if 0 <= i < units.len() && units[i].content is Err {
            assert(reported(f(i), "parse-error"@));
            lemma_reported_in_each(units.len(), f, i, "parse-error"@);
            assert(reported(repo::units_errors(units, units.len()), "parse-error"@));
        }
        if 0 <= i < units.len() && units[i].content is Ok && units[i].content->Ok_0.schema
            != SUPPORTED_SCHEMA {
            assert(reported(f(i), "unsupported-schema"@));
            lemma_reported_in_each(units.len(), f, i, "unsupported-schema"@);
            assert(reported(repo::units_errors(units, units.len()), "unsupported-schema"@));
        }
        if 0 <= i < dirs.len() && given[i] is None {
            assert(reported(g(i), "missing-entities-dir"@));
            lemma_reported_in_each(dirs.len(), g, i, "missing-entities-dir"@);
            assert(reported(
                repo::all_dir_errors(dirs, given, dirs.len()),
                "missing-entities-dir"@,
            ));
        }
    }
}

} // verus!

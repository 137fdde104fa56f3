//! The roster of an accepted house: no two units, no two entities and no two
//! addresses of a unit are the same, and what that and the other sections
//! come to for the house as a whole.

use crate::acceptance;
use crate::composition;
use crate::expand;
use crate::grants;
use crate::order;
use crate::policies;
use crate::reach;
use crate::repo::House;
use crate::repo::LoadedEntity;
use crate::repo::LoadedUnit;
use crate::text;
use crate::validate;
use vstd::prelude::*;

verus! {

proof fn lemma_count<T>(n: nat, f: spec_fn(int) -> Seq<T>, p: spec_fn(int) -> bool)
    requires
        forall|i: int| 0 <= i < n ==> (#[trigger] f(i)).len() == if p(i) {
            1nat
        } else {
            0nat
        },
    ensures
        text::each(n, f).len() >= 1 <==> exists|i: int| 0 <= i < n && #[trigger] p(i),
        text::each(n, f).len() >= 2 <==> exists|i: int, j: int|
            0 <= i < j < n && #[trigger] p(i) && #[trigger] p(j),
    decreases n,
{
    if n > 0 {
        let m = (n - 1) as nat;
        lemma_count(m, f, p);
        assert(text::each(n, f).len() == text::each(m, f).len() + f(m as int).len());
        if p(m as int) && text::each(m, f).len() >= 1 {
            let i = choose|i: int| 0 <= i < m && #[trigger] p(i);
            assert(p(i) && p(m as int));
        }
        if exists|i: int, j: int| 0 <= i < j < n && #[trigger] p(i) && #[trigger] p(j) {
            let (i, j) = choose|i: int, j: int|
                0 <= i < j < n && #[trigger] p(i) && #[trigger] p(j);
            assert(0 <= i < m && p(i));
        }
    }
}

proof fn lemma_unit_paths(
    units: Seq<LoadedUnit>,
    name: Seq<char>,
    n: nat,
    g: spec_fn(int) -> Seq<Seq<char>>,
)
    requires
        forall|i: int| #[trigger]
            g(i) == text::only_if(units[i].manifest.unit.name@ == name, units[i].path@),
    ensures
        validate::unit_paths(units, name, n) == text::each(n, g),
    decreases n,
{
    if n > 0 {
        lemma_unit_paths(units, name, (n - 1) as nat, g);
    }
}

proof fn lemma_entity_paths(
    entities: Seq<LoadedEntity>,
    name: Seq<char>,
    n: nat,
    g: spec_fn(int) -> Seq<Seq<char>>,
)
    requires
        forall|i: int| #[trigger]
            g(i) == text::only_if(entities[i].name@ == name, entities[i].path@),
    ensures
        validate::entity_paths(entities, name, n) == text::each(n, g),
    decreases n,
{
    if n > 0 {
        lemma_entity_paths(entities, name, (n - 1) as nat, g);
    }
}

proof fn lemma_units_once(h: House)
    ensures
        validate::shared_unit_errors(h, validate::all_unit_names(h.units@).len()).len() == 0
            <==> forall|i: int, j: int|
            0 <= i < j < h.units@.len() ==> (#[trigger] h.units@[i]).manifest.unit.name@ != (
            #[trigger] h.units@[j]).manifest.unit.name@,
{
    let units = h.units@;
    let all = validate::all_unit_names(units);
    let named = Seq::new(units.len(), |i: int| units[i].manifest.unit.name@);
    order::lemma_distinct(named);
    let f = |i: int|
        validate::shared_name_errors(
            "duplicate-unit-name"@,
            all[i],
            validate::unit_paths(units, all[i], units.len()),
        );
    text::lemma_each_empty(all.len(), f);
    assert forall|k: int| 0 <= k < all.len() implies ((#[trigger] f(k)).len() == 0 <==> !(exists|
        i: int,
        j: int,
    |
        0 <= i < j < units.len() && (#[trigger] units[i]).manifest.unit.name@ == all[k] && (
        #[trigger] units[j]).manifest.unit.name@ == all[k])) by {
        let name = all[k];
        let g = |i: int|
            text::only_if(units[i].manifest.unit.name@ == name, units[i].path@);
        let p = |i: int| units[i].manifest.unit.name@ == name;
        lemma_unit_paths(units, name, units.len(), g);
        lemma_count(units.len(), g, p);
        if exists|i: int, j: int| 0 <= i < j < units.len() && #[trigger] p(i) && #[trigger] p(j) {
            let (i, j) = choose|i: int, j: int|
                0 <= i < j < units.len() && #[trigger] p(i) && #[trigger] p(j);
            assert(units[i].manifest.unit.name@ == name && units[j].manifest.unit.name@ == name);
        }
        if exists|i: int, j: int|
            0 <= i < j < units.len() && (#[trigger] units[i]).manifest.unit.name@ == all[k] && (
            #[trigger] units[j]).manifest.unit.name@ == all[k] {
            let (i, j) = choose|i: int, j: int|
                0 <= i < j < units.len() && (#[trigger] units[i]).manifest.unit.name@ == all[k] && (
                #[trigger] units[j]).manifest.unit.name@ == all[k];
            assert(p(i) && p(j));
        }
    }
    if validate::shared_unit_errors(h, all.len()).len() == 0 {
        assert forall|i: int, j: int| 0 <= i < j < units.len() implies (
        #[trigger] units[i]).manifest.unit.name@ != (#[trigger] units[j]).manifest.unit.name@ by {
            if units[i].manifest.unit.name@ == units[j].manifest.unit.name@ {
                assert(named[i] == units[i].manifest.unit.name@);
                assert(named.contains(named[i]));
                let k = all.index_of(named[i]);
                assert(f(k).len() == 0);
            }
        }
    }
}

proof fn lemma_entities_once(h: House)
    ensures
        validate::shared_entity_errors(h, validate::all_entity_names(h.entities@).len()).len() == 0
            <==> forall|i: int, j: int|
            0 <= i < j < h.entities@.len() ==> (#[trigger] h.entities@[i]).name@ != (
            #[trigger] h.entities@[j]).name@,
{
    let entities = h.entities@;
    let all = validate::all_entity_names(entities);
    let named = Seq::new(entities.len(), |i: int| entities[i].name@);
    order::lemma_distinct(named);
    let f = |i: int|
        validate::shared_name_errors(
            "duplicate-entity-name"@,
            all[i],
            validate::entity_paths(entities, all[i], entities.len()),
        );
    text::lemma_each_empty(all.len(), f);
    assert forall|k: int| 0 <= k < all.len() implies ((#[trigger] f(k)).len() == 0 <==> !(exists|
        i: int,
        j: int,
    |
        0 <= i < j < entities.len() && (#[trigger] entities[i]).name@ == all[k] && (
        #[trigger] entities[j]).name@ == all[k])) by {
        let name = all[k];
        let g = |i: int| text::only_if(entities[i].name@ == name, entities[i].path@);
        let p = |i: int| entities[i].name@ == name;
        lemma_entity_paths(entities, name, entities.len(), g);
        lemma_count(entities.len(), g, p);
        if exists|i: int, j: int|
            0 <= i < j < entities.len() && #[trigger] p(i) && #[trigger] p(j) {
            let (i, j) = choose|i: int, j: int|
                0 <= i < j < entities.len() && #[trigger] p(i) && #[trigger] p(j);
            assert(entities[i].name@ == name && entities[j].name@ == name);
        }
        if exists|i: int, j: int|
            0 <= i < j < entities.len() && (#[trigger] entities[i]).name@ == all[k] && (
            #[trigger] entities[j]).name@ == all[k] {
            let (i, j) = choose|i: int, j: int|
                0 <= i < j < entities.len() && (#[trigger] entities[i]).name@ == all[k] && (
                #[trigger] entities[j]).name@ == all[k];
            assert(p(i) && p(j));
        }
    }
    if validate::shared_entity_errors(h, all.len()).len() == 0 {
        assert forall|i: int, j: int| 0 <= i < j < entities.len() implies (
        #[trigger] entities[i]).name@ != (#[trigger] entities[j]).name@ by {
            if entities[i].name@ == entities[j].name@ {
                assert(named[i] == entities[i].name@);
                assert(named.contains(named[i]));
                let k = all.index_of(named[i]);
                assert(f(k).len() == 0);
            }
        }
    }
}

/// The two entities have one address: the same id under the same unit.
pub open spec fn same_address(a: LoadedEntity, b: LoadedEntity) -> bool {
    &&& a.owner@ == b.owner@
    &&& a.file.entity.id is Some
    &&& b.file.entity.id is Some
    &&& a.file.entity.id->Some_0@ == b.file.entity.id->Some_0@
}

proof fn lemma_addresses_once(h: House)
    ensures
        validate::shared_id_errors(h, validate::all_addresses(h.entities@).len()).len() == 0
            <==> forall|i: int, j: int|
            0 <= i < j < h.entities@.len() ==> !same_address(
                #[trigger] h.entities@[i],
                #[trigger] h.entities@[j],
            ),
{
    let entities = h.entities@;
    let raw = validate::addresses(entities, entities.len());
    let sorted = order::sorted::<(String, String)>(raw);
    let all = validate::all_addresses(entities);
    let f = |i: int| validate::shared_address_errors(entities, all[i]);
    text::lemma_each_empty(all.len(), f);
    assert forall|k: int| 0 <= k < all.len() implies ((#[trigger] f(k)).len() == 0 <==> !(exists|
        i: int,
        j: int,
    |
        0 <= i < j < entities.len() && #[trigger] validate::has_address(
            entities[i],
            all[k].0,
            all[k].1,
        ) && #[trigger] validate::has_address(entities[j], all[k].0, all[k].1))) by {
        let owner = all[k].0;
        let id = all[k].1;
        let g = |i: int|
            text::only_if(validate::has_address(entities[i], owner, id), entities[i].path@);
        let p = |i: int| validate::has_address(entities[i], owner, id);
        lemma_count(entities.len(), g, p);
        if exists|i: int, j: int|
            0 <= i < j < entities.len() && #[trigger] p(i) && #[trigger] p(j) {
            let (i, j) = choose|i: int, j: int|
                0 <= i < j < entities.len() && #[trigger] p(i) && #[trigger] p(j);
            assert(validate::has_address(entities[i], all[k].0, all[k].1)
                && validate::has_address(entities[j], all[k].0, all[k].1));
        }
        if exists|i: int, j: int|
            0 <= i < j < entities.len() && #[trigger] validate::has_address(
                entities[i],
                all[k].0,
                all[k].1,
            ) && #[trigger] validate::has_address(entities[j], all[k].0, all[k].1) {
            let (i, j) = choose|i: int, j: int|
                0 <= i < j < entities.len() && #[trigger] validate::has_address(
                    entities[i],
                    all[k].0,
                    all[k].1,
                ) && #[trigger] validate::has_address(entities[j], all[k].0, all[k].1);
            assert(p(i) && p(j));
        }
    }
    if validate::shared_id_errors(h, all.len()).len() == 0 {
        assert forall|i: int, j: int| 0 <= i < j < entities.len() implies !same_address(
            #[trigger] entities[i],
            #[trigger] entities[j],
        ) by {
            if same_address(entities[i], entities[j]) {
                let x = (entities[i].owner@, entities[i].file.entity.id->Some_0@);
                let a = |i: int|
                    match entities[i].file.entity.id {
                        Some(id) => seq![(entities[i].owner@, id@)],
                        None => Seq::empty(),
                    };
                assert(a(i)[0] == x);
                assert(a(i).contains(x));
                text::lemma_each_has(entities.len(), a, i, x);
                order::lemma_sorted::<(String, String)>(raw);
                vstd::seq_lib::to_multiset_contains(raw, x);
                vstd::seq_lib::to_multiset_contains(sorted, x);
                order::lemma_deduped_keeps(sorted, x);
                let k = all.index_of(x);
                assert(f(k).len() == 0);
                assert(validate::has_address(entities[i], all[k].0, all[k].1)
                    && validate::has_address(entities[j], all[k].0, all[k].1));
            }
        }
    } else {
        let k = choose|k: int| 0 <= k < all.len() && (#[trigger] f(k)).len() != 0;
        let (i, j) = choose|i: int, j: int|
            0 <= i < j < entities.len() && #[trigger] validate::has_address(
                entities[i],
                all[k].0,
                all[k].1,
            ) && #[trigger] validate::has_address(entities[j], all[k].0, all[k].1);
        assert(same_address(entities[i], entities[j]));
    }
}

/// No two units have one name, no two entities have one name, and no two
/// entities have one address.
pub open spec fn everything_once(h: House) -> bool {
    &&& forall|i: int, j: int|
        0 <= i < j < h.units@.len() ==> (#[trigger] h.units@[i]).manifest.unit.name@ != (
        #[trigger] h.units@[j]).manifest.unit.name@
    &&& forall|i: int, j: int|
        0 <= i < j < h.entities@.len() ==> (#[trigger] h.entities@[i]).name@ != (
        #[trigger] h.entities@[j]).name@
    &&& forall|i: int, j: int|
        0 <= i < j < h.entities@.len() ==> !same_address(
            #[trigger] h.entities@[i],
            #[trigger] h.entities@[j],
        )
}

/// Nothing is said about duplicates exactly where there are none.
pub proof fn law_everything_is_there_once(h: House)
    ensures
        validate::duplicates_errors(h).len() == 0 <==> everything_once(h),
{
    lemma_units_once(h);
    lemma_entities_once(h);
    lemma_addresses_once(h);
}

/// A house is accepted exactly where each section of the checks finds what
/// it looks at in order: nothing that is in order is refused, and nothing
/// else is let through.
pub proof fn law_a_house_is_accepted_section_by_section(h: House)
    ensures
        ({
            let keys = expand::house_keys(h, h.units@.len());
            let table = grants::grant_table(h, keys);
            crate::check_errors(h).len() == 0 <==> {
                &&& validate::names_errors(h).len() == 0
                &&& everything_once(h)
                &&& forall|i: int|
                    0 <= i < h.units@.len() ==> acceptance::sections_fit(#[trigger] h.units@[i])
                &&& forall|i: int|
                    0 <= i < h.entities@.len() ==> acceptance::entity_in_order(
                        h,
                        #[trigger] h.entities@[i],
                    )
                &&& forall|i: int|
                    0 <= i < h.zones@.len() ==> acceptance::zone_in_order(
                        h,
                        (#[trigger] h.zones@[i]).0@,
                        h.zones@[i].1@,
                    )
                &&& validate::params_errors(h, h.units@.len()).len() == 0
                &&& validate::dashboard_errors(h).len() == 0
                &&& forall|i: int|
                    0 <= i < h.units@.len() ==> composition::keys_in_order(#[trigger] h.units@[i])
                &&& grants::all_capability_errors(h, keys, keys.len()).len() == 0
                &&& grants::all_exclusive_errors(h, table, h.entities@.len()).len() == 0
                &&& forall|m: int|
                    0 <= m < h.entities@.len() && reach::write_mode(#[trigger] h.entities@[m])
                        == crate::manifest::WriteMode::Arbitrated ==> policies::is_arbitrated_for(
                        keys,
                        h.entities@[m],
                    )
                &&& grants::all_latch_errors(h, keys, table, table.len()).len() == 0
                &&& grants::cycle_errors(table).len() == 0
                &&& grants::all_state_errors(h, keys, keys.len()).len() == 0
                &&& grants::all_reserved_errors(h, keys, keys.len()).len() == 0
                &&& grants::house_feed_errors(h, keys, h.entities@.len()).len() == 0
            }
        }),
{
    let keys = expand::house_keys(h, h.units@.len());
    law_everything_is_there_once(h);
    acceptance::law_sections_fit_the_kind(h);
    acceptance::law_entities_are_in_order(h);
    acceptance::law_zones_are_in_order(h);
    composition::law_declared_keys_are_in_order(h);
    policies::law_arbitrated_entities_are_served(h, keys);
}

} // verus!

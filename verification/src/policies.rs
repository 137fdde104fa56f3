//! What a house that is accepted keeps to: who may write onto an entity, who
//! brings its commands, who publishes its state, and which classes a unit
//! may publish under.

use crate::expand::Direction;
use crate::expand::ExpandedView;
use crate::grants;
use crate::grants::GrantView;
use crate::graph;
use crate::keyspace;
use crate::keyspace::SegmentView;
use crate::manifest::Priority;
use crate::manifest::UnitKind;
use crate::manifest::WriteMode;
use crate::names;
use crate::order;
use crate::plan;
use crate::plan::DiffView;
use crate::plan::StepAction;
use crate::plan::Tier;
use crate::plan::World;
use crate::reach::lemma_touches;
use crate::reach::touches;
use crate::reach::write_mode;
use crate::repo;
use crate::repo::House;
use crate::repo::LoadedEntity;
use crate::repo::LoadedUnit;
use crate::text;
use vstd::prelude::*;

verus! {

/// Entity `j` of grant `i` is the named one, and the grant is below the
/// manual band.
pub open spec fn writes(table: Seq<GrantView>, i: int, j: int, name: Seq<char>) -> bool {
    &&& 0 <= i < table.len()
    &&& 0 <= j < table[i].entities.len()
    &&& table[i].priority != Priority::Manual
    &&& table[i].entities[j].name == name
}

/// Entity `j` of the grant is the named one.
spec fn is_at(g: GrantView, j: int, name: Seq<char>) -> bool {
    g.entities[j].name == name
}

/// How many of the first `n` entities of the grant are the named one.
spec fn count_at(g: GrantView, name: Seq<char>, n: nat) -> nat
    decreases n,
{
    if n == 0 {
        0
    } else if is_at(g, n - 1, name) {
        count_at(g, name, (n - 1) as nat) + 1
    } else {
        count_at(g, name, (n - 1) as nat)
    }
}

proof fn lemma_writes_len(g: GrantView, name: Seq<char>, n: nat)
    ensures
        grants::writes_onto(g, name, n).len() == count_at(g, name, n),
    decreases n,
{
    if n > 0 {
        lemma_writes_len(g, name, (n - 1) as nat);
    }
}

proof fn lemma_count_at(g: GrantView, name: Seq<char>, n: nat)
    ensures
        count_at(g, name, n) >= 1 <==> exists|j: int| 0 <= j < n && #[trigger] is_at(g, j, name),
        count_at(g, name, n) >= 2 <==> exists|j: int, k: int|
            0 <= j < k < n && #[trigger] is_at(g, j, name) && #[trigger] is_at(g, k, name),
    decreases n,
{
    if n > 0 {
        let m = (n - 1) as nat;
        lemma_count_at(g, name, m);
        if is_at(g, n - 1, name) && count_at(g, name, m) >= 1 {
            let j = choose|j: int| 0 <= j < m && #[trigger] is_at(g, j, name);
            assert(is_at(g, j, name) && is_at(g, n - 1, name));
        }
        if exists|j: int, k: int|
            0 <= j < k < n && #[trigger] is_at(g, j, name) && #[trigger] is_at(g, k, name) {
            let (j, k) = choose|j: int, k: int|
                0 <= j < k < n && #[trigger] is_at(g, j, name) && #[trigger] is_at(g, k, name);
            assert(0 <= j < m && is_at(g, j, name));
        }
    }
}

proof fn lemma_writes_onto(g: GrantView, name: Seq<char>, n: nat)
    ensures
        grants::writes_onto(g, name, n).len() >= 1 <==> exists|j: int|
            0 <= j < n && #[trigger] is_at(g, j, name),
        grants::writes_onto(g, name, n).len() >= 2 <==> exists|j: int, k: int|
            0 <= j < k < n && #[trigger] is_at(g, j, name) && #[trigger] is_at(g, k, name),
{
    lemma_writes_len(g, name, n);
    lemma_count_at(g, name, n);
}

proof fn lemma_writers(table: Seq<GrantView>, name: Seq<char>, n: nat)
    requires
        n <= table.len(),
    ensures
        grants::writers_of(table, name, n).len() >= 1 <==> exists|i: int, j: int|
            i < n && #[trigger] writes(table, i, j, name),
        grants::writers_of(table, name, n).len() >= 2 <==> exists|
            i: int,
            j: int,
            k: int,
            l: int,
        |
            i < n && k < n && (i < k || i == k && j < l) && #[trigger] writes(table, i, j, name)
                && #[trigger] writes(table, k, l, name),
    decreases n,
{
    if n > 0 {
        let m = (n - 1) as nat;
        lemma_writers(table, name, m);
        let g = table[m as int];
        let before = grants::writers_of(table, name, m);
        let part = if g.priority == Priority::Manual {
            Seq::empty()
        } else {
            grants::writes_onto(g, name, g.entities.len())
        };
        assert(grants::writers_of(table, name, n) =~= before + part);
        lemma_writes_onto(g, name, g.entities.len());
        let all = before + part;
        if part.len() >= 1 {
            let j = choose|j: int| 0 <= j < g.entities.len() && #[trigger] is_at(g, j, name);
            assert(writes(table, m as int, j, name));
            if before.len() >= 1 {
                let (a, b) = choose|a: int, b: int| a < m && #[trigger] writes(table, a, b, name);
                assert(writes(table, a, b, name) && writes(table, m as int, j, name));
            }
        }
        if part.len() >= 2 {
            let (j, l) = choose|j: int, l: int|
                0 <= j < l < g.entities.len() && #[trigger] is_at(g, j, name) && #[trigger] is_at(
                    g,
                    l,
                    name,
                );
            assert(writes(table, m as int, j, name) && writes(table, m as int, l, name));
        }
        if exists|i: int, j: int| i < n && #[trigger] writes(table, i, j, name) {
            let (i, j) = choose|i: int, j: int| i < n && #[trigger] writes(table, i, j, name);
            if i == m {
                assert(is_at(g, j, name));
            } else {
                assert(i < m && writes(table, i, j, name));
            }
        }
        if exists|i: int, j: int, k: int, l: int|
            i < n && k < n && (i < k || i == k && j < l) && #[trigger] writes(table, i, j, name)
                && #[trigger] writes(table, k, l, name) {
            let (i, j, k, l) = choose|i: int, j: int, k: int, l: int|
                i < n && k < n && (i < k || i == k && j < l) && #[trigger] writes(
                    table,
                    i,
                    j,
                    name,
                ) && #[trigger] writes(table, k, l, name);
            if k < m {
                assert(writes(table, i, j, name) && writes(table, k, l, name));
            } else {
                assert(is_at(g, l, name));
                if i == m {
                    assert(is_at(g, j, name));
                } else {
                    assert(i < m && writes(table, i, j, name));
                }
            }
        }
    }
}

/// Nothing is said about exclusive entities exactly where no exclusive
/// entity has two records of grants below the manual band. Grants of the
/// manual band never count.
pub proof fn law_exclusive_entities_have_one_writer(h: House, table: Seq<GrantView>)
    ensures
        grants::all_exclusive_errors(h, table, h.entities@.len()).len() == 0 <==> forall|
            m: int,
            i: int,
            j: int,
            k: int,
            l: int,
        |
            #![trigger h.entities@[m], writes(table, i, j, h.entities@[m].name@), writes(table, k, l, h.entities@[m].name@)]
            0 <= m < h.entities@.len() && write_mode(h.entities@[m]) == WriteMode::Exclusive
                && writes(table, i, j, h.entities@[m].name@) && writes(
                table,
                k,
                l,
                h.entities@[m].name@,
            ) ==> i == k && j == l,
{
    let n = h.entities@.len();
    let f = |i: int| grants::exclusive_errors(h.entities@[i], table);
    text::lemma_each_empty(n, f);
    assert forall|m: int| 0 <= m < n implies ((#[trigger] f(m)).len() == 0 <==> !(write_mode(
        h.entities@[m],
    ) == WriteMode::Exclusive && grants::writers_of(
        table,
        h.entities@[m].name@,
        table.len(),
    ).len() >= 2)) by {}
    if grants::all_exclusive_errors(h, table, n).len() == 0 {
        assert forall|m: int, i: int, j: int, k: int, l: int|
            #![trigger h.entities@[m], writes(table, i, j, h.entities@[m].name@), writes(table, k, l, h.entities@[m].name@)]
            0 <= m < n && write_mode(h.entities@[m]) == WriteMode::Exclusive && writes(
                table,
                i,
                j,
                h.entities@[m].name@,
            ) && writes(table, k, l, h.entities@[m].name@) implies i == k && j == l by {
            let name = h.entities@[m].name@;
            assert(f(m).len() == 0);
            lemma_writers(table, name, table.len());
            if i < k || i == k && j < l {
                assert(writes(table, i, j, name) && writes(table, k, l, name));
            } else if k < i || i == k && l < j {
                assert(writes(table, k, l, name) && writes(table, i, j, name));
            }
        }
    } else {
        let m = choose|m: int| 0 <= m < n && (#[trigger] f(m)).len() != 0;
        let name = h.entities@[m].name@;
        lemma_writers(table, name, table.len());
        let (i, j, k, l) = choose|i: int, j: int, k: int, l: int|
            i < table.len() && k < table.len() && (i < k || i == k && j < l) && #[trigger] writes(
                table,
                i,
                j,
                name,
            ) && #[trigger] writes(table, k, l, name);
        assert(writes(table, i, j, h.entities@[m].name@) && writes(
            table,
            k,
            l,
            h.entities@[m].name@,
        ));
    }
}

/// Expression `c` of the key is of the class and stands for a key of the
/// entity under it.
pub open spec fn brings(x: ExpandedView, c: int, class: Seq<char>, e: LoadedEntity) -> bool {
    &&& 0 <= c < x.exprs.len()
    &&& x.exprs[c].len() > 1
    &&& x.exprs[c][1] == SegmentView::Literal(class)
    &&& touches(x.exprs[c], class, e.file.entity.room@, e.name@)
}

proof fn lemma_brings(x: ExpandedView, class: Seq<char>, e: LoadedEntity)
    ensures
        grants::any_of_class_covers(
            x.exprs,
            class,
            grants::subtree(class, e.file.entity.room@, e.name@),
        ) <==> exists|c: int| #[trigger] brings(x, c, class, e),
{
    let prefix = grants::subtree(class, e.file.entity.room@, e.name@);
    if grants::any_of_class_covers(x.exprs, class, prefix) {
        let c = choose|c: int|
            0 <= c < x.exprs.len() && keyspace::class_of(#[trigger] x.exprs[c]) == Some(class)
                && keyspace::covers(x.exprs[c], prefix);
        lemma_touches(x.exprs[c], class, e.file.entity.room@, e.name@);
        assert(brings(x, c, class, e));
    }
    if exists|c: int| #[trigger] brings(x, c, class, e) {
        let c = choose|c: int| #[trigger] brings(x, c, class, e);
        lemma_touches(x.exprs[c], class, e.file.entity.room@, e.name@);
        assert(keyspace::class_of(x.exprs[c]) == Some(class));
    }
}

/// Some published key of the house brings arbitrated commands to the entity.
pub open spec fn is_arbitrated_for(keys: Seq<ExpandedView>, e: LoadedEntity) -> bool {
    exists|n: int, c: int|
        0 <= n < keys.len() && keys[n].direction == Direction::Publishes && #[trigger] brings(
            keys[n],
            c,
            "arbiter"@,
            e,
        )
}

/// Some key that the entity's owner subscribes to brings it the entity's
/// commands.
pub open spec fn hears_commands(keys: Seq<ExpandedView>, e: LoadedEntity) -> bool {
    exists|n: int, c: int|
        0 <= n < keys.len() && keys[n].unit == e.owner@ && keys[n].direction
            == Direction::Subscribes && #[trigger] brings(keys[n], c, "cmd"@, e)
}

proof fn lemma_arbitrated(keys: Seq<ExpandedView>, e: LoadedEntity)
    ensures
        grants::arbiter_covers(keys, e) <==> is_arbitrated_for(keys, e),
{
    if grants::arbiter_covers(keys, e) {
        let n = choose|n: int|
            0 <= n < keys.len() && (#[trigger] keys[n]).direction == Direction::Publishes
                && grants::any_of_class_covers(
                keys[n].exprs,
                "arbiter"@,
                grants::subtree("arbiter"@, e.file.entity.room@, e.name@),
            );
        lemma_brings(keys[n], "arbiter"@, e);
        let c = choose|c: int| #[trigger] brings(keys[n], c, "arbiter"@, e);
        assert(brings(keys[n], c, "arbiter"@, e));
    }
    if is_arbitrated_for(keys, e) {
        let (n, c) = choose|n: int, c: int|
            0 <= n < keys.len() && keys[n].direction == Direction::Publishes && #[trigger] brings(
                keys[n],
                c,
                "arbiter"@,
                e,
            );
        lemma_brings(keys[n], "arbiter"@, e);
        assert(keys[n].direction == Direction::Publishes);
    }
}

proof fn lemma_hears(keys: Seq<ExpandedView>, e: LoadedEntity)
    ensures
        grants::owner_listens(keys, e) <==> hears_commands(keys, e),
{
    if grants::owner_listens(keys, e) {
        let n = choose|n: int|
            0 <= n < keys.len() && (#[trigger] keys[n]).unit == e.owner@ && keys[n].direction
                == Direction::Subscribes && grants::any_of_class_covers(
                keys[n].exprs,
                "cmd"@,
                grants::subtree("cmd"@, e.file.entity.room@, e.name@),
            );
        lemma_brings(keys[n], "cmd"@, e);
        let c = choose|c: int| #[trigger] brings(keys[n], c, "cmd"@, e);
        assert(brings(keys[n], c, "cmd"@, e));
    }
    if hears_commands(keys, e) {
        let (n, c) = choose|n: int, c: int|
            0 <= n < keys.len() && keys[n].unit == e.owner@ && keys[n].direction
                == Direction::Subscribes && #[trigger] brings(keys[n], c, "cmd"@, e);
        lemma_brings(keys[n], "cmd"@, e);
        assert(keys[n].unit == e.owner@);
    }
}

/// Nothing is said about arbitrated entities exactly where every arbitrated
/// entity has a publish of the arbiter class that reaches it.
pub proof fn law_arbitrated_entities_are_served(h: House, keys: Seq<ExpandedView>)
    ensures
        grants::all_arbitrated_errors(h, keys, h.entities@.len()).len() == 0 <==> forall|m: int|
            0 <= m < h.entities@.len() && write_mode(#[trigger] h.entities@[m])
                == WriteMode::Arbitrated ==> is_arbitrated_for(keys, h.entities@[m]),
{
    let n = h.entities@.len();
    let f = |i: int| grants::arbitrated_errors(h.entities@[i], keys);
    text::lemma_each_empty(n, f);
    assert forall|m: int| 0 <= m < n implies ((#[trigger] f(m)).len() == 0 <==> (write_mode(
        h.entities@[m],
    ) == WriteMode::Arbitrated ==> is_arbitrated_for(keys, h.entities@[m]))) by {
        lemma_arbitrated(keys, h.entities@[m]);
    }
    if grants::all_arbitrated_errors(h, keys, n).len() == 0 {
        assert forall|m: int|
            0 <= m < n && write_mode(#[trigger] h.entities@[m])
                == WriteMode::Arbitrated implies is_arbitrated_for(keys, h.entities@[m]) by {
            assert(f(m).len() == 0);
        }
    }
}

/// The first of the units with the name is an automation.
pub open spec fn names_automation(h: House, name: Seq<char>) -> bool {
    exists|i: int| #[trigger] is_first_unit(h.units@, i, name) && h.units@[i].manifest.unit.kind
        == UnitKind::Automation
}

/// Unit `i` is the first with the name.
pub open spec fn is_first_unit(units: Seq<LoadedUnit>, i: int, name: Seq<char>) -> bool {
    &&& 0 <= i < units.len()
    &&& units[i].manifest.unit.name@ == name
    &&& forall|v: int| 0 <= v < i ==> (#[trigger] units[v]).manifest.unit.name@ != name
}

/// Entity `i` is the first with the name.
pub open spec fn is_first_entity(entities: Seq<LoadedEntity>, i: int, name: Seq<char>) -> bool {
    &&& 0 <= i < entities.len()
    &&& entities[i].name@ == name
    &&& forall|v: int| 0 <= v < i ==> (#[trigger] entities[v]).name@ != name
}

/// Units are looked up by name, and the first of a name is found; none is
/// found where there is none of the name.
pub proof fn law_units_are_found_by_name(units: Seq<LoadedUnit>, name: Seq<char>)
    ensures
        match repo::unit_named(units, name) {
            Some(u) => exists|i: int| #[trigger] is_first_unit(units, i, name) && units[i] == u,
            None => forall|i: int|
                0 <= i < units.len() ==> (#[trigger] units[i]).manifest.unit.name@ != name,
        },
    decreases units.len(),
{
    if units.len() > 0 {
        if units[0].manifest.unit.name@ == name {
            assert(is_first_unit(units, 0, name));
        } else {
            let d = units.drop_first();
            law_units_are_found_by_name(d, name);
            if repo::unit_named(d, name) is Some {
                let i = choose|i: int|
                    #[trigger] is_first_unit(d, i, name) && d[i] == repo::unit_named(
                        d,
                        name,
                    )->Some_0;
                assert(is_first_unit(units, i + 1, name)) by {
                    assert forall|v: int| 0 <= v < i + 1 implies (
                    #[trigger] units[v]).manifest.unit.name@ != name by {
                        if v > 0 {
                            assert(d[v - 1] == units[v]);
                        }
                    }
                }
            } else {
                assert forall|i: int| 0 <= i < units.len() implies (
                #[trigger] units[i]).manifest.unit.name@ != name by {
                    if i > 0 {
                        assert(d[i - 1] == units[i]);
                    }
                }
            }
        }
    }
}

/// The same of entities.
pub proof fn law_entities_are_found_by_name(entities: Seq<LoadedEntity>, name: Seq<char>)
    ensures
        match repo::entity_named(entities, name) {
            Some(e) => exists|i: int|
                #[trigger] is_first_entity(entities, i, name) && entities[i] == e,
            None => forall|i: int| 0 <= i < entities.len() ==> (#[trigger] entities[i]).name@ != name,
        },
    decreases entities.len(),
{
    if entities.len() > 0 {
        if entities[0].name@ == name {
            assert(is_first_entity(entities, 0, name));
        } else {
            let d = entities.drop_first();
            law_entities_are_found_by_name(d, name);
            if repo::entity_named(d, name) is Some {
                let i = choose|i: int|
                    #[trigger] is_first_entity(d, i, name) && d[i] == repo::entity_named(
                        d,
                        name,
                    )->Some_0;
                assert(is_first_entity(entities, i + 1, name)) by {
                    assert forall|v: int| 0 <= v < i + 1 implies (
                    #[trigger] entities[v]).name@ != name by {
                        if v > 0 {
                            assert(d[v - 1] == entities[v]);
                        }
                    }
                }
            } else {
                assert forall|i: int| 0 <= i < entities.len() implies (
                #[trigger] entities[i]).name@ != name by {
                    if i > 0 {
                        assert(d[i - 1] == entities[i]);
                    }
                }
            }
        }
    }
}

pub proof fn lemma_first_entity(entities: Seq<LoadedEntity>, i: int, name: Seq<char>)
    requires
        is_first_entity(entities, i, name),
    ensures
        repo::entity_named(entities, name) == Some(entities[i]),
{
    law_entities_are_found_by_name(entities, name);
    if repo::entity_named(entities, name) is Some {
        let k = choose|k: int|
            #[trigger] is_first_entity(entities, k, name) && entities[k] == repo::entity_named(
                entities,
                name,
            )->Some_0;
        assert(k == i) by {
            if k < i {
                assert(entities[k].name@ != name);
            } else if i < k {
                assert(entities[i].name@ != name);
            }
        }
    } else {
        assert(entities[i].name@ != name);
    }
}

pub proof fn lemma_automation(h: House, name: Seq<char>)
    ensures
        grants::is_automation(h, name) <==> names_automation(h, name),
{
    law_units_are_found_by_name(h.units@, name);
    if names_automation(h, name) {
        let i = choose|i: int|
            #[trigger] is_first_unit(h.units@, i, name) && h.units@[i].manifest.unit.kind
                == UnitKind::Automation;
        assert(repo::unit_named(h.units@, name) is Some) by {
            if repo::unit_named(h.units@, name) is None {
                assert(h.units@[i].manifest.unit.name@ != name);
            }
        }
        let k = choose|k: int|
            #[trigger] is_first_unit(h.units@, k, name) && h.units@[k] == repo::unit_named(
                h.units@,
                name,
            )->Some_0;
        assert(k == i) by {
            if k < i {
                assert(h.units@[k].manifest.unit.name@ != name);
            } else if i < k {
                assert(h.units@[i].manifest.unit.name@ != name);
            }
        }
    }
}

/// A grant onto the entity needs no listener, or has one.
pub open spec fn latch_listens(h: House, keys: Seq<ExpandedView>, name: Seq<char>) -> bool {
    forall|m: int|
        #[trigger] is_first_entity(h.entities@, m, name) && names_automation(
            h,
            h.entities@[m].owner@,
        ) ==> hears_commands(keys, h.entities@[m])
}

/// Nothing is said about commanded virtual entities exactly where, of every
/// entity in the grant table that an automation binds, the automation
/// subscribes to the commands.
pub proof fn law_commanded_virtual_entities_are_heard(
    h: House,
    keys: Seq<ExpandedView>,
    table: Seq<GrantView>,
)
    ensures
        grants::all_latch_errors(h, keys, table, table.len()).len() == 0 <==> forall|i: int, j: int|
            #![trigger table[i].entities[j]]
            0 <= i < table.len() && 0 <= j < table[i].entities.len() ==> latch_listens(
                h,
                keys,
                table[i].entities[j].name,
            ),
{
    let f = |i: int| grants::grant_latch_errors(h, keys, table[i], table[i].entities.len());
    text::lemma_each_empty(table.len(), f);
    assert forall|i: int| 0 <= i < table.len() implies ((#[trigger] f(i)).len() == 0 <==> forall|
        j: int,
    |
        0 <= j < table[i].entities.len() ==> latch_listens(
            h,
            keys,
            (#[trigger] table[i].entities[j]).name,
        )) by {
        let g = table[i];
        let k = |j: int| grants::latch_errors(h, keys, g, g.entities[j].name);
        text::lemma_each_empty(g.entities.len(), k);
        assert forall|j: int| 0 <= j < g.entities.len() implies ((#[trigger] k(j)).len() == 0
            <==> latch_listens(h, keys, g.entities[j].name)) by {
            lemma_latch(h, keys, g, g.entities[j].name);
        }
        if f(i).len() == 0 {
            assert forall|j: int| 0 <= j < g.entities.len() implies latch_listens(
                h,
                keys,
                (#[trigger] table[i].entities[j]).name,
            ) by {
                assert(k(j).len() == 0);
            }
        }
    }
    if grants::all_latch_errors(h, keys, table, table.len()).len() == 0 {
        assert forall|i: int, j: int|
            #![trigger table[i].entities[j]]
            0 <= i < table.len() && 0 <= j < table[i].entities.len() implies latch_listens(
            h,
            keys,
            table[i].entities[j].name,
        ) by {
            assert(f(i).len() == 0);
        }
    }
}

proof fn lemma_latch(h: House, keys: Seq<ExpandedView>, g: GrantView, name: Seq<char>)
    ensures
        grants::latch_errors(h, keys, g, name).len() == 0 <==> latch_listens(h, keys, name),
{
    law_entities_are_found_by_name(h.entities@, name);
    match repo::entity_named(h.entities@, name) {
        None => {
            assert forall|m: int| !(#[trigger] is_first_entity(h.entities@, m, name)) by {
                if is_first_entity(h.entities@, m, name) {
                    assert(h.entities@[m].name@ != name);
                }
            }
        },
        Some(e) => {
            lemma_automation(h, e.owner@);
            lemma_hears(keys, e);
            let m = choose|m: int|
                #[trigger] is_first_entity(h.entities@, m, name) && h.entities@[m] == e;
            assert(is_first_entity(h.entities@, m, name));
            assert forall|k: int| #[trigger] is_first_entity(
                h.entities@,
                k,
                name,
            ) implies h.entities@[k] == e by {
                lemma_first_entity(h.entities@, k, name);
            }
        },
    }
}

/// The expression names, in its third and fourth segment, the room and name
/// of an entity that the unit binds.
pub open spec fn under_bound(h: House, unit: Seq<char>, k: Seq<SegmentView>) -> bool {
    exists|m: int|
        0 <= m < h.entities@.len() && (#[trigger] h.entities@[m]).owner@ == unit && k.len() > 3
            && k[2] == SegmentView::Literal(h.entities@[m].file.entity.room@) && k[3]
            == SegmentView::Literal(h.entities@[m].name@)
}

proof fn lemma_state_key(h: House, x: ExpandedView, k: Seq<SegmentView>)
    ensures
        grants::state_key_errors(h, x, k).len() == 0 <==> (k.len() > 1 && k[1]
            == SegmentView::Literal("state"@) ==> under_bound(h, x.unit, k)),
{
    let room = grants::literal_at(k, 2);
    let name = grants::literal_at(k, 3);
    if under_bound(h, x.unit, k) {
        let m = choose|m: int|
            0 <= m < h.entities@.len() && (#[trigger] h.entities@[m]).owner@ == x.unit && k.len()
                > 3 && k[2] == SegmentView::Literal(h.entities@[m].file.entity.room@) && k[3]
                == SegmentView::Literal(h.entities@[m].name@);
        assert(h.entities@[m].name@ == name->Some_0);
    }
    if room is Some && name is Some && grants::binds(h, x.unit, room->Some_0, name->Some_0) {
        let m = choose|m: int|
            0 <= m < h.entities@.len() && (#[trigger] h.entities@[m]).name@ == name->Some_0
                && h.entities@[m].owner@ == x.unit && h.entities@[m].file.entity.room@
                == room->Some_0;
        assert(h.entities@[m].owner@ == x.unit);
    }
}

/// Nothing is said about state keys exactly where every state expression
/// that is published without templates lies under an entity that its unit
/// binds, by room and name.
pub proof fn law_state_is_published_by_its_owner(h: House, keys: Seq<ExpandedView>)
    ensures
        grants::all_state_errors(h, keys, keys.len()).len() == 0 <==> forall|n: int, c: int|
            #![trigger keys[n].exprs[c]]
            0 <= n < keys.len() && keys[n].direction == Direction::Publishes && !keys[n].templated
                && 0 <= c < keys[n].exprs.len() && keys[n].exprs[c].len() > 1 && keys[n].exprs[c][1]
                == SegmentView::Literal("state"@) ==> under_bound(
                h,
                keys[n].unit,
                keys[n].exprs[c],
            ),
{
    let f = |i: int| grants::state_errors(h, keys[i], keys[i].exprs.len());
    text::lemma_each_empty(keys.len(), f);
    assert forall|n: int| 0 <= n < keys.len() implies ((#[trigger] f(n)).len() == 0 <==> (
    keys[n].direction == Direction::Publishes && !keys[n].templated ==> forall|c: int|
        0 <= c < keys[n].exprs.len() ==> ((#[trigger] keys[n].exprs[c]).len() > 1
            && keys[n].exprs[c][1] == SegmentView::Literal("state"@) ==> under_bound(
            h,
            keys[n].unit,
            keys[n].exprs[c],
        )))) by {
        let x = keys[n];
        let g = |j: int| grants::state_key_errors(h, x, x.exprs[j]);
        text::lemma_each_empty(x.exprs.len(), g);
        assert forall|c: int| 0 <= c < x.exprs.len() implies ((#[trigger] g(c)).len() == 0 <==> (
        x.exprs[c].len() > 1 && x.exprs[c][1] == SegmentView::Literal("state"@) ==> under_bound(
            h,
            x.unit,
            x.exprs[c],
        ))) by {
            lemma_state_key(h, x, x.exprs[c]);
        }
        if x.direction == Direction::Publishes && !x.templated && f(n).len() == 0 {
            assert forall|c: int| 0 <= c < keys[n].exprs.len() implies ((
            #[trigger] keys[n].exprs[c]).len() > 1 && keys[n].exprs[c][1] == SegmentView::Literal(
                "state"@,
            ) ==> under_bound(h, keys[n].unit, keys[n].exprs[c])) by {
                assert(g(c).len() == 0);
            }
        }
    }
    if grants::all_state_errors(h, keys, keys.len()).len() == 0 {
        assert forall|n: int, c: int|
            #![trigger keys[n].exprs[c]]
            0 <= n < keys.len() && keys[n].direction == Direction::Publishes && !keys[n].templated
                && 0 <= c < keys[n].exprs.len() && keys[n].exprs[c].len() > 1 && keys[n].exprs[c][1]
                == SegmentView::Literal("state"@) implies under_bound(
            h,
            keys[n].unit,
            keys[n].exprs[c],
        ) by {
            assert(f(n).len() == 0);
        }
    }
}

/// An edge of the walk leads from the owner of a granted entity to the unit
/// that the grant is for, and every such pair of two units is an edge.
pub proof fn law_edges_lead_from_owners(
    table: Seq<GrantView>,
    from: Seq<char>,
    to: Seq<char>,
)
    ensures
        grants::grant_edges_of(table, table.len()).contains((from, to)) <==> from != to && exists|
            i: int,
            j: int,
        |
            #![trigger table[i].entities[j]]
            0 <= i < table.len() && 0 <= j < table[i].entities.len() && table[i].unit == to
                && table[i].entities[j].owner == from,
{
    let edges = grants::grant_edges_of(table, table.len());
    let f = |i: int| grants::edges_of(table[i], table[i].entities.len());
    if edges.contains((from, to)) {
        let p = edges.index_of((from, to));
        let i = text::lemma_in_each(table.len(), f, p);
        assert(f(i).contains(edges[p]));
        let g = table[i];
        let part = grants::edges_of(g, g.entities.len());
        let k = |j: int|
            text::only_if(g.entities[j].owner != g.unit, (g.entities[j].owner, g.unit));
        let q = part.index_of((from, to));
        let j = text::lemma_in_each(g.entities.len(), k, q);
        assert(k(j).contains(part[q]));
        assert(table[i].entities[j].owner == from);
    }
    if from != to && exists|i: int, j: int|
        #![trigger table[i].entities[j]]
        0 <= i < table.len() && 0 <= j < table[i].entities.len() && table[i].unit == to
            && table[i].entities[j].owner == from {
        let (i, j) = choose|i: int, j: int|
            #![trigger table[i].entities[j]]
            0 <= i < table.len() && 0 <= j < table[i].entities.len() && table[i].unit == to
                && table[i].entities[j].owner == from;
        let g = table[i];
        let k = |j: int|
            text::only_if(g.entities[j].owner != g.unit, (g.entities[j].owner, g.unit));
        assert(k(j)[0] == (from, to));
        assert(k(j).contains((from, to)));
        text::lemma_each_has(g.entities.len(), k, j, (from, to));
        assert(f(i).contains((from, to)));
        text::lemma_each_has(table.len(), f, i, (from, to));
    }
}

/// The tier of a plan: structural where a unit comes or goes or a grant
/// does; else behavioral where a unit restarts; else parameter-only.
pub proof fn law_tiers_follow_from_the_changes(d: DiffView)
    ensures
        ({
            let structural = d.creates.len() + d.destroys.len() + d.grant_adds.len()
                + d.grant_removes.len() > 0;
            &&& plan::tier_of(d) == Tier::Structure <==> structural
            &&& plan::tier_of(d) == Tier::Behavioral <==> !structural && d.restarts.len() > 0
            &&& plan::tier_of(d) == Tier::ParameterOnly <==> !structural && d.restarts.len() == 0
        }),
{
}

/// A walk stops nothing but units to destroy, starts nothing but units to
/// create, and restarts nothing but units to restart.
pub proof fn law_steps_do_what_the_diff_says(
    d: DiffView,
    h: House,
    table: Seq<GrantView>,
    world: World,
    i: int,
)
    requires
        0 <= i < plan::walk_of(d, h, table, world).len(),
    ensures
        ({
            let step = plan::walk_of(d, h, table, world)[i];
            match step.action {
                StepAction::Stop => d.destroys.contains(step.unit),
                StepAction::Start => d.creates.contains(step.unit),
                StepAction::Restart => !d.creates.contains(step.unit) && exists|r: int|
                    0 <= r < d.restarts.len() && (#[trigger] d.restarts[r]).name == step.unit,
            }
        }),
{
    let stops = plan::stops_of(d, world);
    let starts = plan::starts_of(d, h, table);
    let step = plan::walk_of(d, h, table, world)[i];
    crate::laws::law_walk_is_complete(d, h, table, world);
    if i < stops.len() {
        let units = crate::laws::step_units(stops);
        assert(units[i] == step.unit);
        assert(units.contains(step.unit));
        vstd::seq_lib::to_multiset_contains(units, step.unit);
        let names = order::distinct(d.destroys);
        vstd::seq_lib::to_multiset_contains(names, step.unit);
        order::lemma_distinct(d.destroys);
        assert(d.destroys.contains(step.unit));
    } else {
        let k = i - stops.len();
        let units = crate::laws::step_units(starts);
        assert(starts[k] == step);
        assert(units[k] == step.unit);
        assert(units.contains(step.unit));
        vstd::seq_lib::to_multiset_contains(units, step.unit);
        let all = d.creates + Seq::new(d.restarts.len(), |r: int| d.restarts[r].name);
        vstd::seq_lib::to_multiset_contains(order::distinct(all), step.unit);
        order::lemma_distinct(all);
        assert(all.contains(step.unit));
        if !d.creates.contains(step.unit) {
            let p = all.index_of(step.unit);
            assert(p >= d.creates.len()) by {
                if p < d.creates.len() {
                    assert(d.creates[p] == step.unit);
                }
            }
            assert(d.restarts[p - d.creates.len()].name == step.unit);
        }
    }
}

proof fn lemma_none_waits(set: Seq<(Seq<char>, u8)>, n: nat)
    requires
        n <= set.len(),
    ensures
        graph::members_that(Seq::empty(), set, false, n) == set.take(n as int),
        graph::members_that(Seq::empty(), set, true, n).len() == 0,
    decreases n,
{
    let none: Seq<(Seq<char>, Seq<char>)> = Seq::empty();
    if n > 0 {
        let m = (n - 1) as nat;
        lemma_none_waits(set, m);
        assert(!graph::waits_in(none, set, set[m as int].0));
        assert(set.take(n as int) =~= set.take(m as int).push(set[m as int]));
        assert(graph::members_that(none, set, false, n) =~= graph::members_that(
            none,
            set,
            false,
            m,
        ).push(set[m as int]));
    } else {
        assert(set.take(0) =~= Seq::empty());
    }
}

/// The place of a unit's kind in a walk: adapters, then automations, then
/// services; a unit that the house does not have comes last.
pub open spec fn place_of_kind(h: House, name: Seq<char>) -> int {
    match repo::unit_named(h.units@, name) {
        Some(u) => match u.manifest.unit.kind {
            UnitKind::Adapter => 0,
            UnitKind::Automation => 1,
            UnitKind::Service => 2,
        },
        None => 3,
    }
}

/// Where no grant says otherwise, units start by kind, then by name.
pub proof fn law_units_start_by_kind_and_name(
    d: DiffView,
    h: House,
    table: Seq<GrantView>,
    i: int,
    j: int,
)
    requires
        grants::grant_edges_of(table, table.len()).len() == 0,
        0 <= i < j < plan::starts_of(d, h, table).len(),
    ensures
        ({
            let a = plan::starts_of(d, h, table)[i].unit;
            let b = plan::starts_of(d, h, table)[j].unit;
            &&& place_of_kind(h, a) <= place_of_kind(h, b)
            &&& place_of_kind(h, a) == place_of_kind(h, b) ==> !text::lex_lt(b, a)
        }),
{
    let edges = grants::grant_edges_of(table, table.len());
    let set = plan::start_set(d, h);
    assert(edges =~= Seq::empty());
    lemma_none_waits(set, set.len());
    assert(set.take(set.len() as int) =~= set);
    let none: Seq<(Seq<char>, u8)> = Seq::empty();
    let rest = graph::members_that(edges, set, true, set.len());
    assert(rest =~= none);
    let walk = graph::layered(edges, set);
    let sorted = order::sorted::<(String, u8)>(set);
    order::lemma_sorted::<(String, u8)>(set);
    assert(graph::layered(edges, none) =~= none) by {
        assert(graph::members_that(edges, none, false, 0).len() == 0);
        assert(order::sorted::<(String, u8)>(none) =~= none);
    }
    assert(walk =~= sorted);
    assert(!<(String, u8) as order::Ranked>::goes_before(sorted[j], sorted[i]));
    assert forall|k: int| 0 <= k < sorted.len() implies (#[trigger] sorted[k]).1
        == plan::repo_rank(h, sorted[k].0) by {
        assert(sorted.contains(sorted[k]));
        vstd::seq_lib::to_multiset_contains(sorted, sorted[k]);
        vstd::seq_lib::to_multiset_contains(set, sorted[k]);
        let m = set.index_of(sorted[k]);
        assert(set[m].1 == plan::repo_rank(h, set[m].0));
    }
    assert(sorted[i].1 == plan::repo_rank(h, sorted[i].0));
    assert(sorted[j].1 == plan::repo_rank(h, sorted[j].0));
}

} // verus!

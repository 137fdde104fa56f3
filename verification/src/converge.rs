//! What an apply makes of the next plan: a walk that halts leaves exactly the
//! work that it did not do, and one that is done leaves none.

use crate::config;
use crate::config::StoredParam;
use crate::content;
use crate::grants;
use crate::grants::GrantView;
use crate::graph;
use crate::json;
use crate::laws;
use crate::names;
use crate::order;
use crate::plan;
use crate::plan::DiffView;
use crate::plan::RepoUnit;
use crate::plan::StepAction;
use crate::plan::StepView;
use crate::plan::World;
use crate::plan::WorldUnit;
use crate::repo;
use crate::repo::House;
use crate::repo::LoadedUnit;
use crate::supervisor::apply::Walk;
use crate::text;
use crate::validate;
use crate::world;
use vstd::prelude::*;

verus! {

/// No two units of the house have one name.
pub open spec fn distinct_units(h: House) -> bool {
    forall|i: int, j: int|
        0 <= i < j < h.units@.len() ==> (#[trigger] h.units@[i]).manifest.unit.name@ != (
        #[trigger] h.units@[j]).manifest.unit.name@
}

proof fn lemma_paths_grow(units: Seq<LoadedUnit>, name: Seq<char>, m: nat, n: nat)
    requires
        m <= n,
    ensures
        validate::unit_paths(units, name, m).len() <= validate::unit_paths(units, name, n).len(),
    decreases n - m,
{
    if m < n {
        lemma_paths_grow(units, name, m, (n - 1) as nat);
    }
}

/// The units of a house without errors have distinct names.
pub proof fn law_valid_units_are_distinct(h: House)
    requires
        validate::duplicates_errors(h).len() == 0,
    ensures
        distinct_units(h),
{
    let units = h.units@;
    let all = validate::all_unit_names(units);
    let named = Seq::new(units.len(), |i: int| units[i].manifest.unit.name@);
    let f = |i: int|
        validate::shared_name_errors(
            "duplicate-unit-name"@,
            all[i],
            validate::unit_paths(units, all[i], units.len()),
        );
    text::lemma_each_empty(all.len(), f);
    order::lemma_distinct(named);
    assert forall|i: int, j: int| 0 <= i < j < units.len() implies (
    #[trigger] units[i]).manifest.unit.name@ != (#[trigger] units[j]).manifest.unit.name@ by {
        let name = units[i].manifest.unit.name@;
        if units[j].manifest.unit.name@ == name {
            assert(named[i] == name);
            assert(named.contains(name));
            assert(order::distinct(named).contains(name));
            let p = all.index_of(name);
            assert(f(p).len() == 0);
            lemma_paths_grow(units, name, 0, i as nat);
            lemma_paths_grow(units, name, (i + 1) as nat, j as nat);
            lemma_paths_grow(units, name, (j + 1) as nat, units.len());
            assert(validate::unit_paths(units, name, (i + 1) as nat).len() >= 1);
            assert(validate::unit_paths(units, name, (j + 1) as nat).len() >= 2);
        }
    }
}

/// Whether a running unit is the one the repo describes.
pub open spec fn runs_as(unit: WorldUnit, repo: RepoUnit) -> bool {
    unit.manifest_hash@ == content::hash_of(repo.manifest@) && unit.files_hash@ == repo.files_hash@
}

/// The unit's entry was recorded as this part of the repo describes it, and
/// nothing else changed.
pub open spec fn brought_up(unit: Seq<char>, repo: RepoUnit, before: World, after: World) -> bool {
    exists|name: String, entry: WorldUnit|
        name@ == unit && runs_as(entry, repo) && after.units@ == #[trigger] names::put(
            before.units@,
            name,
            entry,
        )
}

/// The unit's entry was recorded as the repo describes it, and nothing else
/// changed.
pub open spec fn recorded(
    h: House,
    repo: Seq<RepoUnit>,
    unit: Seq<char>,
    before: World,
    after: World,
) -> bool {
    exists|i: int|
        0 <= i < h.units@.len() && (#[trigger] h.units@[i]).manifest.unit.name@ == unit
            && brought_up(unit, repo[i], before, after)
}

/// What a step that succeeded makes of the world: a unit that stopped is
/// forgotten, one that came up is recorded as the repo describes it.
pub open spec fn stepped(
    h: House,
    repo: Seq<RepoUnit>,
    step: StepView,
    before: World,
    after: World,
) -> bool {
    &&& names::ascending(before.units@)
    &&& after.params == before.params
    &&& after.grants == before.grants
    &&& match step.action {
        StepAction::Stop => after.units@ == names::without(before.units@, step.unit),
        _ => recorded(h, repo, step.unit, before, after),
    }
}

/// The first `n` steps succeeded, and led from world to world.
pub open spec fn walked(
    h: House,
    repo: Seq<RepoUnit>,
    steps: Seq<StepView>,
    worlds: Seq<World>,
    n: nat,
) -> bool {
    &&& n <= steps.len()
    &&& worlds.len() == n + 1
    &&& forall|i: int|
        0 <= i < n ==> stepped(h, repo, #[trigger] steps[i], worlds[i], worlds[i + 1])
}

/// Whether one of the first `n` steps was the unit's.
pub open spec fn taken(steps: Seq<StepView>, n: nat, unit: Seq<char>) -> bool {
    exists|i: int| 0 <= i < n && (#[trigger] steps[i]).unit == unit
}

/// The walk of a plan stops only units that the house does not have.
pub open spec fn stops_strangers(h: House, steps: Seq<StepView>) -> bool {
    forall|i: int|
        0 <= i < steps.len() && (#[trigger] steps[i]).action == StepAction::Stop
            ==> repo::unit_named(h.units@, steps[i].unit) is None
}

/// A unit is found by its name exactly where there is one.
pub proof fn lemma_named(units: Seq<LoadedUnit>, name: Seq<char>)
    ensures
        repo::unit_named(units, name) is Some <==> exists|i: int|
            0 <= i < units.len() && (#[trigger] units[i]).manifest.unit.name@ == name,
    decreases units.len(),
{
    if units.len() > 0 {
        let d = units.drop_first();
        lemma_named(d, name);
        if units[0].manifest.unit.name@ != name {
            if exists|i: int| 0 <= i < units.len() && (#[trigger] units[i]).manifest.unit.name@
                == name {
                let i = choose|i: int|
                    0 <= i < units.len() && (#[trigger] units[i]).manifest.unit.name@ == name;
                assert(d[i - 1].manifest.unit.name@ == name);
            }
            if repo::unit_named(d, name) is Some {
                let i = choose|i: int|
                    0 <= i < d.len() && (#[trigger] d[i]).manifest.unit.name@ == name;
                assert(units[i + 1].manifest.unit.name@ == name);
            }
        }
    }
}

/// What the walk leaves under the name of a unit of the house.
proof fn lemma_walked_own(
    h: House,
    repo: Seq<RepoUnit>,
    steps: Seq<StepView>,
    worlds: Seq<World>,
    n: nat,
    k: int,
)
    requires
        distinct_units(h),
        stops_strangers(h, steps),
        walked(h, repo, steps, worlds, n),
        0 <= k < h.units@.len(),
    ensures
        ({
            let name = h.units@[k].manifest.unit.name@;
            let then = names::lookup(worlds[n as int].units@, name);
            if taken(steps, n, name) {
                then matches Some(unit) && runs_as(unit, repo[k])
            } else {
                then == names::lookup(worlds[0].units@, name)
            }
        }),
    decreases n,
{
    let name = h.units@[k].manifest.unit.name@;
    if n > 0 {
        let m = (n - 1) as nat;
        let step = steps[m as int];
        let short = worlds.take(n as int);
        assert forall|i: int| 0 <= i < m implies stepped(
            h,
            repo,
            #[trigger] steps[i],
            short[i],
            short[i + 1],
        ) by {
            assert(stepped(h, repo, steps[i], worlds[i], worlds[i + 1]));
        }
        lemma_walked_own(h, repo, steps, short, m, k);
        assert(stepped(h, repo, step, worlds[m as int], worlds[n as int]));
        if taken(steps, m, name) {
            let i = choose|i: int| 0 <= i < m && (#[trigger] steps[i]).unit == name;
            assert(steps[i].unit == name);
        }
        lemma_named(h.units@, name);
        let before = worlds[m as int].units@;
        if step.action == StepAction::Stop {
            assert(step.unit != name);
            names::lemma_lookup_without(before, step.unit, name);
        } else {
            let i = choose|i: int|
                0 <= i < h.units@.len() && (#[trigger] h.units@[i]).manifest.unit.name@ == step.unit
                    && brought_up(step.unit, repo[i], worlds[m as int], worlds[n as int]);
            let (s, entry) = choose|s: String, entry: WorldUnit|
                s@ == step.unit && runs_as(entry, repo[i]) && worlds[n as int].units@
                    == #[trigger] names::put(before, s, entry);
            names::lemma_lookup_put(before, s, entry, name);
            if step.unit == name {
                assert(i == k) by {
                    assert(h.units@[i].manifest.unit.name@ == h.units@[k].manifest.unit.name@);
                }
            }
        }
    }
}

/// What the walk leaves under a name that no unit of the house has.
proof fn lemma_walked_stranger(
    h: House,
    repo: Seq<RepoUnit>,
    steps: Seq<StepView>,
    worlds: Seq<World>,
    n: nat,
    name: Seq<char>,
)
    requires
        walked(h, repo, steps, worlds, n),
        repo::unit_named(h.units@, name) is None,
    ensures
        names::lookup(worlds[n as int].units@, name) == if taken(steps, n, name) {
            None
        } else {
            names::lookup(worlds[0].units@, name)
        },
    decreases n,
{
    if n > 0 {
        let m = (n - 1) as nat;
        let step = steps[m as int];
        let short = worlds.take(n as int);
        assert forall|i: int| 0 <= i < m implies stepped(
            h,
            repo,
            #[trigger] steps[i],
            short[i],
            short[i + 1],
        ) by {
            assert(stepped(h, repo, steps[i], worlds[i], worlds[i + 1]));
        }
        lemma_walked_stranger(h, repo, steps, short, m, name);
        assert(stepped(h, repo, step, worlds[m as int], worlds[n as int]));
        if taken(steps, m, name) {
            let i = choose|i: int| 0 <= i < m && (#[trigger] steps[i]).unit == name;
            assert(steps[i].unit == name);
        }
        lemma_named(h.units@, name);
        let before = worlds[m as int].units@;
        if step.action == StepAction::Stop {
            names::lemma_lookup_without(before, step.unit, name);
        } else {
            let i = choose|i: int|
                0 <= i < h.units@.len() && (#[trigger] h.units@[i]).manifest.unit.name@ == step.unit
                    && brought_up(step.unit, repo[i], worlds[m as int], worlds[n as int]);
            let (s, entry) = choose|s: String, entry: WorldUnit|
                s@ == step.unit && runs_as(entry, repo[i]) && worlds[n as int].units@
                    == #[trigger] names::put(before, s, entry);
            names::lemma_lookup_put(before, s, entry, name);
        }
    }
}

/// The names of the units that a plan restarts.
pub open spec fn restart_names(d: DiffView) -> Seq<Seq<char>> {
    Seq::new(d.restarts.len(), |i: int| d.restarts[i].name)
}

proof fn lemma_sorted_has<T: order::Ranked>(s: Seq<T::V>, x: T::V)
    ensures
        order::sorted::<T>(s).contains(x) <==> s.contains(x),
{
    order::lemma_sorted::<T>(s);
    vstd::seq_lib::to_multiset_contains(order::sorted::<T>(s), x);
    vstd::seq_lib::to_multiset_contains(s, x);
}

proof fn lemma_creates(h: House, world: World, name: Seq<char>)
    ensures
        plan::all_creates(h, world, h.units@.len()).contains(name) <==> repo::unit_named(
            h.units@,
            name,
        ) is Some && names::lookup(world.units@, name) is None,
{
    let n = h.units@.len();
    let f = |i: int| plan::unit_creates(h.units@[i], world);
    let all = plan::all_creates(h, world, n);
    lemma_named(h.units@, name);
    if all.contains(name) {
        let k = all.index_of(name);
        let i = text::lemma_in_each(n, f, k);
        assert(h.units@[i].manifest.unit.name@ == name);
    }
    if repo::unit_named(h.units@, name) is Some && names::lookup(world.units@, name) is None {
        let i = choose|i: int|
            0 <= i < n && (#[trigger] h.units@[i]).manifest.unit.name@ == name;
        assert(f(i)[0] == name);
        text::lemma_each_has(n, f, i, name);
    }
}

/// The unit at this place of the house restarts.
pub open spec fn restarts_at(h: House, repo: Seq<RepoUnit>, world: World, k: int) -> bool {
    match names::lookup(world.units@, h.units@[k].manifest.unit.name@) {
        None => false,
        Some(running) => {
            let d = plan::delta_of(repo[k], running);
            d.manifest_changed || d.files_changed
        },
    }
}

proof fn lemma_restarts(h: House, repo: Seq<RepoUnit>, table: Seq<GrantView>, world: World, k: int)
    requires
        distinct_units(h),
        0 <= k < h.units@.len(),
    ensures
        restart_names(plan::diff_of(h, table, repo, world)).contains(
            h.units@[k].manifest.unit.name@,
        ) <==> restarts_at(h, repo, world, k),
{
    let n = h.units@.len();
    let name = h.units@[k].manifest.unit.name@;
    let f = |i: int| plan::unit_restarts(h.units@[i], repo[i], world);
    let all = plan::all_restarts(h, repo, world, n);
    let d = plan::diff_of(h, table, repo, world);
    if restart_names(d).contains(name) {
        let p = restart_names(d).index_of(name);
        let r = d.restarts[p];
        assert(d.restarts.contains(r));
        lemma_sorted_has::<plan::Restart>(all, r);
        let q = all.index_of(r);
        let i = text::lemma_in_each(n, f, q);
        assert(f(i).contains(r));
        assert(r.name == h.units@[i].manifest.unit.name@);
        assert(i == k) by {
            assert(h.units@[i].manifest.unit.name@ == h.units@[k].manifest.unit.name@);
        }
    }
    if restarts_at(h, repo, world, k) {
        let r = f(k)[0];
        assert(f(k).contains(r));
        text::lemma_each_has(n, f, k, r);
        lemma_sorted_has::<plan::Restart>(all, r);
        let p = d.restarts.index_of(r);
        assert(restart_names(d)[p] == name);
    }
}

proof fn lemma_looked_up(s: Seq<(String, WorldUnit)>, name: Seq<char>)
    ensures
        names::lookup(s, name) is Some <==> exists|i: int|
            0 <= i < s.len() && (#[trigger] s[i]).0@ == name,
    decreases s.len(),
{
    if s.len() > 0 {
        let d = s.drop_first();
        lemma_looked_up(d, name);
        if s[0].0@ != name {
            if exists|i: int| 0 <= i < s.len() && (#[trigger] s[i]).0@ == name {
                let i = choose|i: int| 0 <= i < s.len() && (#[trigger] s[i]).0@ == name;
                assert(d[i - 1].0@ == name);
            }
            if names::lookup(d, name) is Some {
                let i = choose|i: int| 0 <= i < d.len() && (#[trigger] d[i]).0@ == name;
                assert(s[i + 1].0@ == name);
            }
        }
    }
}

proof fn lemma_destroys(h: House, world: World, name: Seq<char>)
    ensures
        plan::all_destroys(h, world, world.units@.len()).contains(name) <==> repo::unit_named(
            h.units@,
            name,
        ) is None && names::lookup(world.units@, name) is Some,
{
    let n = world.units@.len();
    let f = |i: int|
        text::only_if(
            repo::unit_named(h.units@, world.units@[i].0@) is None,
            world.units@[i].0@,
        );
    let all = plan::all_destroys(h, world, n);
    lemma_looked_up(world.units@, name);
    if all.contains(name) {
        let k = all.index_of(name);
        let i = text::lemma_in_each(n, f, k);
        assert(f(i).contains(name));
        assert(world.units@[i].0@ == name);
    }
    if repo::unit_named(h.units@, name) is None && names::lookup(world.units@, name) is Some {
        let i = choose|i: int| 0 <= i < n && (#[trigger] world.units@[i]).0@ == name;
        assert(f(i)[0] == name);
        text::lemma_each_has(n, f, i, name);
    }
}

proof fn lemma_firsts_have(set: Seq<(Seq<char>, u8)>, walk: Seq<(Seq<char>, u8)>, i: int)
    requires
        walk.to_multiset() == set.to_multiset(),
        0 <= i < walk.len(),
    ensures
        graph::firsts(set).contains(walk[i].0),
{
    vstd::seq_lib::to_multiset_contains(walk, walk[i]);
    vstd::seq_lib::to_multiset_contains(set, walk[i]);
    let j = set.index_of(walk[i]);
    assert(graph::firsts(set)[j] == walk[i].0);
}

/// The walk of a plan stops only units that the house does not have.
pub proof fn law_a_walk_stops_strangers(
    h: House,
    table: Seq<GrantView>,
    repo: Seq<RepoUnit>,
    world: World,
)
    ensures
        stops_strangers(h, plan::walk_of(plan::diff_of(h, table, repo, world), h, table, world)),
{
    let d = plan::diff_of(h, table, repo, world);
    let steps = plan::walk_of(d, h, table, world);
    let stops = plan::stops_of(d, world);
    let running = text::views(world.grants@);
    let edges = grants::grant_edges_of(running, running.len());
    let set = plan::stop_set(d, world);
    let walk = graph::layered(edges, set);
    graph::law_ordered_permutes(edges, set);
    order::lemma_distinct(d.destroys);
    assert forall|i: int|
        0 <= i < steps.len() && (#[trigger] steps[i]).action == StepAction::Stop implies repo::unit_named(
        h.units@,
        steps[i].unit,
    ) is None by {
        if i < stops.len() {
            let j = walk.len() - 1 - i;
            assert(steps[i] == stops[i]);
            assert(steps[i].unit == graph::firsts(walk)[j]);
            lemma_firsts_have(set, walk, j);
            let p = graph::firsts(set).index_of(steps[i].unit);
            assert(order::distinct(d.destroys)[p] == steps[i].unit);
            assert(d.destroys.contains(steps[i].unit));
            lemma_sorted_has::<String>(
                plan::all_destroys(h, world, world.units@.len()),
                steps[i].unit,
            );
            lemma_destroys(h, world, steps[i].unit);
        } else {
            assert(steps[i] == plan::starts_of(d, h, table)[i - stops.len()]);
        }
    }
}

/// A walk that halted after its first `n` steps re-plans exactly the
/// remaining work: the next plan creates, restarts and destroys the units
/// that this one did and whose step was not taken, and no other.
pub proof fn law_a_halted_walk_replans_the_rest(
    h: House,
    table: Seq<GrantView>,
    repo: Seq<RepoUnit>,
    worlds: Seq<World>,
    n: nat,
    name: Seq<char>,
)
    requires
        validate::duplicates_errors(h).len() == 0,
        repo.len() == h.units@.len(),
        walked(
            h,
            repo,
            plan::walk_of(plan::diff_of(h, table, repo, worlds[0]), h, table, worlds[0]),
            worlds,
            n,
        ),
    ensures
        ({
            let d = plan::diff_of(h, table, repo, worlds[0]);
            let next = plan::diff_of(h, table, repo, worlds[n as int]);
            let left = !taken(plan::walk_of(d, h, table, worlds[0]), n, name);
            &&& next.creates.contains(name) <==> d.creates.contains(name) && left
            &&& restart_names(next).contains(name) <==> restart_names(d).contains(name) && left
            &&& next.destroys.contains(name) <==> d.destroys.contains(name) && left
        }),
{
    let first = worlds[0];
    let last = worlds[n as int];
    let d = plan::diff_of(h, table, repo, first);
    let next = plan::diff_of(h, table, repo, last);
    let steps = plan::walk_of(d, h, table, first);
    let m = h.units@.len();
    law_valid_units_are_distinct(h);
    law_a_walk_stops_strangers(h, table, repo, first);
    lemma_sorted_has::<String>(plan::all_creates(h, first, m), name);
    lemma_sorted_has::<String>(plan::all_creates(h, last, m), name);
    lemma_creates(h, first, name);
    lemma_creates(h, last, name);
    lemma_sorted_has::<String>(plan::all_destroys(h, first, first.units@.len()), name);
    lemma_sorted_has::<String>(plan::all_destroys(h, last, last.units@.len()), name);
    lemma_destroys(h, first, name);
    lemma_destroys(h, last, name);
    lemma_named(h.units@, name);
    if repo::unit_named(h.units@, name) is Some {
        let k = choose|k: int| 0 <= k < m && (#[trigger] h.units@[k]).manifest.unit.name@ == name;
        lemma_walked_own(h, repo, steps, worlds, n, k);
        lemma_restarts(h, repo, table, first, k);
        lemma_restarts(h, repo, table, last, k);
    } else {
        lemma_walked_stranger(h, repo, steps, worlds, n, name);
        lemma_no_stranger_restarts(h, repo, table, first, name);
        lemma_no_stranger_restarts(h, repo, table, last, name);
    }
}

proof fn lemma_no_stranger_restarts(
    h: House,
    repo: Seq<RepoUnit>,
    table: Seq<GrantView>,
    world: World,
    name: Seq<char>,
)
    requires
        repo::unit_named(h.units@, name) is None,
    ensures
        !restart_names(plan::diff_of(h, table, repo, world)).contains(name),
{
    let n = h.units@.len();
    let f = |i: int| plan::unit_restarts(h.units@[i], repo[i], world);
    let all = plan::all_restarts(h, repo, world, n);
    let d = plan::diff_of(h, table, repo, world);
    lemma_named(h.units@, name);
    if restart_names(d).contains(name) {
        let p = restart_names(d).index_of(name);
        let r = d.restarts[p];
        assert(d.restarts.contains(r));
        lemma_sorted_has::<plan::Restart>(all, r);
        let i = text::lemma_in_each(n, f, all.index_of(r));
        assert(f(i).contains(r));
        assert(h.units@[i].manifest.unit.name@ == name);
    }
}

proof fn lemma_firsts_reach(set: Seq<(Seq<char>, u8)>, walk: Seq<(Seq<char>, u8)>, name: Seq<char>)
    requires
        walk.to_multiset() == set.to_multiset(),
        graph::firsts(set).contains(name),
    ensures
        graph::firsts(walk).contains(name),
{
    let j = graph::firsts(set).index_of(name);
    assert(set[j].0 == name);
    lemma_firsts_have(walk, set, j);
}

/// A walk has a step for every unit that the plan creates, restarts or
/// destroys.
pub proof fn law_a_walk_takes_every_unit(
    d: DiffView,
    h: House,
    table: Seq<GrantView>,
    world: World,
    name: Seq<char>,
)
    requires
        d.creates.contains(name) || restart_names(d).contains(name) || d.destroys.contains(name),
    ensures
        ({
            let steps = plan::walk_of(d, h, table, world);
            taken(steps, steps.len(), name)
        }),
{
    let steps = plan::walk_of(d, h, table, world);
    let stops = plan::stops_of(d, world);
    if d.destroys.contains(name) {
        let running = text::views(world.grants@);
        let edges = grants::grant_edges_of(running, running.len());
        let set = plan::stop_set(d, world);
        let walk = graph::layered(edges, set);
        graph::law_ordered_permutes(edges, set);
        order::lemma_distinct(d.destroys);
        let p = order::distinct(d.destroys).index_of(name);
        assert(graph::firsts(set)[p] == name);
        lemma_firsts_reach(set, walk, name);
        let j = graph::firsts(walk).index_of(name);
        let i = walk.len() - 1 - j;
        assert(stops[i].unit == name);
        assert(steps[i].unit == name);
    } else {
        let edges = grants::grant_edges_of(table, table.len());
        let set = plan::start_set(d, h);
        let walk = graph::layered(edges, set);
        graph::law_ordered_permutes(edges, set);
        let all = d.creates + Seq::new(d.restarts.len(), |i: int| d.restarts[i].name);
        order::lemma_distinct(all);
        assert(all.contains(name)) by {
            if d.creates.contains(name) {
                let i = d.creates.index_of(name);
                assert(all[i] == name);
            } else {
                let i = restart_names(d).index_of(name);
                assert(all[d.creates.len() + i] == name);
            }
        }
        let p = order::distinct(all).index_of(name);
        assert(plan::start_names(d)[p] == name);
        assert(graph::firsts(set)[p] == name);
        lemma_firsts_reach(set, walk, name);
        let j = graph::firsts(walk).index_of(name);
        assert(plan::starts_of(d, h, table)[j].unit == name);
        assert(steps[stops.len() + j].unit == name);
    }
}

/// The manifests that the plan refreshes were recorded, one after the other,
/// each that the house has.
pub open spec fn refreshed(h: House, repo: Seq<RepoUnit>, d: DiffView, worlds: Seq<World>) -> bool {
    &&& worlds.len() == d.refreshes.len() + 1
    &&& forall|i: int|
        0 <= i < d.refreshes.len() ==> if repo::unit_named(
            h.units@,
            (#[trigger] d.refreshes[i]).name,
        ) is Some {
            recorded(h, repo, d.refreshes[i].name, worlds[i], worlds[i + 1])
        } else {
            worlds[i + 1].units == worlds[i].units
        }
}

/// What becomes of the world when a plan that was fully applied is recorded:
/// from `before` the refreshes lead to the units of `after`.
pub open spec fn concluded(
    h: House,
    repo: Seq<RepoUnit>,
    d: DiffView,
    before: World,
    after: World,
) -> bool {
    exists|worlds: Seq<World>| #[trigger]
        refreshed(h, repo, d, worlds) && worlds[0] == before && worlds.last().units == after.units
}

/// Whether one of the first `n` refreshes is the unit's.
pub open spec fn refreshes_unit(d: DiffView, n: nat, unit: Seq<char>) -> bool {
    exists|i: int| 0 <= i < n && (#[trigger] d.refreshes[i]).name == unit
}

proof fn lemma_refreshed(
    h: House,
    repo: Seq<RepoUnit>,
    d: DiffView,
    worlds: Seq<World>,
    n: nat,
    name: Seq<char>,
)
    requires
        distinct_units(h),
        refreshed(h, repo, d, worlds),
        n <= d.refreshes.len(),
    ensures
        ({
            let then = names::lookup(worlds[n as int].units@, name);
            if refreshes_unit(d, n, name) && repo::unit_named(h.units@, name) is Some {
                then is Some && forall|k: int|
                    0 <= k < h.units@.len() && (#[trigger] h.units@[k]).manifest.unit.name@ == name
                        ==> runs_as(then->Some_0, repo[k])
            } else {
                then == names::lookup(worlds[0].units@, name)
            }
        }),
    decreases n,
{
    if n > 0 {
        let m = (n - 1) as nat;
        lemma_refreshed(h, repo, d, worlds, m, name);
        lemma_named(h.units@, name);
        let unit = d.refreshes[m as int].name;
        let before = worlds[m as int].units@;
        if refreshes_unit(d, m, name) {
            let j = choose|j: int| 0 <= j < m && (#[trigger] d.refreshes[j]).name == name;
            assert(d.refreshes[j].name == name);
        }
        if repo::unit_named(h.units@, unit) is Some {
            assert(recorded(h, repo, unit, worlds[m as int], worlds[m as int + 1]));
            let i = choose|i: int|
                0 <= i < h.units@.len() && (#[trigger] h.units@[i]).manifest.unit.name@ == unit
                    && brought_up(unit, repo[i], worlds[m as int], worlds[n as int]);
            let (s, entry) = choose|s: String, entry: WorldUnit|
                s@ == unit && runs_as(entry, repo[i]) && worlds[n as int].units@
                    == #[trigger] names::put(before, s, entry);
            names::lemma_lookup_put(before, s, entry, name);
            if unit == name {
                assert forall|k: int|
                    0 <= k < h.units@.len() && (#[trigger] h.units@[k]).manifest.unit.name@
                        == name implies runs_as(entry, repo[k]) by {
                    assert(h.units@[i].manifest.unit.name@ == h.units@[k].manifest.unit.name@);
                    assert(i == k);
                }
            }
        }
    }
}

proof fn lemma_refresh_listed(
    h: House,
    repo: Seq<RepoUnit>,
    table: Seq<GrantView>,
    world: World,
    k: int,
)
    requires
        0 <= k < h.units@.len(),
        plan::unit_refreshes(h.units@[k], repo[k], world).len() > 0,
    ensures
        ({
            let d = plan::diff_of(h, table, repo, world);
            refreshes_unit(d, d.refreshes.len(), h.units@[k].manifest.unit.name@)
        }),
{
    let n = h.units@.len();
    let f = |i: int| plan::unit_refreshes(h.units@[i], repo[i], world);
    let d = plan::diff_of(h, table, repo, world);
    let r = f(k)[0];
    assert(f(k).contains(r));
    text::lemma_each_has(n, f, k, r);
    let p = d.refreshes.index_of(r);
    assert(d.refreshes[p].name == h.units@[k].manifest.unit.name@);
}

proof fn lemma_declared(units: Seq<LoadedUnit>, k: int, param: Seq<char>)
    requires
        0 <= k < units.len(),
        forall|i: int|
            0 <= i < units.len() && i != k ==> (#[trigger] units[i]).manifest.unit.name@
                != units[k].manifest.unit.name@,
    ensures
        config::param_spec(units, units[k].manifest.unit.name@, param) == config::unit_param(
            units[k],
            param,
        ),
    decreases units.len(),
{
    let name = units[k].manifest.unit.name@;
    let d = units.drop_last();
    if k == units.len() - 1 {
        lemma_undeclared(d, name, param);
    } else {
        assert(units.last() == units[units.len() - 1]);
        lemma_declared(d, k, param);
    }
}

proof fn lemma_undeclared(units: Seq<LoadedUnit>, name: Seq<char>, param: Seq<char>)
    requires
        forall|i: int| 0 <= i < units.len() ==> (#[trigger] units[i]).manifest.unit.name@ != name,
    ensures
        config::param_spec(units, name, param) is None,
    decreases units.len(),
{
    if units.len() > 0 {
        assert(units.last() == units[units.len() - 1]);
        lemma_undeclared(units.drop_last(), name, param);
    }
}

/// The live values that the world knows are those of the store.
pub open spec fn reads_store(
    entries: Seq<((String, String), StoredParam)>,
    world: World,
) -> bool {
    forall|unit: Seq<char>, param: Seq<char>|
        #[trigger] world::live_value(world, unit, param) matches Some(v)
            ==> config::stored_in(entries, unit, param) matches Some(p) && p.value == v
}

/// Where the store was reset to the house, no parameter of the house drifted.
pub proof fn law_reset_parameters_are_settled(
    h: House,
    entries: Seq<((String, String), StoredParam)>,
    world: World,
    k: int,
)
    requires
        validate::duplicates_errors(h).len() == 0,
        config::all_at_defaults(entries, h.units@),
        reads_store(entries, world),
        0 <= k < h.units@.len(),
        config::params_ascend(h.units@[k]),
    ensures
        laws::params_settled(h.units@[k], world),
{
    law_valid_units_are_distinct(h);
    let u = h.units@[k];
    let name = u.manifest.unit.name@;
    if u.manifest.params is Some {
        let params = u.manifest.params->Some_0@;
        assert forall|j: int| 0 <= j < params.len() implies match names::lookup(
            world.params@,
            (name, (#[trigger] params[j]).0@),
        ) {
            Some(live) => json::json_same(live@, config::default_view(params[j].1)),
            None => true,
        } by {
            let param = params[j].0@;
            if world::live_value(world, name, param) is Some {
                names::lemma_lookup_entry(params, j);
                lemma_declared(h.units@, k, param);
                assert(config::stored_in(entries, name, param) is Some);
            }
        }
    }
}

/// Once the whole walk succeeded, the refreshes are recorded, the store is
/// reset to the house and the grant table is the running one, the next plan
/// has nothing to do.
pub proof fn law_an_applied_plan_settles(
    h: House,
    table: Seq<GrantView>,
    repo: Seq<RepoUnit>,
    worlds: Seq<World>,
    after: Seq<World>,
    entries: Seq<((String, String), StoredParam)>,
    world: World,
)
    requires
        validate::duplicates_errors(h).len() == 0,
        repo.len() == h.units@.len(),
        ({
            let d = plan::diff_of(h, table, repo, worlds[0]);
            let steps = plan::walk_of(d, h, table, worlds[0]);
            walked(h, repo, steps, worlds, steps.len()) && refreshed(h, repo, d, after)
        }),
        after[0] == worlds.last(),
        world.units == after.last().units,
        text::views(world.grants@) == table,
        config::all_at_defaults(entries, h.units@),
        reads_store(entries, world),
        forall|k: int| 0 <= k < h.units@.len() ==> config::params_ascend(#[trigger] h.units@[k]),
    ensures
        plan::no_change(plan::diff_of(h, table, repo, world)),
{
    let first = worlds[0];
    let d = plan::diff_of(h, table, repo, first);
    let steps = plan::walk_of(d, h, table, first);
    let n = steps.len();
    law_valid_units_are_distinct(h);
    law_a_walk_stops_strangers(h, table, repo, first);
    assert forall|k: int| 0 <= k < h.units@.len() implies laws::unit_settled(
        #[trigger] h.units@[k],
        repo[k],
        world,
    ) by {
        let name = h.units@[k].manifest.unit.name@;
        lemma_named(h.units@, name);
        lemma_walked_own(h, repo, steps, worlds, n, k);
        lemma_refreshed(h, repo, d, after, d.refreshes.len(), name);
        lemma_sorted_has::<String>(plan::all_creates(h, first, h.units@.len()), name);
        lemma_creates(h, first, name);
        lemma_restarts(h, repo, table, first, k);
        if !refreshes_unit(d, d.refreshes.len(), name) && !taken(steps, n, name) {
            if d.creates.contains(name) || restart_names(d).contains(name) {
                law_a_walk_takes_every_unit(d, h, table, first, name);
            }
            if plan::unit_refreshes(h.units@[k], repo[k], first).len() > 0 {
                lemma_refresh_listed(h, repo, table, first, k);
            }
        }
    }
    assert forall|i: int| 0 <= i < world.units@.len() implies repo::unit_named(
        h.units@,
        (#[trigger] world.units@[i]).0@,
    ) is Some by {
        let name = world.units@[i].0@;
        lemma_looked_up(world.units@, name);
        lemma_looked_up(first.units@, name);
        if repo::unit_named(h.units@, name) is None {
            lemma_refreshed(h, repo, d, after, d.refreshes.len(), name);
            lemma_walked_stranger(h, repo, steps, worlds, n, name);
            lemma_sorted_has::<String>(plan::all_destroys(h, first, first.units@.len()), name);
            lemma_destroys(h, first, name);
            if !taken(steps, n, name) {
                law_a_walk_takes_every_unit(d, h, table, first, name);
            }
        }
    }
    assert forall|i: int| 0 <= i < table.len() implies text::views(world.grants@).contains(
        #[trigger] table[i],
    ) by {
        assert(text::views(world.grants@)[i] == table[i]);
    }
    assert forall|k: int| 0 <= k < h.units@.len() implies laws::params_settled(
        #[trigger] h.units@[k],
        world,
    ) by {
        law_reset_parameters_are_settled(h, entries, world, k);
    }
    laws::law_no_change_means_settled(h, table, repo, world);
}

/// One step of an apply, where the repo reads as it did when the apply began:
/// a step that failed leaves the world, one that succeeded stopped its unit or
/// brought it up.
pub open spec fn advances(
    h: House,
    repo: Seq<RepoUnit>,
    walk: Walk,
    world: World,
    next: Walk,
    then: World,
) -> bool {
    &&& !walk.over()
    &&& exists|fault: Option<Seq<char>>| #[trigger]
        walk.took(fault, next) && match fault {
            Some(_) => then == world,
            None => stepped(h, repo, walk.step(), world, then),
        }
}

proof fn lemma_advanced(
    h: House,
    repo: Seq<RepoUnit>,
    walks: Seq<Walk>,
    worlds: Seq<World>,
    n: nat,
)
    requires
        n < walks.len(),
        walks.len() == worlds.len(),
        walks[0].valid(),
        walks[0].faults().len() == 0,
        forall|i: int|
            0 <= i < walks.len() - 1 ==> advances(
                h,
                repo,
                #[trigger] walks[i],
                worlds[i],
                walks[i + 1],
                worlds[i + 1],
            ),
    ensures
        walks[n as int].valid(),
        walks[n as int].steps == walks[0].steps,
        walks[n as int].faults().len() == n,
        !walks[n as int].halted ==> forall|i: int|
            0 <= i < n ==> stepped(
                h,
                repo,
                #[trigger] walks[0].steps@[i]@,
                worlds[i],
                worlds[i + 1],
            ),
    decreases n,
{
    if n > 0 {
        let m = n - 1;
        lemma_advanced(h, repo, walks, worlds, m as nat);
        let walk = walks[m];
        let next = walks[n as int];
        assert(advances(h, repo, walk, worlds[m], next, worlds[m + 1]));
        let fault = choose|fault: Option<Seq<char>>| #[trigger]
            walk.took(fault, next) && match fault {
                Some(_) => worlds[m + 1] == worlds[m],
                None => stepped(h, repo, walk.step(), worlds[m], worlds[m + 1]),
            };
        assert(next.faults().last() == fault);
        if !next.halted {
            assert(walk.step() == walks[0].steps@[m]@);
            assert forall|i: int| 0 <= i < n implies stepped(
                h,
                repo,
                #[trigger] walks[0].steps@[i]@,
                worlds[i],
                worlds[i + 1],
            ) by {
                if i < m {
                    assert(!walk.halted);
                }
            }
        }
    }
}

/// An apply of a valid house that succeeds leaves nothing to do: began from a
/// first world, walked step by step to its end without a failure and
/// recorded, with the store reset to the house, it makes the next plan an
/// empty one — as long as neither the repo nor a live parameter changes.
pub proof fn law_an_apply_that_succeeds_leaves_nothing(
    h: House,
    table: Seq<GrantView>,
    repo: Seq<RepoUnit>,
    walks: Seq<Walk>,
    worlds: Seq<World>,
    applied: World,
    entries: Seq<((String, String), StoredParam)>,
    next: World,
)
    requires
        crate::check_errors(h).len() == 0,
        repo.len() == h.units@.len(),
        0 < walks.len() == worlds.len(),
        walks[0].valid(),
        walks[0].faults().len() == 0,
        ({
            let d = plan::diff_of(h, table, repo, worlds[0]);
            &&& text::views(walks[0].steps@) == plan::walk_of(d, h, table, worlds[0])
            &&& concluded(h, repo, d, worlds.last(), applied)
        }),
        forall|i: int|
            0 <= i < walks.len() - 1 ==> advances(
                h,
                repo,
                #[trigger] walks[i],
                worlds[i],
                walks[i + 1],
                worlds[i + 1],
            ),
        walks.last().over(),
        !walks.last().halted,
        text::views(applied.grants@) == table,
        config::all_at_defaults(entries, h.units@),
        forall|k: int| 0 <= k < h.units@.len() ==> config::params_ascend(#[trigger] h.units@[k]),
        world::same_but_params(next, applied),
        reads_store(entries, next),
    ensures
        plan::no_change(plan::diff_of(h, table, repo, next)),
{
    let d = plan::diff_of(h, table, repo, worlds[0]);
    let steps = plan::walk_of(d, h, table, worlds[0]);
    let n = (walks.len() - 1) as nat;
    lemma_advanced(h, repo, walks, worlds, n);
    assert(walks.last().faults().len() == walks.last().done@.len());
    assert(n == steps.len());
    assert forall|i: int| 0 <= i < n implies stepped(
        h,
        repo,
        #[trigger] steps[i],
        worlds[i],
        worlds[i + 1],
    ) by {
        assert(text::views(walks[0].steps@)[i] == walks[0].steps@[i]@);
    }
    assert(walked(h, repo, steps, worlds, n));
    let after = choose|after: Seq<World>| #[trigger]
        refreshed(h, repo, d, after) && after[0] == worlds.last() && after.last().units
            == applied.units;
    assert(validate::duplicates_errors(h).len() == 0) by {
        assert(validate::house_errors(h).len() == 0);
    }
    law_an_applied_plan_settles(h, table, repo, worlds, after, entries, next);
}

} // verus!

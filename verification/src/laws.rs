//! What holds of the library as a whole.

use crate::config;
use crate::content;
use crate::error;
use crate::expand;
use crate::expand::ExpandedView;
use crate::floats;
use crate::grants;
use crate::grants::GrantView;
use crate::graph;
use crate::json;
use crate::keyspace;
use crate::keyspace::SegmentView;
use crate::manifest::ParamSpec;
use crate::manifest::WriteMode;
use crate::names;
use crate::order;
use crate::plan;
use crate::plan::DiffView;
use crate::plan::RepoUnit;
use crate::plan::StepView;
use crate::plan::World;
use crate::plan::WorldUnit;
use crate::repo;
use crate::repo::House;
use crate::repo::LoadedUnit;
use crate::text;
use crate::tomlvalue::TomlData;
use crate::validate;
use vstd::prelude::*;

verus! {

/// In a grant table that was accepted, no unit waits on a cycle.
pub proof fn law_accepted_table_is_acyclic(table: Seq<GrantView>)
    requires
        grants::cycle_errors(table).len() == 0,
    ensures
        forall|u: Seq<char>| !graph::stuck(grants::grant_edges_of(table, table.len()), u),
{
    let edges = grants::grant_edges_of(table, table.len());
    let all = graph::nodes(edges);
    let f = |i: int| text::only_if(graph::stuck(edges, all[i]), all[i]);
    text::lemma_each_empty(all.len(), f);
    assert forall|u: Seq<char>| !graph::stuck(edges, u) by {
        if graph::stuck(edges, u) {
            graph::lemma_stuck_is_node(edges, u);
            let i = all.index_of(u);
            assert(f(i).len() == 1);
        }
    }
}

/// A plan of a house without errors starts every owner before the units that
/// command its entities.
pub proof fn law_walk_starts_owners_first(h: House, keys: Seq<ExpandedView>, d: DiffView)
    requires
        grants::resolve_errors(h, keys).len() == 0,
    ensures
        ({
            let table = grants::grant_table(h, keys);
            let edges = grants::grant_edges_of(table, table.len());
            let steps = plan::starts_of(d, h, table);
            forall|i: int, j: int, k: int|
                0 <= i < steps.len() && 0 <= j < steps.len() && 0 <= k < edges.len() && (
                #[trigger] steps[i]).unit == (#[trigger] edges[k]).0 && (#[trigger] steps[j]).unit
                    == edges[k].1 ==> i < j
        }),
{
    let table = grants::grant_table(h, keys);
    let edges = grants::grant_edges_of(table, table.len());
    let steps = plan::starts_of(d, h, table);
    let walk = graph::layered(edges, plan::start_set(d, h));
    law_accepted_table_is_acyclic(table);
    grants::lemma_edges_lead_away(table);
    graph::lemma_orderly(edges, plan::start_set(d, h));
    graph::law_owners_first(edges, plan::start_set(d, h));
    assert forall|i: int, j: int, k: int|
        0 <= i < steps.len() && 0 <= j < steps.len() && 0 <= k < edges.len() && (
        #[trigger] steps[i]).unit == (#[trigger] edges[k]).0 && (#[trigger] steps[j]).unit
            == edges[k].1 implies i < j by {
        assert(walk[i].0 == edges[k].0);
        assert(walk[j].0 == edges[k].1);
    }
}

/// Units that go are stopped in the opposite order: those that command an
/// entity before its owner.
pub proof fn law_walk_stops_owners_last(d: DiffView, world: World)
    requires
        grants::cycle_errors(text::views(world.grants@)).len() == 0,
    ensures
        ({
            let table = text::views(world.grants@);
            let edges = grants::grant_edges_of(table, table.len());
            let steps = plan::stops_of(d, world);
            forall|i: int, j: int, k: int|
                0 <= i < steps.len() && 0 <= j < steps.len() && 0 <= k < edges.len() && (
                #[trigger] steps[i]).unit == (#[trigger] edges[k]).0 && (#[trigger] steps[j]).unit
                    == edges[k].1 ==> j < i
        }),
{
    let table = text::views(world.grants@);
    let edges = grants::grant_edges_of(table, table.len());
    let steps = plan::stops_of(d, world);
    let walk = graph::layered(edges, plan::stop_set(d, world));
    law_accepted_table_is_acyclic(table);
    grants::lemma_edges_lead_away(table);
    graph::lemma_orderly(edges, plan::stop_set(d, world));
    graph::law_owners_first(edges, plan::stop_set(d, world));
    assert forall|i: int, j: int, k: int|
        0 <= i < steps.len() && 0 <= j < steps.len() && 0 <= k < edges.len() && (
        #[trigger] steps[i]).unit == (#[trigger] edges[k]).0 && (#[trigger] steps[j]).unit
            == edges[k].1 implies j < i by {
        let n = walk.len() as int;
        assert(walk[n - 1 - i].0 == edges[k].0);
        assert(walk[n - 1 - j].0 == edges[k].1);
    }
}

/// In a house without errors an exclusive entity has at most one writer below
/// the manual band.
pub proof fn law_exclusive_means_one_writer(h: House, keys: Seq<ExpandedView>, i: int)
    requires
        grants::resolve_errors(h, keys).len() == 0,
        0 <= i < h.entities@.len(),
        h.entities@[i].file.write_policy.in_force() == WriteMode::Exclusive,
    ensures
        grants::writers_of(
            grants::grant_table(h, keys),
            h.entities@[i].name@,
            grants::grant_table(h, keys).len(),
        ).len() <= 1,
{
    let table = grants::grant_table(h, keys);
    let f = |i: int| grants::exclusive_errors(h.entities@[i], table);
    text::lemma_each_empty(h.entities@.len(), f);
    assert(f(i).len() == 0);
}

/// In a house without errors every arbitrated entity is covered by an
/// arbiter-class publish.
pub proof fn law_arbitrated_is_covered(h: House, keys: Seq<ExpandedView>, i: int)
    requires
        grants::resolve_errors(h, keys).len() == 0,
        0 <= i < h.entities@.len(),
        h.entities@[i].file.write_policy.in_force() == WriteMode::Arbitrated,
    ensures
        grants::arbiter_covers(keys, h.entities@[i]),
{
    let f = |i: int| grants::arbitrated_errors(h.entities@[i], keys);
    text::lemma_each_empty(h.entities@.len(), f);
    assert(f(i).len() == 0);
}

proof fn lemma_latches_listen(
    h: House,
    keys: Seq<ExpandedView>,
    table: Seq<GrantView>,
    i: int,
    j: int,
)
    requires
        grants::all_latch_errors(h, keys, table, table.len()).len() == 0,
        0 <= i < table.len(),
        0 <= j < table[i].entities.len(),
    ensures
        match repo::entity_named(h.entities@, table[i].entities[j].name) {
            Some(e) => grants::is_automation(h, e.owner@) ==> grants::owner_listens(keys, e),
            None => true,
        },
{
    let f = |i: int| grants::grant_latch_errors(h, keys, table[i], table[i].entities.len());
    text::lemma_each_empty(table.len(), f);
    assert(f(i).len() == 0);
    let g = table[i];
    let k = |j: int| grants::latch_errors(h, keys, g, g.entities[j].name);
    text::lemma_each_empty(g.entities.len(), k);
    assert(k(j).len() == 0);
}

/// In a house without errors every grant onto an entity that an automation
/// binds is one the automation listens to.
pub proof fn law_commanded_latches_listen(h: House, keys: Seq<ExpandedView>, i: int, j: int)
    requires
        grants::resolve_errors(h, keys).len() == 0,
        0 <= i < grants::grant_table(h, keys).len(),
        0 <= j < grants::grant_table(h, keys)[i].entities.len(),
    ensures
        match repo::entity_named(
            h.entities@,
            grants::grant_table(h, keys)[i].entities[j].name,
        ) {
            Some(e) => grants::is_automation(h, e.owner@) ==> grants::owner_listens(keys, e),
            None => true,
        },
{
    lemma_latches_listen(h, keys, grants::grant_table(h, keys), i, j);
}

/// In a house without errors a state key that a unit publishes without
/// templates lies under an entity that the unit binds.
pub proof fn law_state_keys_are_bound(h: House, keys: Seq<ExpandedView>, i: int, j: int)
    requires
        grants::resolve_errors(h, keys).len() == 0,
        0 <= i < keys.len(),
        keys[i].direction == expand::Direction::Publishes,
        !keys[i].templated,
        0 <= j < keys[i].exprs.len(),
        keyspace::class_of(keys[i].exprs[j]) == Some("state"@),
    ensures
        grants::literal_at(keys[i].exprs[j], 2) is Some,
        grants::literal_at(keys[i].exprs[j], 3) is Some,
        grants::binds(
            h,
            keys[i].unit,
            grants::literal_at(keys[i].exprs[j], 2)->Some_0,
            grants::literal_at(keys[i].exprs[j], 3)->Some_0,
        ),
{
    let f = |i: int| grants::state_errors(h, keys[i], keys[i].exprs.len());
    text::lemma_each_empty(keys.len(), f);
    assert(f(i).len() == 0);
    let k = keys[i];
    let g = |j: int| grants::state_key_errors(h, k, k.exprs[j]);
    text::lemma_each_empty(k.exprs.len(), g);
    assert(g(j).len() == 0);
}

/// A templated command expression expands, for each entity it reaches, to
/// that entity's own keys, and never over an arbitrated entity: no unit gets
/// a cmd path to one that way.
pub proof fn law_no_template_path_to_arbitrated(
    h: House,
    unit: Seq<char>,
    k: Seq<SegmentView>,
    m: int,
)
    requires
        keyspace::templated(k),
        keyspace::class_of(k) == Some("cmd"@),
        0 <= m < expand::exprs_of(h, unit, k).len(),
    ensures
        exists|i: int|
            0 <= i < h.entities@.len() && (#[trigger] h.entities@[i]).owner@ == unit
                && h.entities@[i].file.write_policy.in_force() != WriteMode::Arbitrated
                && expand::exprs_of(h, unit, k)[m] == keyspace::substituted(
                k,
                h.entities@[i].file.entity.room@,
                h.entities@[i].name@,
            ),
{
    let entities = h.entities@;
    let f = |i: int|
        text::only_if(
            expand::expands_over(entities[i], unit, k),
            keyspace::substituted(k, entities[i].file.entity.room@, entities[i].name@),
        );
    let i = text::lemma_in_each(entities.len(), f, m);
    assert(f(i).contains(expand::exprs_of(h, unit, k)[m]));
    assert(h.entities@[i].owner@ == unit);
}

proof fn lemma_deduped_contains<V>(s: Seq<V>, x: V)
    requires
        order::deduped(s).contains(x),
    ensures
        s.contains(x),
    decreases s.len(),
{
    if s.len() > 1 {
        let d = s.drop_last();
        let r = order::deduped(s);
        let k = r.index_of(x);
        if s.last() == s[s.len() - 2] || k < order::deduped(d).len() {
            assert(order::deduped(d).contains(x)) by {
                assert(order::deduped(d)[k] == x);
            }
            lemma_deduped_contains(d, x);
            let m = d.index_of(x);
            assert(s[m] == x);
        } else {
            assert(s[s.len() - 1] == x);
        }
    }
}

/// Each record of the grant table states the room, write mode and owner that
/// an entity of the house has now: an entity that moved, changed its write
/// mode or was bound anew cannot keep its record, so the change shows as a
/// grant delta.
pub proof fn law_grant_table_records_policy(h: House, keys: Seq<ExpandedView>, i: int, j: int)
    requires
        0 <= i < grants::grant_table(h, keys).len(),
        0 <= j < grants::grant_table(h, keys)[i].entities.len(),
    ensures
        exists|m: int|
            0 <= m < h.entities@.len() && grants::granted_record(#[trigger] h.entities@[m])
                == grants::grant_table(h, keys)[i].entities[j],
{
    let table = grants::grant_table(h, keys);
    let raw = grants::raw_grants(h, keys, keys.len());
    order::lemma_sorted::<grants::Grant>(raw);
    vstd::seq_lib::to_multiset_contains(table, table[i]);
    vstd::seq_lib::to_multiset_contains(raw, table[i]);
    let r = raw.index_of(table[i]);
    let f = |i: int| grants::key_grants(h, keys[i]);
    let k = text::lemma_in_each(keys.len(), f, r);
    assert(f(k).contains(raw[r]));
    let capability = grants::declaration(h, keys[k]).capability->Some_0@;
    let found = grants::reached(h, keys[k], capability, h.entities@.len());
    let x = table[i].entities[j];
    assert(grants::granted(h, keys[k], capability).contains(x)) by {
        assert(table[i].entities == grants::granted(h, keys[k], capability));
    }
    let s = order::sorted::<grants::GrantEntity>(found);
    lemma_deduped_contains(s, x);
    order::lemma_sorted::<grants::GrantEntity>(found);
    vstd::seq_lib::to_multiset_contains(s, x);
    vstd::seq_lib::to_multiset_contains(found, x);
    let p = found.index_of(x);
    let g = |i: int|
        text::only_if(
            grants::grants_onto(keys[k], capability, h.entities@[i]),
            grants::granted_record(h.entities@[i]),
        );
    let m = text::lemma_in_each(h.entities@.len(), g, p);
    assert(g(m).contains(found[p]));
    assert(grants::granted_record(h.entities@[m]) == x);
}

/// The running unit is the one the repo describes.
pub open spec fn unit_settled(u: LoadedUnit, repo: RepoUnit, world: World) -> bool {
    match names::lookup(world.units@, u.manifest.unit.name@) {
        Some(w) => w.manifest_hash@ == content::hash_of(repo.manifest@) && w.files_hash@
            == repo.files_hash@,
        None => false,
    }
}

/// Every parameter of the unit that the world knows is at its default.
pub open spec fn params_settled(u: LoadedUnit, world: World) -> bool {
    u.manifest.params matches Some(params) ==> forall|j: int|
        0 <= j < params@.len() ==> match names::lookup(
            world.params@,
            (u.manifest.unit.name@, (#[trigger] params@[j]).0@),
        ) {
            Some(live) => json::json_same(live@, config::default_view(params@[j].1)),
            None => true,
        }
}

/// The world is as the repo describes it: the same units on the same files,
/// the same parameter values, the same grants.
pub open spec fn settled(
    h: House,
    table: Seq<GrantView>,
    repo: Seq<RepoUnit>,
    world: World,
) -> bool {
    let running = text::views(world.grants@);
    &&& forall|i: int|
        0 <= i < h.units@.len() ==> unit_settled(#[trigger] h.units@[i], repo[i], world)
    &&& forall|i: int| 0 <= i < h.units@.len() ==> params_settled(#[trigger] h.units@[i], world)
    &&& forall|i: int|
        0 <= i < world.units@.len() ==> repo::unit_named(
            h.units@,
            (#[trigger] world.units@[i]).0@,
        ) is Some
    &&& forall|i: int| 0 <= i < table.len() ==> running.contains(#[trigger] table[i])
    &&& forall|i: int| 0 <= i < running.len() ==> table.contains(#[trigger] running[i])
}

proof fn lemma_grants_settled(table: Seq<GrantView>, other: Seq<GrantView>)
    ensures
        plan::grants_not_in(table, other, table.len()).len() == 0 <==> forall|i: int|
            0 <= i < table.len() ==> other.contains(#[trigger] table[i]),
{
    let f = |i: int| text::only_if(!other.contains(table[i]), table[i]);
    text::lemma_each_empty(table.len(), f);
    if forall|i: int| 0 <= i < table.len() ==> other.contains(#[trigger] table[i]) {
        assert forall|i: int| 0 <= i < table.len() implies (#[trigger] f(i)).len() == 0 by {
            assert(other.contains(table[i]));
        }
    }
    if plan::grants_not_in(table, other, table.len()).len() == 0 {
        assert forall|i: int| 0 <= i < table.len() implies other.contains(#[trigger] table[i]) by {
            assert(f(i).len() == 0);
        }
    }
}

proof fn lemma_drifts_settled(u: LoadedUnit, world: World)
    requires
        names::lookup(world.units@, u.manifest.unit.name@) is Some,
    ensures
        plan::unit_drifts(u, world).len() == 0 <==> params_settled(u, world),
{
    if u.manifest.params is Some {
        let params = u.manifest.params->Some_0@;
        let f = |j: int|
            plan::param_drift(u.manifest.unit.name@, params[j].0@, params[j].1, world);
        text::lemma_each_empty(params.len(), f);
        if params_settled(u, world) {
            assert forall|j: int| 0 <= j < params.len() implies (#[trigger] f(j)).len() == 0 by {
                assert(params[j].0@ == u.manifest.params->Some_0@[j].0@);
            }
        }
        if plan::unit_drifts(u, world).len() == 0 {
            assert forall|j: int| 0 <= j < params.len() implies match names::lookup(
                world.params@,
                (u.manifest.unit.name@, (#[trigger] params[j]).0@),
            ) {
                Some(live) => json::json_same(live@, config::default_view(params[j].1)),
                None => true,
            } by {
                assert(f(j).len() == 0);
            }
        }
    }
}

/// A plan says that nothing changes exactly where the world is as the repo
/// describes it.
pub proof fn law_no_change_means_settled(
    h: House,
    table: Seq<GrantView>,
    repo: Seq<RepoUnit>,
    world: World,
)
    requires
        repo.len() == h.units@.len(),
    ensures
        plan::no_change(plan::diff_of(h, table, repo, world)) <==> settled(h, table, repo, world),
{
    let n = h.units@.len();
    let d = plan::diff_of(h, table, repo, world);
    let running = text::views(world.grants@);
    let fc = |i: int| plan::unit_creates(h.units@[i], world);
    let fr = |i: int| plan::unit_restarts(h.units@[i], repo[i], world);
    let ff = |i: int| plan::unit_refreshes(h.units@[i], repo[i], world);
    let fp = |i: int| plan::unit_drifts(h.units@[i], world);
    let fd = |i: int|
        text::only_if(
            repo::unit_named(h.units@, world.units@[i].0@) is None,
            world.units@[i].0@,
        );
    text::lemma_each_empty(n, fc);
    text::lemma_each_empty(n, fr);
    text::lemma_each_empty(n, ff);
    text::lemma_each_empty(n, fp);
    text::lemma_each_empty(world.units@.len(), fd);
    order::lemma_sorted::<String>(plan::all_creates(h, world, n));
    order::lemma_sorted::<String>(plan::all_destroys(h, world, world.units@.len()));
    order::lemma_sorted::<plan::Restart>(plan::all_restarts(h, repo, world, n));
    lemma_grants_settled(table, running);
    lemma_grants_settled(running, table);
    if settled(h, table, repo, world) {
        assert forall|i: int| 0 <= i < n implies (#[trigger] fc(i)).len() == 0 by {
            assert(unit_settled(h.units@[i], repo[i], world));
        }
        assert forall|i: int| 0 <= i < n implies (#[trigger] fr(i)).len() == 0 by {
            assert(unit_settled(h.units@[i], repo[i], world));
        }
        assert forall|i: int| 0 <= i < n implies (#[trigger] ff(i)).len() == 0 by {
            assert(unit_settled(h.units@[i], repo[i], world));
        }
        assert forall|i: int| 0 <= i < n implies (#[trigger] fp(i)).len() == 0 by {
            assert(unit_settled(h.units@[i], repo[i], world));
            assert(params_settled(h.units@[i], world));
            lemma_drifts_settled(h.units@[i], world);
        }
        assert forall|i: int| 0 <= i < world.units@.len() implies (#[trigger] fd(i)).len() == 0 by {
            assert(repo::unit_named(h.units@, world.units@[i].0@) is Some);
        }
    }
    if plan::no_change(d) {
        assert forall|i: int| 0 <= i < n implies unit_settled(
            #[trigger] h.units@[i],
            repo[i],
            world,
        ) && params_settled(h.units@[i], world) by {
            assert(fc(i).len() == 0);
            assert(fr(i).len() == 0);
            assert(ff(i).len() == 0);
            assert(fp(i).len() == 0);
            lemma_drifts_settled(h.units@[i], world);
        }
        assert forall|i: int| 0 <= i < world.units@.len() implies repo::unit_named(
            h.units@,
            (#[trigger] world.units@[i]).0@,
        ) is Some by {
            assert(fd(i).len() == 0);
        }
    }
}

/// Once a unit's step succeeded and its entry is recorded as the repo
/// describes it, the next plan has no change for it, and for every other unit
/// the very changes it had.
pub proof fn law_recording_settles_one_unit(
    u: LoadedUnit,
    repo: RepoUnit,
    before: World,
    after: World,
    name: String,
    entry: WorldUnit,
    v: LoadedUnit,
    r: RepoUnit,
)
    requires
        name@ == u.manifest.unit.name@,
        entry.manifest_hash@ == content::hash_of(repo.manifest@),
        entry.files_hash@ == repo.files_hash@,
        after.units@ == names::put(before.units@, name, entry),
        after.params == before.params,
    ensures
        plan::unit_creates(u, after).len() == 0,
        plan::unit_restarts(u, repo, after).len() == 0,
        plan::unit_refreshes(u, repo, after).len() == 0,
        v.manifest.unit.name@ != name@ ==> {
            &&& plan::unit_creates(v, after) == plan::unit_creates(v, before)
            &&& plan::unit_restarts(v, r, after) == plan::unit_restarts(v, r, before)
            &&& plan::unit_refreshes(v, r, after) == plan::unit_refreshes(v, r, before)
            &&& plan::unit_drifts(v, after) == plan::unit_drifts(v, before)
        },
{
    names::lemma_lookup_put(before.units@, name, entry, u.manifest.unit.name@);
    names::lemma_lookup_put(before.units@, name, entry, v.manifest.unit.name@);
    if v.manifest.params is Some {
        lemma_drifts_depend_on_params(v, before, after, v.manifest.params->Some_0@.len());
    }
}

proof fn lemma_drifts_depend_on_params(u: LoadedUnit, a: World, b: World, n: nat)
    requires
        a.params == b.params,
    ensures
        plan::drifts(u, a, n) == plan::drifts(u, b, n),
    decreases n,
{
    if n > 0 {
        lemma_drifts_depend_on_params(u, a, b, (n - 1) as nat);
    }
}

/// A plan is structural exactly where units come or go or the grant table
/// changes: no such change passes as a smaller one.
pub proof fn law_grant_delta_is_structural(d: DiffView)
    ensures
        plan::tier_of(d) == plan::Tier::Structure <==> d.creates.len() > 0 || d.destroys.len() > 0
            || d.grant_adds.len() > 0 || d.grant_removes.len() > 0,
        plan::tier_of(d) == plan::Tier::ParameterOnly ==> d.restarts.len() == 0,
{
}

/// A walk stops each unit that goes, then starts or restarts each unit to
/// start or restart: each once, and no other.
pub proof fn law_walk_is_complete(d: DiffView, h: House, table: Seq<GrantView>, world: World)
    ensures
        step_units(plan::starts_of(d, h, table)).to_multiset() == plan::start_names(
            d,
        ).to_multiset(),
        step_units(plan::stops_of(d, world)).to_multiset() == order::distinct(
            d.destroys,
        ).to_multiset(),
{
    let edges = grants::grant_edges_of(table, table.len());
    let set = plan::start_set(d, h);
    let walk = graph::layered(edges, set);
    graph::law_ordered_permutes(edges, set);
    assert(step_units(plan::starts_of(d, h, table)) =~= graph::firsts(walk));
    assert(plan::start_names(d) =~= graph::firsts(set));
    lemma_firsts_multiset(walk, set);
    let running = text::views(world.grants@);
    let run_edges = grants::grant_edges_of(running, running.len());
    let stop_set = plan::stop_set(d, world);
    let back = graph::layered(run_edges, stop_set);
    graph::law_ordered_permutes(run_edges, stop_set);
    assert(step_units(plan::stops_of(d, world)) =~= graph::firsts(back).reverse());
    assert(order::distinct(d.destroys) =~= graph::firsts(stop_set));
    lemma_firsts_multiset(back, stop_set);
    lemma_reversed_multiset(graph::firsts(back));
}

/// The units of the steps.
pub open spec fn step_units(steps: Seq<StepView>) -> Seq<Seq<char>> {
    Seq::new(steps.len(), |i: int| steps[i].unit)
}

proof fn lemma_reversed_multiset(s: Seq<Seq<char>>)
    ensures
        s.reverse().to_multiset() == s.to_multiset(),
    decreases s.len(),
{
    broadcast use vstd::seq_lib::group_to_multiset_ensures;
    broadcast use vstd::multiset::group_multiset_axioms;

    if s.len() == 0 {
        assert(s.reverse() =~= s);
    } else {
        let d = s.drop_last();
        lemma_reversed_multiset(d);
        assert(s.reverse() =~= seq![s.last()] + d.reverse());
        vstd::seq_lib::lemma_multiset_commutative(seq![s.last()], d.reverse());
        assert(seq![s.last()] =~= Seq::empty().push(s.last()));
        assert(s =~= d.push(s.last()));
        assert(s.reverse().to_multiset() =~= s.to_multiset());
    }
}

proof fn lemma_firsts_multiset(a: Seq<(Seq<char>, u8)>, b: Seq<(Seq<char>, u8)>)
    requires
        a.to_multiset() == b.to_multiset(),
    ensures
        graph::firsts(a).to_multiset() == graph::firsts(b).to_multiset(),
    decreases a.len(),
{
    broadcast use vstd::seq_lib::group_to_multiset_ensures;
    broadcast use vstd::multiset::group_multiset_axioms;

    assert(a.to_multiset().len() == a.len());
    assert(b.to_multiset().len() == b.len());
    if a.len() == 0 {
        assert(graph::firsts(a) =~= graph::firsts(b));
    } else {
        let x = a.last();
        vstd::seq_lib::to_multiset_contains(a, x);
        assert(a[a.len() - 1] == x);
        vstd::seq_lib::to_multiset_contains(b, x);
        let k = b.index_of(x);
        let c = a.drop_last();
        let d = b.remove(k);
        assert(a =~= c.push(x));
        assert(c.to_multiset() =~= a.to_multiset().remove(x));
        vstd::seq_lib::to_multiset_remove(b, k);
        lemma_firsts_multiset(c, d);
        assert(graph::firsts(a) =~= graph::firsts(c).push(x.0));
        let fb = graph::firsts(b);
        assert(graph::firsts(d) =~= fb.remove(k));
        vstd::seq_lib::to_multiset_remove(fb, k);
        assert(fb[k] == x.0);
        vstd::seq_lib::to_multiset_contains(fb, x.0);
        assert(fb.to_multiset() =~= fb.to_multiset().remove(x.0).insert(x.0));
    }
}

/// A default that is no finite number.
pub open spec fn endless(spec: ParamSpec) -> bool {
    spec.default.data matches TomlData::Float(f) && !floats::finite(f.bits())
}

proof fn lemma_fitting_default(spec: ParamSpec)
    requires
        validate::default_fits(spec),
        spec.constraint is None,
        !endless(spec),
    ensures
        config::default_fault(spec) is None,
{
}

proof fn lemma_sound_default(subject: Seq<char>, spec: ParamSpec, path: Seq<char>)
    requires
        validate::param_errors(subject, spec, path).len() == 0,
        spec.constraint is Some || !endless(spec),
    ensures
        config::default_fault(spec) is None,
{
    if spec.constraint is None {
        lemma_fitting_default(spec);
    }
}

/// In a house that validation accepts, every parameter's default has its type
/// and keeps to its constraint, so an out-of-constraint default never reaches
/// a running unit. A float default that is infinite or not a number, on a
/// parameter without constraint, is the one that validation does not see.
pub proof fn law_valid_defaults_are_sound(h: House, i: int)
    requires
        validate::house_errors(h).len() == 0,
        0 <= i < h.units@.len(),
        h.units@[i].manifest.params matches Some(params) ==> forall|j: int|
            0 <= j < params@.len() ==> (#[trigger] params@[j]).1.constraint is Some || !endless(
                params@[j].1,
            ),
    ensures
        config::sound_defaults(h.units@[i]),
{
    let u = h.units@[i];
    let f = |i: int|
        match h.units@[i].manifest.params {
            Some(params) => validate::unit_params_errors(h.units@[i], params@.len()),
            None => Seq::empty(),
        };
    text::lemma_each_empty(h.units@.len(), f);
    assert(f(i).len() == 0);
    if u.manifest.params is Some {
        let params = u.manifest.params->Some_0@;
        let g = |j: int|
            validate::param_errors(u.manifest.unit.name@ + "."@ + params[j].0@, params[j].1, u.path@);
        text::lemma_each_empty(params.len(), g);
        assert forall|j: int| 0 <= j < params.len() implies config::default_fault(
            (#[trigger] params[j]).1,
        ) is None by {
            assert(g(j).len() == 0);
            lemma_sound_default(
                u.manifest.unit.name@ + "."@ + params[j].0@,
                params[j].1,
                u.path@,
            );
        }
    }
}

/// Expansion leaves no template: what a unit is granted are concrete
/// expressions.
pub proof fn law_expansion_leaves_no_template(h: House, unit: Seq<char>, k: Seq<SegmentView>, m: int)
    requires
        0 <= m < expand::exprs_of(h, unit, k).len(),
    ensures
        !keyspace::templated(expand::exprs_of(h, unit, k)[m]),
{
    if keyspace::templated(k) {
        let entities = h.entities@;
        let f = |i: int|
            text::only_if(
                expand::expands_over(entities[i], unit, k),
                keyspace::substituted(k, entities[i].file.entity.room@, entities[i].name@),
            );
        let i = text::lemma_in_each(entities.len(), f, m);
        assert(f(i).contains(expand::exprs_of(h, unit, k)[m]));
    }
}

/// The expression names no zone beside a template, and no entity in its room
/// slot.
pub open spec fn room_slot_expands(h: House, k: Seq<SegmentView>) -> bool {
    &&& keyspace::templated(k) ==> expand::zone_of(h, k) is None
    &&& keyspace::room_of(k) != Some(SegmentView::EntityTemplate)
}

proof fn lemma_rooms_are_no_zones(h: House, room: Seq<char>)
    requires
        validate::zones_errors(h, h.zones@.len()).len() == 0,
        repo::rooms_of(h.entities@).contains(room),
    ensures
        names::lookup(h.zones@, room) is None,
{
    let rooms = repo::rooms_of(h.entities@);
    let f = |i: int| validate::zone_errors(rooms, h.zones@[i].0@, h.zones@[i].1@);
    text::lemma_each_empty(h.zones@.len(), f);
    if names::lookup(h.zones@, room) is Some {
        let i = lemma_found_at(h.zones@, room);
        assert(f(i).len() == 0);
    }
}

proof fn lemma_found_at(s: Seq<(String, Vec<String>)>, name: Seq<char>) -> (i: int)
    requires
        names::lookup(s, name) is Some,
    ensures
        0 <= i < s.len(),
        s[i].0@ == name,
        s[i].1 == names::lookup(s, name)->Some_0,
    decreases s.len(),
{
    if s[0].0@ == name {
        0
    } else {
        let i = lemma_found_at(s.drop_first(), name);
        i + 1
    }
}

/// Zones never appear in keys: in a house whose zones are valid, no expanded
/// expression has a zone's name for its room.
pub proof fn law_zones_never_appear_in_keys(
    h: House,
    unit: Seq<char>,
    raw: Seq<char>,
    k: Seq<SegmentView>,
    m: int,
)
    requires
        validate::zones_errors(h, h.zones@.len()).len() == 0,
        expand::checked(raw) == Ok::<Seq<SegmentView>, Seq<char>>(k),
        room_slot_expands(h, k),
        0 <= m < expand::exprs_of(h, unit, k).len(),
    ensures
        expand::zone_of(h, expand::exprs_of(h, unit, k)[m]) is None,
{
    let e = expand::exprs_of(h, unit, k)[m];
    let entities = h.entities@;
    let rooms = repo::rooms_of(entities);
    if keyspace::templated(k) {
        let f = |i: int|
            text::only_if(
                expand::expands_over(entities[i], unit, k),
                keyspace::substituted(k, entities[i].file.entity.room@, entities[i].name@),
            );
        let i = text::lemma_in_each(entities.len(), f, m);
        assert(f(i).contains(e));
        let room = entities[i].file.entity.room@;
        let named = Seq::new(entities.len(), |i: int| entities[i].file.entity.room@);
        order::lemma_distinct(named);
        assert(named[i] == room);
        assert(named.contains(room));
        assert(order::distinct(named).contains(room));
        lemma_rooms_are_no_zones(h, room);
        assert(e[1] == k[1]);
    } else if expand::zone_of(h, k) is Some {
        let zone = expand::zone_of(h, k)->Some_0.0;
        let members = expand::zone_of(h, k)->Some_0.1;
        let i = lemma_found_at(h.zones@, zone);
        let f = |i: int| validate::zone_errors(rooms, h.zones@[i].0@, h.zones@[i].1@);
        text::lemma_each_empty(h.zones@.len(), f);
        assert(f(i).len() == 0);
        let g = |j: int| validate::member_errors(rooms, zone, members@[j]@);
        text::lemma_each_empty(members@.len(), g);
        assert(g(m).len() == 0);
        lemma_rooms_are_no_zones(h, members@[m]@);
        assert(e[1] == k[1]);
    }
}

/// Whether the manifest declares the entry that was expanded.
pub open spec fn declares(u: LoadedUnit, x: ExpandedView) -> bool {
    &&& x.unit == u.manifest.unit.name@
    &&& u.manifest.bus is Some
    &&& match x.direction {
        expand::Direction::Publishes => exists|j: int|
            0 <= j < u.manifest.bus->Some_0.publishes@.len() && (
            #[trigger] u.manifest.bus->Some_0.publishes@[j]).0@ == x.entry
                && u.manifest.bus->Some_0.publishes@[j].1.key@ == x.source,
        expand::Direction::Subscribes => exists|j: int|
            0 <= j < u.manifest.bus->Some_0.subscribes@.len() && (
            #[trigger] u.manifest.bus->Some_0.subscribes@[j]).0@ == x.entry
                && u.manifest.bus->Some_0.subscribes@[j].1@ == x.source,
    }
}

/// A unit has exactly the surface its manifest declares: each expanded entry
/// is an entry of a manifest of the house, under its unit's name.
pub proof fn law_expanded_entries_are_declared(h: House, n: int)
    requires
        0 <= n < expand::house_keys(h, h.units@.len()).len(),
    ensures
        exists|i: int|
            0 <= i < h.units@.len() && declares(
                #[trigger] h.units@[i],
                expand::house_keys(h, h.units@.len())[n],
            ),
{
    let keys = expand::house_keys(h, h.units@.len());
    let f = |i: int| expand::unit_keys(h, h.units@[i]);
    let i = text::lemma_in_each(h.units@.len(), f, n);
    let u = h.units@[i];
    let x = keys[n];
    let part = expand::unit_keys(h, u);
    assert(part.contains(x));
    let p = part.index_of(x);
    let bus = u.manifest.bus->Some_0;
    let published = expand::publish_keys(h, u, bus.publishes@.len());
    if p < published.len() {
        let g = |j: int|
            expand::entry_keys(
                h,
                u,
                bus.publishes@[j].0@,
                bus.publishes@[j].1.key@,
                expand::Direction::Publishes,
            );
        let j = text::lemma_in_each(bus.publishes@.len(), g, p);
        assert(g(j).contains(x));
        assert(bus.publishes@[j].0@ == x.entry);
    } else {
        let g = |j: int|
            expand::entry_keys(
                h,
                u,
                bus.subscribes@[j].0@,
                bus.subscribes@[j].1@,
                expand::Direction::Subscribes,
            );
        let q = p - published.len();
        let j = text::lemma_in_each(bus.subscribes@.len(), g, q);
        assert(g(j).contains(x));
        assert(bus.subscribes@[j].0@ == x.entry);
    }
    assert(declares(h.units@[i], x));
}

/// A parameter-only plan walks nowhere: nothing restarts. A behavioral one
/// restarts units, and does nothing else.
pub proof fn law_smaller_tiers_walk_less(d: DiffView, h: House, table: Seq<GrantView>, world: World)
    ensures
        plan::tier_of(d) == plan::Tier::ParameterOnly ==> plan::walk_of(d, h, table, world).len()
            == 0,
        plan::tier_of(d) == plan::Tier::Behavioral ==> forall|i: int|
            0 <= i < plan::walk_of(d, h, table, world).len() ==> (#[trigger] plan::walk_of(
                d,
                h,
                table,
                world,
            )[i]).action == plan::StepAction::Restart,
{
    let running = text::views(world.grants@);
    let stops = plan::stop_set(d, world);
    let starts = plan::start_set(d, h);
    graph::law_ordered_permutes(grants::grant_edges_of(running, running.len()), stops);
    graph::law_ordered_permutes(grants::grant_edges_of(table, table.len()), starts);
    order::lemma_distinct(d.destroys);
    let all = d.creates + Seq::new(d.restarts.len(), |i: int| d.restarts[i].name);
    order::lemma_distinct(all);
    if d.destroys.len() == 0 {
        let none = order::distinct(d.destroys);
        if none.len() > 0 {
            assert(none.contains(none[0]));
        }
    }
    if all.len() == 0 {
        let none = order::distinct(all);
        if none.len() > 0 {
            assert(none.contains(none[0]));
        }
        assert(plan::start_names(d) == none);
    }
}

/// In a house without errors every name that becomes a key segment is one:
/// units, parameters, entities, rooms and zones.
pub proof fn law_valid_names_are_segments(h: House)
    requires
        validate::names_errors(h).len() == 0,
    ensures
        forall|i: int|
            0 <= i < h.units@.len() ==> validate::is_segment(
                (#[trigger] h.units@[i]).manifest.unit.name@,
            ) && h.units@[i].manifest.unit.name@ != "system"@,
        forall|i: int, j: int|
            0 <= i < h.units@.len() && h.units@[i].manifest.params is Some && 0 <= j
                < h.units@[i].manifest.params->Some_0@.len() ==> validate::is_segment(
                (#[trigger] h.units@[i].manifest.params->Some_0@[j]).0@,
            ),
        forall|i: int|
            0 <= i < h.entities@.len() ==> validate::is_segment((#[trigger] h.entities@[i]).name@)
                && validate::is_segment(h.entities@[i].file.entity.room@),
        forall|i: int|
            0 <= i < h.zones@.len() ==> validate::is_segment((#[trigger] h.zones@[i]).0@),
{
    let fu = |i: int| validate::unit_name_errors(h.units@[i]);
    let fe = |i: int| validate::entity_name_errors(h.entities@[i]);
    let fz = |i: int|
        validate::name_errors(h.zones@[i].0@, "zone name"@, h.zones@[i].0@, "zones.toml"@);
    text::lemma_each_empty(h.units@.len(), fu);
    text::lemma_each_empty(h.entities@.len(), fe);
    text::lemma_each_empty(h.zones@.len(), fz);
    assert forall|i: int| 0 <= i < h.units@.len() implies validate::is_segment(
        (#[trigger] h.units@[i]).manifest.unit.name@,
    ) && h.units@[i].manifest.unit.name@ != "system"@ by {
        assert(fu(i).len() == 0);
    }
    assert forall|i: int, j: int|
        0 <= i < h.units@.len() && h.units@[i].manifest.params is Some && 0 <= j
            < h.units@[i].manifest.params->Some_0@.len() implies validate::is_segment(
        (#[trigger] h.units@[i].manifest.params->Some_0@[j]).0@,
    ) by {
        let u = h.units@[i];
        let params = u.manifest.params->Some_0@;
        let unit = u.manifest.unit.name@;
        assert(fu(i).len() == 0);
        let g = |j: int|
            validate::name_errors(
                unit + "."@ + params[j].0@,
                "parameter name"@,
                params[j].0@,
                u.path@,
            );
        text::lemma_each_empty(params.len(), g);
        assert(g(j).len() == 0);
    }
    assert forall|i: int| 0 <= i < h.entities@.len() implies validate::is_segment(
        (#[trigger] h.entities@[i]).name@,
    ) && validate::is_segment(h.entities@[i].file.entity.room@) by {
        assert(fe(i).len() == 0);
    }
    assert forall|i: int| 0 <= i < h.zones@.len() implies validate::is_segment(
        (#[trigger] h.zones@[i]).0@,
    ) by {
        assert(fz(i).len() == 0);
    }
}

/// In a house without errors each view of the dashboard is a generated one or
/// a composition, never both or neither.
pub proof fn law_valid_views_are_one_of_two(h: House, i: int)
    requires
        validate::dashboard_errors(h).len() == 0,
        0 <= i < validate::views_in(h).len(),
    ensures
        validate::views_in(h)[i].kind is Some <==> validate::views_in(h)[i].widgets@.len() == 0,
{
    let views = validate::views_in(h);
    let f = |i: int| validate::view_errors(h, views, i);
    text::lemma_each_empty(views.len(), f);
    assert(f(i).len() == 0);
}

} // verus!

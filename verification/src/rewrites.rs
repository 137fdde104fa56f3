//! What rewriting a manifest means to a plan.

use crate::names;
use crate::plan;
use crate::plan::RepoUnit;
use crate::plan::World;
use crate::repo::LoadedUnit;
use crate::text;
use crate::tomlvalue;
use crate::tomlvalue::TomlDataView;
use crate::tomlvalue::TomlView;
use vstd::prelude::*;

verus! {

/// Entry by entry, the same keys with the same values.
pub open spec fn same_entries(
    x: Seq<(Seq<char>, TomlView)>,
    y: Seq<(Seq<char>, TomlView)>,
) -> bool {
    &&& x.len() == y.len()
    &&& forall|i: int|
        0 <= i < x.len() ==> (#[trigger] x[i]).0 == y[i].0 && tomlvalue::toml_same(x[i].1, y[i].1)
}

proof fn lemma_same_entry(
    x: Seq<(Seq<char>, TomlView)>,
    y: Seq<(Seq<char>, TomlView)>,
    key: Seq<char>,
)
    requires
        same_entries(x, y),
    ensures
        plan::same_optional(tomlvalue::entry(x, key), tomlvalue::entry(y, key)),
    decreases x.len(),
{
    if x.len() > 0 {
        assert(x[0].0 == y[0].0);
        let d = x.drop_first();
        let e = y.drop_first();
        assert forall|i: int| 0 <= i < d.len() implies (#[trigger] d[i]).0 == e[i].0
            && tomlvalue::toml_same(d[i].1, e[i].1) by {
            assert(x[i + 1].0 == y[i + 1].0);
        }
        lemma_same_entry(d, e, key);
    }
}

proof fn lemma_same_member(a: TomlView, b: TomlView, key: Seq<char>)
    requires
        tomlvalue::toml_same(a, b),
    ensures
        plan::same_optional(tomlvalue::member(a, key), tomlvalue::member(b, key)),
{
    if let TomlDataView::Table(x) = a.data {
        if let TomlDataView::Table(y) = b.data {
            lemma_same_entry(x, y, key);
        }
    }
}

proof fn lemma_same_kept(
    x: Seq<(Seq<char>, TomlView)>,
    y: Seq<(Seq<char>, TomlView)>,
    n: nat,
)
    requires
        same_entries(x, y),
        n <= x.len(),
    ensures
        same_entries(plan::kept_fields(x, n), plan::kept_fields(y, n)),
    decreases n,
{
    if n > 0 {
        let m = (n - 1) as nat;
        lemma_same_kept(x, y, m);
        assert(x[m as int].0 == y[m as int].0);
    }
}

proof fn lemma_same_stripped_param(a: TomlView, b: TomlView)
    requires
        tomlvalue::toml_same(a, b),
    ensures
        tomlvalue::toml_same(plan::stripped_param(a), plan::stripped_param(b)),
{
    if let TomlDataView::Table(x) = a.data {
        if let TomlDataView::Table(y) = b.data {
            lemma_same_kept(x, y, x.len());
        }
    }
}

proof fn lemma_same_stripped_params(a: TomlView, b: TomlView)
    requires
        tomlvalue::toml_same(a, b),
    ensures
        tomlvalue::toml_same(plan::stripped_params(a), plan::stripped_params(b)),
{
    if let TomlDataView::Table(x) = a.data {
        if let TomlDataView::Table(y) = b.data {
            assert forall|i: int| 0 <= i < x.len() implies tomlvalue::toml_same(
                plan::stripped_param((#[trigger] x[i]).1),
                plan::stripped_param(y[i].1),
            ) by {
                lemma_same_stripped_param(x[i].1, y[i].1);
            }
        }
    }
}

proof fn lemma_same_stripped(a: TomlView, b: TomlView)
    requires
        tomlvalue::toml_same(a, b),
    ensures
        tomlvalue::toml_same(plan::stripped(a), plan::stripped(b)),
{
    if let TomlDataView::Table(x) = a.data {
        if let TomlDataView::Table(y) = b.data {
            assert forall|i: int| 0 <= i < x.len() && (#[trigger] x[i]).0
                == "params"@ implies tomlvalue::toml_same(
                plan::stripped_params(x[i].1),
                plan::stripped_params(y[i].1),
            ) by {
                lemma_same_stripped_params(x[i].1, y[i].1);
            }
        }
    }
}

proof fn lemma_entry_at(m: Seq<(Seq<char>, TomlView)>, i: int)
    requires
        0 <= i < m.len(),
        forall|j: int| 0 <= j < i ==> (#[trigger] m[j]).0 != m[i].0,
    ensures
        tomlvalue::entry(m, m[i].0) == Some(m[i].1),
    decreases m.len(),
{
    if i > 0 {
        let d = m.drop_first();
        assert(m[0].0 != m[i].0);
        assert forall|j: int| 0 <= j < i - 1 implies (#[trigger] d[j]).0 != d[i - 1].0 by {
            assert(m[j + 1].0 != m[i].0);
        }
        lemma_entry_at(d, i - 1);
    }
}

/// A manifest that was only formatted or commented anew is no reason to
/// restart its unit, and its refresh lists no change. (Two documents that
/// hold a NaN are never the same.)
pub proof fn law_formatting_is_no_change(repo: Seq<u8>, world: Seq<u8>, a: TomlView, b: TomlView)
    requires
        tomlvalue::document(repo) == Some(a),
        tomlvalue::document(world) == Some(b),
        tomlvalue::toml_same(a, b),
        forall|i: int, j: int|
            0 <= i < j < plan::params_in(world).len() ==> (#[trigger] plan::params_in(world)[i]).0
                != (#[trigger] plan::params_in(world)[j]).0,
    ensures
        plan::same_but_values(repo, world),
        plan::changes_between(
            plan::params_in(repo),
            plan::params_in(world),
            plan::params_in(repo).len(),
        ).len() == 0,
{
    lemma_same_stripped(a, b);
    lemma_same_member(a, b, "params"@);
    let new = plan::params_in(repo);
    let before = plan::params_in(world);
    assert(same_entries(new, before));
    let f = |i: int|
        plan::param_changes(new[i].0, new[i].1, tomlvalue::entry(before, new[i].0));
    text::lemma_each_empty(new.len(), f);
    assert forall|i: int| 0 <= i < new.len() implies (#[trigger] f(i)).len() == 0 by {
        assert(new[i].0 == before[i].0);
        lemma_entry_at(before, i);
        lemma_same_member(new[i].1, before[i].1, "default"@);
        lemma_same_member(new[i].1, before[i].1, "constraint"@);
        lemma_same_member(new[i].1, before[i].1, "editable_by"@);
    }
}

/// Editing the defaults, the constraints or the editors of parameters never
/// restarts a unit, as long as its other files stay.
pub proof fn law_value_edits_do_not_restart(u: LoadedUnit, repo: RepoUnit, world: World)
    requires
        names::lookup(world.units@, u.manifest.unit.name@) matches Some(running)
            && plan::same_but_values(repo.manifest@, running.manifest@) && running.files_hash@
            == repo.files_hash@,
    ensures
        plan::unit_restarts(u, repo, world).len() == 0,
{
}

} // verus!

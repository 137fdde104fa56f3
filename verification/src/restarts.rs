//! What a plan does to the units that run: which restart, which are only
//! refreshed, which come and go, and which parameters are set back.

use crate::config;
use crate::content;
use crate::floats;
use crate::grants::GrantView;
use crate::json;
use crate::names;
use crate::order;
use crate::plan;
use crate::plan::ParamChangeView;
use crate::plan::RepoUnit;
use crate::plan::RestartView;
use crate::plan::World;
use crate::plan::WorldUnit;
use crate::repo;
use crate::repo::House;
use crate::repo::LoadedUnit;
use crate::text;
use crate::tomlvalue;
use crate::tomlvalue::TomlDataView;
use crate::tomlvalue::TomlView;
use vstd::prelude::*;

verus! {

/// Both are absent, or both are there with the same value.
pub open spec fn alike(a: Option<TomlView>, b: Option<TomlView>) -> bool {
    &&& a is Some <==> b is Some
    &&& a is Some ==> tomlvalue::toml_same(a->Some_0, b->Some_0)
}

/// Two values of a manifest are the same exactly where they are of one kind
/// and hold the same: texts, integers and booleans as they are, floats by
/// their number, dates as they are written, arrays item by item and tables
/// entry by entry.
pub proof fn law_same_values(a: TomlView, b: TomlView)
    ensures
        tomlvalue::toml_same(a, b) <==> match a.data {
            TomlDataView::Str(s) => b.data matches TomlDataView::Str(t) && s == t,
            TomlDataView::Integer(i) => b.data matches TomlDataView::Integer(j) && i == j,
            TomlDataView::Boolean(x) => b.data matches TomlDataView::Boolean(y) && x == y,
            TomlDataView::Float(x) => b.data matches TomlDataView::Float(y) && floats::float_eq(
                floats::float_bits(x),
                floats::float_bits(y),
            ),
            TomlDataView::Datetime => b.data is Datetime && a.text == b.text,
            TomlDataView::Array(x) => b.data matches TomlDataView::Array(y) && x.len() == y.len()
                && forall|i: int|
                0 <= i < x.len() ==> tomlvalue::toml_same(#[trigger] x[i], y[i]),
            TomlDataView::Table(x) => b.data matches TomlDataView::Table(y) && x.len() == y.len()
                && forall|i: int|
                0 <= i < x.len() ==> (#[trigger] x[i]).0 == y[i].0 && tomlvalue::toml_same(
                    x[i].1,
                    y[i].1,
                ),
        },
{
}

/// The two values of a parameter agree in every field but its default, its
/// constraint and its editors.
pub open spec fn param_agrees(p: TomlView, q: TomlView) -> bool {
    if p.data is Table && q.data is Table {
        forall|field: Seq<char>|
            field != "default"@ && field != "constraint"@ && field != "editable_by"@
                ==> #[trigger] alike(tomlvalue::member(p, field), tomlvalue::member(q, field))
    } else {
        tomlvalue::toml_same(p, q)
    }
}

/// The two sets of parameters have the same names, and each parameter
/// agrees.
pub open spec fn params_agree(p: TomlView, q: TomlView) -> bool {
    if p.data is Table && q.data is Table {
        forall|name: Seq<char>|
            match (#[trigger] tomlvalue::member(p, name), tomlvalue::member(q, name)) {
                (Some(x), Some(y)) => param_agrees(x, y),
                (None, None) => true,
                _ => false,
            }
    } else {
        tomlvalue::toml_same(p, q)
    }
}

/// The two manifests agree in everything but the defaults, constraints and
/// editors of their parameters.
pub open spec fn manifests_agree(a: TomlView, b: TomlView) -> bool {
    if a.data is Table && b.data is Table {
        &&& forall|key: Seq<char>|
            key != "params"@ ==> #[trigger] alike(
                tomlvalue::member(a, key),
                tomlvalue::member(b, key),
            )
        &&& match (tomlvalue::member(a, "params"@), tomlvalue::member(b, "params"@)) {
            (Some(x), Some(y)) => params_agree(x, y),
            (None, None) => true,
            _ => false,
        }
    } else {
        tomlvalue::toml_same(a, b)
    }
}

/// Both manifests are TOML, and they agree in everything but the defaults,
/// constraints and editors of their parameters.
pub open spec fn only_values_differ(a: Seq<u8>, b: Seq<u8>) -> bool {
    match (tomlvalue::document(a), tomlvalue::document(b)) {
        (Some(x), Some(y)) => manifests_agree(x, y),
        _ => false,
    }
}

/// The keys of the table ascend strictly.
pub open spec fn keys_ascend(m: Seq<(Seq<char>, TomlView)>) -> bool {
    forall|i: int, j: int|
        0 <= i < j < m.len() ==> text::lex_lt((#[trigger] m[i]).0, (#[trigger] m[j]).0)
}

/// The keys of the manifest, of its parameters and of their fields ascend,
/// as those of every table do that is read from a document.
pub open spec fn well_kept(v: TomlView) -> bool {
    v.data matches TomlDataView::Table(m) ==> {
        &&& keys_ascend(m)
        &&& tomlvalue::member(v, "params"@) matches Some(params) ==> {
            params.data matches TomlDataView::Table(ps) ==> {
                &&& keys_ascend(ps)
                &&& forall|i: int|
                    0 <= i < ps.len() ==> ((#[trigger] ps[i]).1.data matches TomlDataView::Table(
                        fields,
                    ) ==> keys_ascend(fields))
            }
        }
    }
}

proof fn lemma_same_tables_alike(
    x: Seq<(Seq<char>, TomlView)>,
    y: Seq<(Seq<char>, TomlView)>,
    key: Seq<char>,
)
    requires
        x.len() == y.len(),
        forall|i: int|
            0 <= i < x.len() ==> (#[trigger] x[i]).0 == y[i].0 && tomlvalue::toml_same(
                x[i].1,
                y[i].1,
            ),
    ensures
        alike(tomlvalue::entry(x, key), tomlvalue::entry(y, key)),
    decreases x.len(),
{
    if x.len() > 0 {
        assert(x[0].0 == y[0].0);
        let d = x.drop_first();
        let e = y.drop_first();
        assert forall|i: int| 0 <= i < d.len() implies (#[trigger] d[i]).0 == e[i].0
            && tomlvalue::toml_same(d[i].1, e[i].1) by {
            assert(x[i + 1].0 == y[i + 1].0);
        }
        lemma_same_tables_alike(d, e, key);
    }
}

proof fn lemma_found(m: Seq<(Seq<char>, TomlView)>, key: Seq<char>) -> (i: int)
    requires
        tomlvalue::entry(m, key) is Some,
    ensures
        0 <= i < m.len(),
        m[i].0 == key,
        m[i].1 == tomlvalue::entry(m, key)->Some_0,
    decreases m.len(),
{
    if m[0].0 == key {
        0
    } else {
        lemma_found(m.drop_first(), key) + 1
    }
}

proof fn lemma_absent_below(m: Seq<(Seq<char>, TomlView)>, key: Seq<char>)
    requires
        forall|i: int| 0 <= i < m.len() ==> (#[trigger] m[i]).0 != key,
    ensures
        tomlvalue::entry(m, key) is None,
{
    if tomlvalue::entry(m, key) is Some {
        let i = lemma_found(m, key);
        assert(m[i].0 == key);
    }
}

proof fn lemma_alike_tables_same(
    x: Seq<(Seq<char>, TomlView)>,
    y: Seq<(Seq<char>, TomlView)>,
)
    requires
        keys_ascend(x),
        keys_ascend(y),
        forall|key: Seq<char>|
            #[trigger] alike(tomlvalue::entry(x, key), tomlvalue::entry(y, key)),
    ensures
        x.len() == y.len(),
        forall|i: int|
            0 <= i < x.len() ==> (#[trigger] x[i]).0 == y[i].0 && tomlvalue::toml_same(
                x[i].1,
                y[i].1,
            ),
    decreases x.len(),
{
    if x.len() == 0 {
        if y.len() > 0 {
            assert(alike(tomlvalue::entry(x, y[0].0), tomlvalue::entry(y, y[0].0)));
        }
    } else {
        let first = x[0].0;
        assert(alike(tomlvalue::entry(x, first), tomlvalue::entry(y, first)));
        let j = lemma_found(y, first);
        let other = y[0].0;
        assert(alike(tomlvalue::entry(x, other), tomlvalue::entry(y, other)));
        let i = lemma_found(x, other);
        if first != other {
            assert(text::lex_lt(x[0].0, x[i].0));
            assert(text::lex_lt(y[0].0, y[j].0));
            text::lemma_lex_transitive(first, other, first);
            text::lemma_lex_irreflexive(first);
        }
        let d = x.drop_first();
        let e = y.drop_first();
        assert(keys_ascend(d)) by {
            assert forall|a: int, b: int| 0 <= a < b < d.len() implies text::lex_lt(
                (#[trigger] d[a]).0,
                (#[trigger] d[b]).0,
            ) by {
                assert(text::lex_lt(x[a + 1].0, x[b + 1].0));
            }
        }
        assert(keys_ascend(e)) by {
            assert forall|a: int, b: int| 0 <= a < b < e.len() implies text::lex_lt(
                (#[trigger] e[a]).0,
                (#[trigger] e[b]).0,
            ) by {
                assert(text::lex_lt(y[a + 1].0, y[b + 1].0));
            }
        }
        assert forall|key: Seq<char>| #[trigger] alike(
            tomlvalue::entry(d, key),
            tomlvalue::entry(e, key),
        ) by {
            assert(alike(tomlvalue::entry(x, key), tomlvalue::entry(y, key)));
            if key == first {
                assert forall|a: int| 0 <= a < d.len() implies (#[trigger] d[a]).0 != key by {
                    assert(text::lex_lt(x[0].0, x[a + 1].0));
                    text::lemma_lex_irreflexive(key);
                }
                assert forall|a: int| 0 <= a < e.len() implies (#[trigger] e[a]).0 != key by {
                    assert(text::lex_lt(y[0].0, y[a + 1].0));
                    text::lemma_lex_irreflexive(key);
                }
                lemma_absent_below(d, key);
                lemma_absent_below(e, key);
            }
        }
        lemma_alike_tables_same(d, e);
        assert forall|k: int| 0 <= k < x.len() implies (#[trigger] x[k]).0 == y[k].0
            && tomlvalue::toml_same(x[k].1, y[k].1) by {
            if k > 0 {
                assert(d[k - 1].0 == e[k - 1].0);
            }
        }
    }
}

spec fn value_field(key: Seq<char>) -> bool {
    key == "default"@ || key == "constraint"@ || key == "editable_by"@
}

proof fn lemma_kept_entry(m: Seq<(Seq<char>, TomlView)>, n: nat, key: Seq<char>)
    requires
        n <= m.len(),
    ensures
        tomlvalue::entry(plan::kept_fields(m, n), key) == if value_field(key) {
            None
        } else {
            tomlvalue::entry(m.take(n as int), key)
        },
    decreases n,
{
    assert(m.take(0) =~= Seq::empty());
    if n > 0 {
        let k = (n - 1) as nat;
        lemma_kept_entry(m, k, key);
        assert(m.take(n as int) =~= m.take(k as int).push(m[k as int]));
        lemma_entry_push(m.take(k as int), m[k as int], key);
        let before = plan::kept_fields(m, k);
        if !plan::is_value_field(m[k as int].0) {
            assert(plan::kept_fields(m, n) =~= before.push(m[k as int]));
            lemma_entry_push(before, m[k as int], key);
        } else {
            assert(plan::kept_fields(m, n) =~= before);
        }
    }
}

proof fn lemma_entry_push(
    m: Seq<(Seq<char>, TomlView)>,
    x: (Seq<char>, TomlView),
    key: Seq<char>,
)
    ensures
        tomlvalue::entry(m.push(x), key) == match tomlvalue::entry(m, key) {
            Some(v) => Some(v),
            None => if x.0 == key {
                Some(x.1)
            } else {
                None
            },
        },
    decreases m.len(),
{
    if m.len() == 0 {
        assert(m.push(x).drop_first() =~= Seq::empty());
        assert(m.push(x)[0] == x);
        reveal_with_fuel(tomlvalue::entry, 2);
    } else {
        assert(m.push(x).drop_first() =~= m.drop_first().push(x));
        lemma_entry_push(m.drop_first(), x, key);
    }
}

proof fn lemma_kept_ascend(m: Seq<(Seq<char>, TomlView)>, n: nat)
    requires
        n <= m.len(),
        keys_ascend(m),
    ensures
        keys_ascend(plan::kept_fields(m, n)),
        n < m.len() ==> forall|i: int|
            0 <= i < plan::kept_fields(m, n).len() ==> text::lex_lt(
                (#[trigger] plan::kept_fields(m, n)[i]).0,
                m[n as int].0,
            ),
    decreases n,
{
    if n > 0 {
        let k = (n - 1) as nat;
        lemma_kept_ascend(m, k);
        let before = plan::kept_fields(m, k);
        let all = plan::kept_fields(m, n);
        if !plan::is_value_field(m[k as int].0) {
            assert(all =~= before.push(m[k as int]));
        } else {
            assert(all =~= before);
        }
        if n < m.len() {
            assert(text::lex_lt(m[k as int].0, m[n as int].0));
            assert forall|i: int| 0 <= i < all.len() implies text::lex_lt(
                (#[trigger] all[i]).0,
                m[n as int].0,
            ) by {
                if i < before.len() {
                    assert(text::lex_lt(before[i].0, m[k as int].0));
                    text::lemma_lex_transitive(before[i].0, m[k as int].0, m[n as int].0);
                }
            }
        }
    }
}

proof fn lemma_param_agrees(p: TomlView, q: TomlView)
    requires
        p.data matches TomlDataView::Table(m) ==> keys_ascend(m),
        q.data matches TomlDataView::Table(m) ==> keys_ascend(m),
    ensures
        tomlvalue::toml_same(plan::stripped_param(p), plan::stripped_param(q)) <==> param_agrees(
            p,
            q,
        ),
{
    if p.data is Table && q.data is Table {
        let x = p.data->Table_0;
        let y = q.data->Table_0;
        let kx = plan::kept_fields(x, x.len());
        let ky = plan::kept_fields(y, y.len());
        assert(x.take(x.len() as int) =~= x);
        assert(y.take(y.len() as int) =~= y);
        lemma_kept_ascend(x, x.len());
        lemma_kept_ascend(y, y.len());
        if tomlvalue::toml_same(plan::stripped_param(p), plan::stripped_param(q)) {
            assert forall|field: Seq<char>|
                field != "default"@ && field != "constraint"@ && field
                    != "editable_by"@ implies #[trigger] alike(
                tomlvalue::member(p, field),
                tomlvalue::member(q, field),
            ) by {
                lemma_kept_entry(x, x.len(), field);
                lemma_kept_entry(y, y.len(), field);
                lemma_same_tables_alike(kx, ky, field);
            }
        }
        if param_agrees(p, q) {
            assert forall|key: Seq<char>| #[trigger] alike(
                tomlvalue::entry(kx, key),
                tomlvalue::entry(ky, key),
            ) by {
                lemma_kept_entry(x, x.len(), key);
                lemma_kept_entry(y, y.len(), key);
                if !value_field(key) {
                    assert(alike(tomlvalue::member(p, key), tomlvalue::member(q, key)));
                }
            }
            lemma_alike_tables_same(kx, ky);
        }
    }
}

/// The entries of the table, each value put through `f`.
spec fn mapped(
    m: Seq<(Seq<char>, TomlView)>,
    f: spec_fn(Seq<char>, TomlView) -> TomlView,
) -> Seq<(Seq<char>, TomlView)> {
    Seq::new(m.len(), |i: int| (m[i].0, f(m[i].0, m[i].1)))
}

proof fn lemma_mapped_entry(
    m: Seq<(Seq<char>, TomlView)>,
    f: spec_fn(Seq<char>, TomlView) -> TomlView,
    key: Seq<char>,
)
    ensures
        tomlvalue::entry(mapped(m, f), key) == match tomlvalue::entry(m, key) {
            Some(v) => Some(f(key, v)),
            None => None,
        },
    decreases m.len(),
{
    if m.len() > 0 {
        assert(mapped(m, f).drop_first() =~= mapped(m.drop_first(), f));
        lemma_mapped_entry(m.drop_first(), f, key);
    }
}

proof fn lemma_mapped_ascend(
    m: Seq<(Seq<char>, TomlView)>,
    f: spec_fn(Seq<char>, TomlView) -> TomlView,
)
    requires
        keys_ascend(m),
    ensures
        keys_ascend(mapped(m, f)),
{
    let s = mapped(m, f);
    assert forall|i: int, j: int| 0 <= i < j < s.len() implies text::lex_lt(
        (#[trigger] s[i]).0,
        (#[trigger] s[j]).0,
    ) by {
        assert(text::lex_lt(m[i].0, m[j].0));
    }
}

spec fn param_kept(key: Seq<char>, v: TomlView) -> TomlView {
    plan::stripped_param(v)
}

spec fn top_kept(key: Seq<char>, v: TomlView) -> TomlView {
    if key == "params"@ {
        plan::stripped_params(v)
    } else {
        v
    }
}

spec fn fields_ascend(v: TomlView) -> bool {
    v.data matches TomlDataView::Table(ps) ==> {
        &&& keys_ascend(ps)
        &&& forall|i: int|
            0 <= i < ps.len() ==> ((#[trigger] ps[i]).1.data matches TomlDataView::Table(fields)
                ==> keys_ascend(fields))
    }
}

proof fn lemma_params_agree(p: TomlView, q: TomlView)
    requires
        fields_ascend(p),
        fields_ascend(q),
    ensures
        tomlvalue::toml_same(plan::stripped_params(p), plan::stripped_params(q)) <==> params_agree(
            p,
            q,
        ),
{
    if p.data is Table && q.data is Table {
        let x = p.data->Table_0;
        let y = q.data->Table_0;
        let f = |key: Seq<char>, v: TomlView| param_kept(key, v);
        let sx = mapped(x, f);
        let sy = mapped(y, f);
        assert(plan::stripped_params(p).data->Table_0 =~= sx);
        assert(plan::stripped_params(q).data->Table_0 =~= sy);
        lemma_mapped_ascend(x, f);
        lemma_mapped_ascend(y, f);
        assert forall|name: Seq<char>| #[trigger] alike(
            tomlvalue::entry(sx, name),
            tomlvalue::entry(sy, name),
        ) <==> match (tomlvalue::member(p, name), tomlvalue::member(q, name)) {
            (Some(a), Some(b)) => param_agrees(a, b),
            (None, None) => true,
            _ => false,
        } by {
            lemma_mapped_entry(x, f, name);
            lemma_mapped_entry(y, f, name);
            if tomlvalue::entry(x, name) is Some && tomlvalue::entry(y, name) is Some {
                let i = lemma_found(x, name);
                let j = lemma_found(y, name);
                lemma_param_agrees(x[i].1, y[j].1);
            }
        }
        if tomlvalue::toml_same(plan::stripped_params(p), plan::stripped_params(q)) {
            assert forall|name: Seq<char>|
                match (#[trigger] tomlvalue::member(p, name), tomlvalue::member(q, name)) {
                    (Some(a), Some(b)) => param_agrees(a, b),
                    (None, None) => true,
                    _ => false,
                } by {
                lemma_same_tables_alike(sx, sy, name);
                assert(alike(tomlvalue::entry(sx, name), tomlvalue::entry(sy, name)));
            }
        }
        if params_agree(p, q) {
            assert forall|name: Seq<char>| #[trigger] alike(
                tomlvalue::entry(sx, name),
                tomlvalue::entry(sy, name),
            ) by {
                let a = tomlvalue::member(p, name);
            }
            lemma_alike_tables_same(sx, sy);
        }
    }
}

proof fn lemma_manifests_agree(a: TomlView, b: TomlView)
    requires
        well_kept(a),
        well_kept(b),
    ensures
        tomlvalue::toml_same(plan::stripped(a), plan::stripped(b)) <==> manifests_agree(a, b),
{
    if a.data is Table && b.data is Table {
        let x = a.data->Table_0;
        let y = b.data->Table_0;
        let f = |key: Seq<char>, v: TomlView| top_kept(key, v);
        let sx = mapped(x, f);
        let sy = mapped(y, f);
        assert(plan::stripped(a).data->Table_0 =~= sx);
        assert(plan::stripped(b).data->Table_0 =~= sy);
        lemma_mapped_ascend(x, f);
        lemma_mapped_ascend(y, f);
        assert forall|key: Seq<char>| #[trigger] alike(
            tomlvalue::entry(sx, key),
            tomlvalue::entry(sy, key),
        ) <==> if key == "params"@ {
            match (tomlvalue::member(a, key), tomlvalue::member(b, key)) {
                (Some(p), Some(q)) => params_agree(p, q),
                (None, None) => true,
                _ => false,
            }
        } else {
            alike(tomlvalue::member(a, key), tomlvalue::member(b, key))
        } by {
            lemma_mapped_entry(x, f, key);
            lemma_mapped_entry(y, f, key);
            if key == "params"@ && tomlvalue::entry(x, key) is Some && tomlvalue::entry(y, key)
                is Some {
                lemma_params_agree(tomlvalue::entry(x, key)->Some_0, tomlvalue::entry(y, key)->Some_0);
            }
        }
        if tomlvalue::toml_same(plan::stripped(a), plan::stripped(b)) {
            assert forall|key: Seq<char>| key != "params"@ implies #[trigger] alike(
                tomlvalue::member(a, key),
                tomlvalue::member(b, key),
            ) by {
                lemma_same_tables_alike(sx, sy, key);
                assert(alike(tomlvalue::entry(sx, key), tomlvalue::entry(sy, key)));
            }
            lemma_same_tables_alike(sx, sy, "params"@);
            assert(alike(tomlvalue::entry(sx, "params"@), tomlvalue::entry(sy, "params"@)));
        }
        if manifests_agree(a, b) {
            assert forall|key: Seq<char>| #[trigger] alike(
                tomlvalue::entry(sx, key),
                tomlvalue::entry(sy, key),
            ) by {
                if key != "params"@ {
                    assert(alike(tomlvalue::member(a, key), tomlvalue::member(b, key)));
                }
            }
            lemma_alike_tables_same(sx, sy);
        }
    }
}

/// The document, if it is one, is well kept.
pub open spec fn document_well_kept(bytes: Seq<u8>) -> bool {
    tomlvalue::document(bytes) matches Some(v) ==> well_kept(v)
}

proof fn lemma_only_values(a: Seq<u8>, b: Seq<u8>)
    requires
        document_well_kept(a),
        document_well_kept(b),
    ensures
        plan::same_but_values(a, b) <==> only_values_differ(a, b),
{
    if tomlvalue::document(a) is Some && tomlvalue::document(b) is Some {
        lemma_manifests_agree(tomlvalue::document(a)->Some_0, tomlvalue::document(b)->Some_0);
    }
}

/// The manifest has another hash than the running one's, and they do not
/// agree outside the defaults, constraints and editors of their parameters.
pub open spec fn manifest_differs(repo: RepoUnit, running: WorldUnit) -> bool {
    &&& content::hash_of(repo.manifest@) != running.manifest_hash@
    &&& !only_values_differ(repo.manifest@, running.manifest@)
}

/// The restart says what changed: the manifest, the unit's files, or both.
pub open spec fn restart_says(
    r: RestartView,
    name: Seq<char>,
    repo: RepoUnit,
    running: WorldUnit,
) -> bool {
    let files = repo.files_hash@ != running.files_hash@;
    &&& r.name == name
    &&& r.manifest_changed == manifest_differs(repo, running)
    &&& r.reason == if manifest_differs(repo, running) && files {
        "manifest and unit files changed"@
    } else if files {
        "unit files changed"@
    } else {
        "manifest changed"@
    }
}

/// A unit that runs restarts in a plan exactly where its files hash
/// otherwise than those of the running one, or its manifest does and differs
/// in more than the defaults, constraints and editors of its parameters. A
/// manifest on either side that is no TOML is such a difference.
pub proof fn law_a_unit_restarts_for_what_it_runs_on(
    h: House,
    table: Seq<GrantView>,
    repo: Seq<RepoUnit>,
    world: World,
    i: int,
)
    requires
        repo.len() == h.units@.len(),
        0 <= i < h.units@.len(),
        names::lookup(world.units@, h.units@[i].manifest.unit.name@) matches Some(running)
            && document_well_kept(running.manifest@),
        document_well_kept(repo[i].manifest@),
    ensures
        ({
            let name = h.units@[i].manifest.unit.name@;
            let running = names::lookup(world.units@, name)->Some_0;
            let restarts = plan::diff_of(h, table, repo, world).restarts;
            let refreshes = plan::diff_of(h, table, repo, world).refreshes;
            let needed = repo[i].files_hash@ != running.files_hash@ || manifest_differs(
                repo[i],
                running,
            );
            &&& plan::unit_restarts(h.units@[i], repo[i], world).len() == 0 <==> !needed
            &&& needed ==> exists|r: int|
                0 <= r < restarts.len() && restart_says(
                    #[trigger] restarts[r],
                    name,
                    repo[i],
                    running,
                )
            &&& !needed && content::hash_of(repo[i].manifest@) != running.manifest_hash@
                ==> exists|r: int|
                0 <= r < refreshes.len() && (#[trigger] refreshes[r]).name == name
        }),
{
    let u = h.units@[i];
    let name = u.manifest.unit.name@;
    let running = names::lookup(world.units@, name)->Some_0;
    lemma_only_values(repo[i].manifest@, running.manifest@);
    let n = h.units@.len();
    let d = plan::diff_of(h, table, repo, world);
    let part = plan::unit_restarts(u, repo[i], world);
    let f = |i: int| plan::unit_restarts(h.units@[i], repo[i], world);
    if part.len() > 0 {
        let x = part[0];
        let all = plan::all_restarts(h, repo, world, n);
        assert(f(i)[0] == x);
        assert(f(i).contains(x));
        text::lemma_each_has(n, f, i, x);
        order::lemma_sorted::<plan::Restart>(all);
        vstd::seq_lib::to_multiset_contains(all, x);
        vstd::seq_lib::to_multiset_contains(d.restarts, x);
        let r = d.restarts.index_of(x);
        assert(restart_says(d.restarts[r], name, repo[i], running));
    }
    let g = |i: int| plan::unit_refreshes(h.units@[i], repo[i], world);
    let other = plan::unit_refreshes(u, repo[i], world);
    if other.len() > 0 {
        let x = other[0];
        assert(g(i)[0] == x);
        assert(g(i).contains(x));
        text::lemma_each_has(n, g, i, x);
        let r = d.refreshes.index_of(x);
        assert(d.refreshes[r].name == name);
    }
}

/// Nothing restarts in a plan but a unit of the house that runs and that has
/// to: its files or its manifest differ.
pub proof fn law_every_restart_is_needed(
    h: House,
    table: Seq<GrantView>,
    repo: Seq<RepoUnit>,
    world: World,
    r: int,
)
    requires
        repo.len() == h.units@.len(),
        0 <= r < plan::diff_of(h, table, repo, world).restarts.len(),
        forall|i: int| 0 <= i < repo.len() ==> document_well_kept((#[trigger] repo[i]).manifest@),
        forall|i: int|
            0 <= i < world.units@.len() ==> document_well_kept(
                (#[trigger] world.units@[i]).1.manifest@,
            ),
    ensures
        exists|i: int|
            0 <= i < h.units@.len() && names::lookup(
                world.units@,
                (#[trigger] h.units@[i]).manifest.unit.name@,
            ) is Some && restart_says(
                plan::diff_of(h, table, repo, world).restarts[r],
                h.units@[i].manifest.unit.name@,
                repo[i],
                names::lookup(world.units@, h.units@[i].manifest.unit.name@)->Some_0,
            ) && (repo[i].files_hash@ != names::lookup(
                world.units@,
                h.units@[i].manifest.unit.name@,
            )->Some_0.files_hash@ || manifest_differs(
                repo[i],
                names::lookup(world.units@, h.units@[i].manifest.unit.name@)->Some_0,
            )),
{
    let n = h.units@.len();
    let restarts = plan::diff_of(h, table, repo, world).restarts;
    let all = plan::all_restarts(h, repo, world, n);
    let f = |i: int| plan::unit_restarts(h.units@[i], repo[i], world);
    order::lemma_sorted::<plan::Restart>(all);
    let x = restarts[r];
    assert(restarts.contains(x));
    vstd::seq_lib::to_multiset_contains(restarts, x);
    vstd::seq_lib::to_multiset_contains(all, x);
    let p = all.index_of(x);
    let i = text::lemma_in_each(n, f, p);
    assert(f(i).contains(all[p]));
    let name = h.units@[i].manifest.unit.name@;
    let running = names::lookup(world.units@, name)->Some_0;
    let w = lemma_unit_at(world.units@, name);
    assert(document_well_kept(world.units@[w].1.manifest@));
    assert(document_well_kept(repo[i].manifest@));
    lemma_only_values(repo[i].manifest@, running.manifest@);
    assert(h.units@[i].manifest.unit.name@ == name);
}

proof fn lemma_unit_at<T>(s: Seq<(String, T)>, name: Seq<char>) -> (i: int)
    requires
        names::lookup(s, name) is Some,
    ensures
        0 <= i < s.len(),
        s[i].0@ == name,
        s[i].1 == names::lookup(s, name)->Some_0,
    decreases s.len(),
{
    if s[0].0@ == name {
        0
    } else {
        lemma_unit_at(s.drop_first(), name) + 1
    }
}

/// Nothing is refreshed in a plan but a unit that runs on the same files and
/// whose manifest, though its hash is another, differs in the defaults,
/// constraints and editors of its parameters alone.
pub proof fn law_every_refresh_is_of_values(
    h: House,
    table: Seq<GrantView>,
    repo: Seq<RepoUnit>,
    world: World,
    r: int,
)
    requires
        repo.len() == h.units@.len(),
        0 <= r < plan::diff_of(h, table, repo, world).refreshes.len(),
        forall|i: int| 0 <= i < repo.len() ==> document_well_kept((#[trigger] repo[i]).manifest@),
        forall|i: int|
            0 <= i < world.units@.len() ==> document_well_kept(
                (#[trigger] world.units@[i]).1.manifest@,
            ),
    ensures
        exists|i: int|
            0 <= i < h.units@.len() && (#[trigger] h.units@[i]).manifest.unit.name@
                == plan::diff_of(h, table, repo, world).refreshes[r].name && names::lookup(
                world.units@,
                h.units@[i].manifest.unit.name@,
            ) is Some && refreshed_alone(
                repo[i],
                names::lookup(world.units@, h.units@[i].manifest.unit.name@)->Some_0,
            ),
{
    let n = h.units@.len();
    let refreshes = plan::diff_of(h, table, repo, world).refreshes;
    let f = |i: int| plan::unit_refreshes(h.units@[i], repo[i], world);
    let i = text::lemma_in_each(n, f, r);
    assert(f(i).contains(refreshes[r]));
    let name = h.units@[i].manifest.unit.name@;
    let running = names::lookup(world.units@, name)->Some_0;
    let w = lemma_unit_at(world.units@, name);
    assert(document_well_kept(world.units@[w].1.manifest@));
    assert(document_well_kept(repo[i].manifest@));
    lemma_only_values(repo[i].manifest@, running.manifest@);
    assert(h.units@[i].manifest.unit.name@ == refreshes[r].name);
}

/// The unit's files are those that run, and its manifest differs in values
/// alone.
pub open spec fn refreshed_alone(repo: RepoUnit, running: WorldUnit) -> bool {
    &&& repo.files_hash@ == running.files_hash@
    &&& content::hash_of(repo.manifest@) != running.manifest_hash@
    &&& only_values_differ(repo.manifest@, running.manifest@)
}

/// The units that a plan creates are those of the house that do not run; the
/// units that it destroys are those that run and that the house does not
/// have.
pub proof fn law_units_come_and_go(
    h: House,
    table: Seq<GrantView>,
    repo: Seq<RepoUnit>,
    world: World,
    name: Seq<char>,
)
    ensures
        plan::diff_of(h, table, repo, world).creates.contains(name) <==> (exists|i: int|
            0 <= i < h.units@.len() && (#[trigger] h.units@[i]).manifest.unit.name@ == name)
            && !(exists|w: int| 0 <= w < world.units@.len() && (#[trigger] world.units@[w]).0@ == name),
        plan::diff_of(h, table, repo, world).destroys.contains(name) <==> (exists|w: int|
            0 <= w < world.units@.len() && (#[trigger] world.units@[w]).0@ == name) && !(exists|
            i: int,
        |
            0 <= i < h.units@.len() && (#[trigger] h.units@[i]).manifest.unit.name@ == name),
{
    let n = h.units@.len();
    let d = plan::diff_of(h, table, repo, world);
    let fc = |i: int| plan::unit_creates(h.units@[i], world);
    let ac = plan::all_creates(h, world, n);
    order::lemma_sorted::<String>(ac);
    vstd::seq_lib::to_multiset_contains(ac, name);
    vstd::seq_lib::to_multiset_contains(d.creates, name);
    lemma_runs(world.units@, name);
    lemma_has_unit(h.units@, name);
    if ac.contains(name) {
        let p = ac.index_of(name);
        let i = text::lemma_in_each(n, fc, p);
        assert(fc(i).contains(ac[p]));
        assert(h.units@[i].manifest.unit.name@ == name);
    }
    if names::lookup(world.units@, name) is None && exists|i: int|
        0 <= i < n && (#[trigger] h.units@[i]).manifest.unit.name@ == name {
        let i = choose|i: int|
            0 <= i < n && (#[trigger] h.units@[i]).manifest.unit.name@ == name;
        assert(fc(i)[0] == name);
        assert(fc(i).contains(name));
        text::lemma_each_has(n, fc, i, name);
    }
    let m = world.units@.len();
    let fd = |i: int|
        text::only_if(
            repo::unit_named(h.units@, world.units@[i].0@) is None,
            world.units@[i].0@,
        );
    let ad = plan::all_destroys(h, world, m);
    order::lemma_sorted::<String>(ad);
    vstd::seq_lib::to_multiset_contains(ad, name);
    vstd::seq_lib::to_multiset_contains(d.destroys, name);
    if ad.contains(name) {
        let p = ad.index_of(name);
        let w = text::lemma_in_each(m, fd, p);
        assert(fd(w).contains(ad[p]));
        assert(world.units@[w].0@ == name);
    }
    if repo::unit_named(h.units@, name) is None && exists|w: int|
        0 <= w < m && (#[trigger] world.units@[w]).0@ == name {
        let w = choose|w: int| 0 <= w < m && (#[trigger] world.units@[w]).0@ == name;
        assert(fd(w)[0] == name);
        assert(fd(w).contains(name));
        text::lemma_each_has(m, fd, w, name);
    }
}

proof fn lemma_runs<T>(s: Seq<(String, T)>, name: Seq<char>)
    ensures
        names::lookup(s, name) is Some <==> exists|w: int|
            0 <= w < s.len() && (#[trigger] s[w]).0@ == name,
    decreases s.len(),
{
    if s.len() > 0 {
        let d = s.drop_first();
        lemma_runs(d, name);
        if names::lookup(s, name) is Some {
            let w = lemma_unit_at(s, name);
            assert(s[w].0@ == name);
        }
        if exists|w: int| 0 <= w < s.len() && (#[trigger] s[w]).0@ == name {
            let w = choose|w: int| 0 <= w < s.len() && (#[trigger] s[w]).0@ == name;
            if w > 0 {
                assert(d[w - 1].0@ == name);
            }
        }
    }
}

pub proof fn lemma_has_unit(units: Seq<LoadedUnit>, name: Seq<char>)
    ensures
        repo::unit_named(units, name) is Some <==> exists|i: int|
            0 <= i < units.len() && (#[trigger] units[i]).manifest.unit.name@ == name,
    decreases units.len(),
{
    if units.len() > 0 {
        let d = units.drop_first();
        lemma_has_unit(d, name);
        if repo::unit_named(d, name) is Some {
            let i = choose|i: int|
                0 <= i < d.len() && (#[trigger] d[i]).manifest.unit.name@ == name;
            assert(units[i + 1].manifest.unit.name@ == name);
        }
        if exists|i: int| 0 <= i < units.len() && (#[trigger] units[i]).manifest.unit.name@ == name {
            let i = choose|i: int|
                0 <= i < units.len() && (#[trigger] units[i]).manifest.unit.name@ == name;
            if i > 0 {
                assert(d[i - 1].manifest.unit.name@ == name);
            }
        }
    }
}

/// A plan adds the grants of the house's table that are not in force, and
/// removes those in force that the table does not have; what both have
/// stays.
pub proof fn law_grants_come_and_go(
    h: House,
    table: Seq<GrantView>,
    repo: Seq<RepoUnit>,
    world: World,
    g: GrantView,
)
    ensures
        plan::diff_of(h, table, repo, world).grant_adds.contains(g) <==> table.contains(g)
            && !text::views(world.grants@).contains(g),
        plan::diff_of(h, table, repo, world).grant_removes.contains(g) <==> text::views(
            world.grants@,
        ).contains(g) && !table.contains(g),
{
    lemma_missing(table, text::views(world.grants@), g);
    lemma_missing(text::views(world.grants@), table, g);
}

proof fn lemma_missing(table: Seq<GrantView>, other: Seq<GrantView>, g: GrantView)
    ensures
        plan::grants_not_in(table, other, table.len()).contains(g) <==> table.contains(g)
            && !other.contains(g),
{
    let s = plan::grants_not_in(table, other, table.len());
    let f = |i: int| text::only_if(!other.contains(table[i]), table[i]);
    if s.contains(g) {
        let p = s.index_of(g);
        let i = text::lemma_in_each(table.len(), f, p);
        assert(f(i).contains(s[p]));
        assert(table[i] == g);
    }
    if table.contains(g) && !other.contains(g) {
        let i = table.index_of(g);
        assert(f(i)[0] == g);
        assert(f(i).contains(g));
        text::lemma_each_has(table.len(), f, i, g);
    }
}

/// A plan sets back exactly the parameters of running units whose live value
/// is another than the default that the repo declares, from the one to the
/// other.
pub proof fn law_drift_is_set_back(
    h: House,
    table: Seq<GrantView>,
    repo: Seq<RepoUnit>,
    world: World,
    change: ParamChangeView,
)
    ensures
        plan::diff_of(h, table, repo, world).params.contains(change) <==> exists|i: int, j: int|
            #[trigger] drifted(h.units@, i, j, world, change),
{
    let n = h.units@.len();
    let s = plan::all_drifts(h, world, n);
    let f = |i: int| plan::unit_drifts(h.units@[i], world);
    if s.contains(change) {
        let p = s.index_of(change);
        let i = text::lemma_in_each(n, f, p);
        assert(f(i).contains(s[p]));
        let u = h.units@[i];
        let params = u.manifest.params->Some_0@;
        let part = plan::drifts(u, world, params.len());
        let g = |j: int| plan::param_drift(u.manifest.unit.name@, params[j].0@, params[j].1, world);
        let q = part.index_of(change);
        let j = text::lemma_in_each(params.len(), g, q);
        assert(g(j).contains(part[q]));
        assert(drifted(h.units@, i, j, world, change));
    }
    if exists|i: int, j: int| #[trigger] drifted(h.units@, i, j, world, change) {
        let (i, j) = choose|i: int, j: int| #[trigger] drifted(h.units@, i, j, world, change);
        let u = h.units@[i];
        let params = u.manifest.params->Some_0@;
        let g = |j: int| plan::param_drift(u.manifest.unit.name@, params[j].0@, params[j].1, world);
        assert(g(j)[0] == change);
        assert(g(j).contains(change));
        text::lemma_each_has(params.len(), g, j, change);
        assert(f(i).contains(change));
        text::lemma_each_has(n, f, i, change);
    }
}

/// Parameter `j` of unit `i`, which runs, has a live value that is not its
/// default, and the change leads from that value to the default.
pub open spec fn drifted(
    units: Seq<LoadedUnit>,
    i: int,
    j: int,
    world: World,
    change: ParamChangeView,
) -> bool {
    &&& 0 <= i < units.len()
    &&& units[i].manifest.params is Some
    &&& 0 <= j < units[i].manifest.params->Some_0@.len()
    &&& change.unit == units[i].manifest.unit.name@
    &&& change.param == units[i].manifest.params->Some_0@[j].0@
    &&& names::lookup(world.units@, change.unit) is Some
    &&& names::lookup(world.params@, (change.unit, change.param)) is Some
    &&& change.live == names::lookup(world.params@, (change.unit, change.param))->Some_0@
    &&& change.repo == config::default_view(units[i].manifest.params->Some_0@[j].1)
    &&& !json::json_same(change.live, change.repo)
}

} // verus!

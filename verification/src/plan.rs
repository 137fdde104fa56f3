//! The plan engine: diffs a validated house repo against the world as the bus
//! reports it. No state file — desired state is the repo, actual state is
//! queryable, drift is impossible by construction.

use crate::config;
use crate::config::default_value;
use crate::content;
use crate::expand::ExpandedKey;
use crate::expand::ExpandedView;
use crate::grants;
use crate::grants::Grant;
use crate::grants::GrantView;
use crate::graph;
use crate::json;
use crate::json::Json;
use crate::json::JsonView;
use crate::keyspace;
use crate::manifest::ParamSpec;
use crate::manifest::UnitKind;
use crate::names;
use crate::names::NameMap;
use crate::names::PairMap;
use crate::order;
use crate::order::Alike;
use crate::order::Ranked;
use crate::repo;
use crate::repo::House;
use crate::repo::LoadedEntity;
use crate::repo::LoadedUnit;
use crate::text;
use crate::text::cat2;
use crate::text::cat3;
use crate::text::cat5;
use crate::text::cat8;
use crate::text::cat9;
use crate::text::str_eq;
use crate::tomlvalue;
use crate::tomlvalue::TomlData;
use crate::tomlvalue::TomlDataView;
use crate::tomlvalue::TomlValue;
use crate::tomlvalue::TomlView;
use crate::validate::display_value;
use crate::CheckResult;
use vstd::prelude::*;

verus! {

broadcast use crate::text::group_views;

/// Plan tiers, derived mechanically from the diff, never declared. Any
/// grant-table delta escalates to structural.
#[derive(Debug, Clone, Copy, PartialEq, Eq, Structural)]
pub enum Tier {
    ParameterOnly,
    Behavioral,
    Structure,
}

impl Tier {
    /// The word a plan uses for it.
    pub open spec fn word(self) -> Seq<char> {
        match self {
            Tier::ParameterOnly => "parameter-only"@,
            Tier::Behavioral => "behavioral"@,
            Tier::Structure => "structural"@,
        }
    }

    pub fn as_str(&self) -> (r: &'static str)
        ensures
            r@ == self.word(),
    {
        match self {
            Tier::ParameterOnly => "parameter-only",
            Tier::Behavioral => "behavioral",
            Tier::Structure => "structural",
        }
    }
}

/// One unit as the world reports it: what is actually running.
#[derive(Debug, PartialEq, Eq)]
pub struct WorldUnit {
    /// The manifest TOML as the supervisor loaded it.
    pub manifest: Vec<u8>,
    pub manifest_hash: String,
    pub files_hash: String,
}

/// The actual world, read from the bus (manifest hashes, current
/// parameters, resolved grants) — or empty when planning offline.
#[derive(Debug)]
pub struct World {
    /// Label for plan output: "empty" or the bus endpoint.
    pub label: String,
    /// True when this world was read from a live bus.
    pub live: bool,
    pub units: NameMap<WorldUnit>,
    pub params: PairMap<Json>,
    pub grants: Vec<Grant>,
    pub applied_commit: Option<String>,
}

/// What the repo currently holds of one unit: its manifest bytes and the hash
/// of its other inputs.
#[derive(Debug, PartialEq, Eq)]
pub struct RepoUnit {
    pub manifest: Vec<u8>,
    pub files_hash: String,
}

impl World {
    pub fn empty() -> (r: World)
        ensures
            r.label@ == "empty"@,
            !r.live,
            r.units@.len() == 0,
            r.params@.len() == 0,
            r.grants@.len() == 0,
            r.applied_commit is None,
    {
        World {
            label: "empty".to_owned(),
            live: false,
            units: NameMap::new(),
            params: PairMap::new(),
            grants: Vec::new(),
            applied_commit: None,
        }
    }
}

/// The unit's world entry as the repo currently describes it — what the
/// supervisor records at startup and after a successful apply step.
pub fn world_unit_from_repo(unit: RepoUnit) -> (r: WorldUnit)
    ensures
        r.manifest@ == unit.manifest@,
        r.manifest_hash@ == content::hash_of(unit.manifest@),
        r.files_hash@ == unit.files_hash@,
{
    WorldUnit {
        manifest_hash: content::manifest_hash(unit.manifest.as_slice()),
        files_hash: unit.files_hash,
        manifest: unit.manifest,
    }
}

#[derive(Debug)]
pub struct Restart {
    pub name: String,
    pub reason: String,
    /// The manifest itself changed (not only unit files): the unit's key
    /// surface may have changed, so the plan renders its expansion.
    pub manifest_changed: bool,
}

#[derive(Debug)]
pub struct ParamChange {
    pub unit: String,
    pub param: String,
    pub live: Json,
    pub repo: Json,
}

/// A unit whose manifest changed at parameter level only (the fields
/// `param_level_only` strips): no restart, but the running world must
/// refresh — the config store re-enforces the new constraints and the
/// served meta manifest updates so plans and the dashboard see it.
#[derive(Debug)]
pub struct Refresh {
    pub name: String,
    /// Per-param deltas, rendered "param: field old -> new".
    pub changes: Vec<String>,
}

#[derive(Debug)]
pub struct Diff {
    pub creates: Vec<String>,
    pub destroys: Vec<String>,
    pub restarts: Vec<Restart>,
    pub params: Vec<ParamChange>,
    pub refreshes: Vec<Refresh>,
    pub grant_adds: Vec<Grant>,
    pub grant_removes: Vec<Grant>,
}

/// What a restart says.
pub struct RestartView {
    pub name: Seq<char>,
    pub reason: Seq<char>,
    pub manifest_changed: bool,
}

/// What a parameter change says.
pub struct ParamChangeView {
    pub unit: Seq<char>,
    pub param: Seq<char>,
    pub live: JsonView,
    pub repo: JsonView,
}

/// What a refresh says.
pub struct RefreshView {
    pub name: Seq<char>,
    pub changes: Seq<Seq<char>>,
}

/// What a diff says.
pub struct DiffView {
    pub creates: Seq<Seq<char>>,
    pub destroys: Seq<Seq<char>>,
    pub restarts: Seq<RestartView>,
    pub params: Seq<ParamChangeView>,
    pub refreshes: Seq<RefreshView>,
    pub grant_adds: Seq<GrantView>,
    pub grant_removes: Seq<GrantView>,
}

impl View for Restart {
    type V = RestartView;

    open spec fn view(&self) -> RestartView {
        RestartView {
            name: self.name@,
            reason: self.reason@,
            manifest_changed: self.manifest_changed,
        }
    }
}

impl View for ParamChange {
    type V = ParamChangeView;

    open spec fn view(&self) -> ParamChangeView {
        ParamChangeView {
            unit: self.unit@,
            param: self.param@,
            live: self.live@,
            repo: self.repo@,
        }
    }
}

impl View for Refresh {
    type V = RefreshView;

    open spec fn view(&self) -> RefreshView {
        RefreshView { name: self.name@, changes: text::views(self.changes@) }
    }
}

impl View for Diff {
    type V = DiffView;

    open spec fn view(&self) -> DiffView {
        DiffView {
            creates: text::views(self.creates@),
            destroys: text::views(self.destroys@),
            restarts: text::views(self.restarts@),
            params: text::views(self.params@),
            refreshes: text::views(self.refreshes@),
            grant_adds: text::views(self.grant_adds@),
            grant_removes: text::views(self.grant_removes@),
        }
    }
}

impl Ranked for Restart {
    open spec fn goes_before(a: RestartView, b: RestartView) -> bool {
        text::lex_lt(a.name, b.name)
    }

    proof fn lemma_order(a: RestartView, b: RestartView, c: RestartView) {
        <String as Ranked>::lemma_order(a.name, b.name, c.name);
    }

    fn before(&self, other: &Restart) -> (r: bool) {
        self.name.before(&other.name)
    }
}

/// Nothing differs.
pub open spec fn no_change(d: DiffView) -> bool {
    &&& d.creates.len() == 0
    &&& d.destroys.len() == 0
    &&& d.restarts.len() == 0
    &&& d.params.len() == 0
    &&& d.refreshes.len() == 0
    &&& d.grant_adds.len() == 0
    &&& d.grant_removes.len() == 0
}

impl Diff {
    pub fn is_empty(&self) -> (r: bool)
        ensures
            r == no_change(self@),
    {
        self.creates.len() == 0 && self.destroys.len() == 0 && self.restarts.len() == 0
            && self.params.len() == 0 && self.refreshes.len() == 0 && self.grant_adds.len() == 0
            && self.grant_removes.len() == 0
    }
}

/// The tier of a diff: structural where units come or go or the grant table
/// changes, behavioral where units restart, else parameter-only.
pub open spec fn tier_of(d: DiffView) -> Tier {
    if d.creates.len() > 0 || d.destroys.len() > 0 || d.grant_adds.len() > 0 || d.grant_removes.len()
        > 0 {
        Tier::Structure
    } else if d.restarts.len() > 0 {
        Tier::Behavioral
    } else {
        Tier::ParameterOnly
    }
}

pub fn derive_tier(diff: &Diff) -> (r: Tier)
    ensures
        r == tier_of(diff@),
{
    if diff.creates.len() > 0 || diff.destroys.len() > 0 || diff.grant_adds.len() > 0
        || diff.grant_removes.len() > 0 {
        Tier::Structure
    } else if diff.restarts.len() > 0 {
        Tier::Behavioral
    } else {
        Tier::ParameterOnly
    }
}

/// A field of a parameter that may change without a restart.
pub open spec fn is_value_field(key: Seq<char>) -> bool {
    key == "default"@ || key == "constraint"@ || key == "editable_by"@
}

/// The entries of a parameter's table that a running unit depends on, among
/// the first `n`.
pub open spec fn kept_fields(m: Seq<(Seq<char>, TomlView)>, n: nat) -> Seq<(Seq<char>, TomlView)> {
    text::each(n, |i: int| text::only_if(!is_value_field(m[i].0), m[i]))
}

/// A parameter without the fields that may change.
pub open spec fn stripped_param(v: TomlView) -> TomlView {
    match v.data {
        TomlDataView::Table(m) => TomlView {
            data: TomlDataView::Table(kept_fields(m, m.len())),
            ..v
        },
        _ => v,
    }
}

/// The parameters without the fields that may change.
pub open spec fn stripped_params(v: TomlView) -> TomlView {
    match v.data {
        TomlDataView::Table(m) => TomlView {
            data: TomlDataView::Table(Seq::new(m.len(), |i: int| (m[i].0, stripped_param(m[i].1)))),
            ..v
        },
        _ => v,
    }
}

/// A manifest without the parameter fields that may change.
pub open spec fn stripped(v: TomlView) -> TomlView {
    match v.data {
        TomlDataView::Table(m) => TomlView {
            data: TomlDataView::Table(
                Seq::new(
                    m.len(),
                    |i: int|
                        (
                            m[i].0,
                            if m[i].0 == "params"@ {
                                stripped_params(m[i].1)
                            } else {
                                m[i].1
                            },
                        ),
                ),
            ),
            ..v
        },
        _ => v,
    }
}

/// Whether the two manifests differ only in parameter values.
pub open spec fn same_but_values(repo: Seq<u8>, world: Seq<u8>) -> bool {
    match (tomlvalue::document(repo), tomlvalue::document(world)) {
        (Some(a), Some(b)) => tomlvalue::toml_same(stripped(a), stripped(b)),
        _ => false,
    }
}

fn keep_fields(m: &NameMap<TomlValue>) -> (r: Vec<usize>)
    ensures
        forall|k: int| 0 <= k < r@.len() ==> (#[trigger] r@[k]) < m@.len(),
        kept_fields(
            tomlvalue::entries_view(m@),
            m@.len(),
        ) == Seq::new(r@.len(), |k: int| tomlvalue::entries_view(m@)[r@[k] as int]),
{
    let ghost e = tomlvalue::entries_view(m@);
    let mut out: Vec<usize> = Vec::new();
    let n = m.len();
    for i in 0..n
        invariant
            n == m@.len(),
            e == tomlvalue::entries_view(m@),
            forall|k: int| 0 <= k < out@.len() ==> (#[trigger] out@[k]) < m@.len(),
            kept_fields(e, i as nat) == Seq::new(out@.len(), |k: int| e[out@[k] as int]),
    {
        let key = m.name(i).as_str();
        let ghost before = out@;
        if !(str_eq(key, "default") || str_eq(key, "constraint") || str_eq(key, "editable_by")) {
            out.push(i);
            assert(Seq::new(out@.len(), |k: int| e[out@[k] as int]) =~= Seq::new(
                before.len(),
                |k: int| e[before[k] as int],
            ) + seq![e[i as int]]);
        }
    }
    out
}

fn same_param(a: &TomlValue, b: &TomlValue) -> (r: bool)
    ensures
        r == tomlvalue::toml_same(stripped_param(a@), stripped_param(b@)),
{
    match (&a.data, &b.data) {
        (TomlData::Table(x), TomlData::Table(y)) => {
            let ka = keep_fields(x);
            let kb = keep_fields(y);
            let ghost ea = tomlvalue::entries_view(x@);
            let ghost eb = tomlvalue::entries_view(y@);
            let ghost sa = kept_fields(ea, x@.len());
            let ghost sb = kept_fields(eb, y@.len());
            proof {
                assert(a@.data->Table_0 =~= ea);
                assert(b@.data->Table_0 =~= eb);
            }
            if ka.len() != kb.len() {
                return false;
            }
            for k in 0..ka.len()
                invariant
                    ka@.len() == kb@.len(),
                    ea == tomlvalue::entries_view(x@),
                    eb == tomlvalue::entries_view(y@),
                    sa == Seq::new(ka@.len(), |k: int| ea[ka@[k] as int]),
                    sb == Seq::new(kb@.len(), |k: int| eb[kb@[k] as int]),
                    sa == kept_fields(ea, x@.len()),
                    sb == kept_fields(eb, y@.len()),
                    a@.data == TomlDataView::Table(ea),
                    b@.data == TomlDataView::Table(eb),
                    forall|m: int| 0 <= m < ka@.len() ==> (#[trigger] ka@[m]) < x@.len(),
                    forall|m: int| 0 <= m < kb@.len() ==> (#[trigger] kb@[m]) < y@.len(),
                    forall|m: int|
                        0 <= m < k ==> (#[trigger] sa[m]).0 == sb[m].0 && tomlvalue::toml_same(
                            sa[m].1,
                            sb[m].1,
                        ),
            {
                let i = ka[k];
                let j = kb[k];
                assert(sa[k as int] == (x@[i as int].0@, x@[i as int].1@));
                assert(sb[k as int] == (y@[j as int].0@, y@[j as int].1@));
                if !(str_eq(x.name(i).as_str(), y.name(j).as_str()) && x.value(i).same(
                    y.value(j),
                )) {
                    return false;
                }
            }
            true
        },
        _ => {
            proof {
                assert(stripped_param(a@).data is Table <==> a@.data is Table);
                assert(stripped_param(b@).data is Table <==> b@.data is Table);
            }
            match &a.data {
                TomlData::Table(_) => false,
                _ => match &b.data {
                    TomlData::Table(_) => false,
                    _ => a.same(b),
                },
            }
        },
    }
}

fn same_params(a: &TomlValue, b: &TomlValue) -> (r: bool)
    ensures
        r == tomlvalue::toml_same(stripped_params(a@), stripped_params(b@)),
{
    match (&a.data, &b.data) {
        (TomlData::Table(x), TomlData::Table(y)) => {
            let ghost ea = tomlvalue::entries_view(x@);
            let ghost eb = tomlvalue::entries_view(y@);
            proof {
                assert(a@.data->Table_0 =~= ea);
                assert(b@.data->Table_0 =~= eb);
            }
            let ghost sa = stripped_params(a@).data->Table_0;
            let ghost sb = stripped_params(b@).data->Table_0;
            let n = x.len();
            if n != y.len() {
                return false;
            }
            for k in 0..n
                invariant
                    n == x@.len(),
                    n == y@.len(),
                    a@.data == TomlDataView::Table(tomlvalue::entries_view(x@)),
                    b@.data == TomlDataView::Table(tomlvalue::entries_view(y@)),
                    sa == stripped_params(a@).data->Table_0,
                    sb == stripped_params(b@).data->Table_0,
                    forall|m: int|
                        0 <= m < k ==> (#[trigger] sa[m]).0 == sb[m].0 && tomlvalue::toml_same(
                            sa[m].1,
                            sb[m].1,
                        ),
            {
                assert(sa[k as int] == (x@[k as int].0@, stripped_param(x@[k as int].1@)));
                assert(sb[k as int] == (y@[k as int].0@, stripped_param(y@[k as int].1@)));
                if !(str_eq(x.name(k).as_str(), y.name(k).as_str()) && same_param(
                    x.value(k),
                    y.value(k),
                )) {
                    return false;
                }
            }
            true
        },
        _ => match &a.data {
            TomlData::Table(_) => false,
            _ => match &b.data {
                TomlData::Table(_) => false,
                _ => a.same(b),
            },
        },
    }
}

fn same_stripped(a: &TomlValue, b: &TomlValue) -> (r: bool)
    ensures
        r == tomlvalue::toml_same(stripped(a@), stripped(b@)),
{
    match (&a.data, &b.data) {
        (TomlData::Table(x), TomlData::Table(y)) => {
            proof {
                assert(a@.data->Table_0 =~= tomlvalue::entries_view(x@));
                assert(b@.data->Table_0 =~= tomlvalue::entries_view(y@));
            }
            let ghost sa = stripped(a@).data->Table_0;
            let ghost sb = stripped(b@).data->Table_0;
            let n = x.len();
            if n != y.len() {
                return false;
            }
            for k in 0..n
                invariant
                    n == x@.len(),
                    n == y@.len(),
                    a@.data == TomlDataView::Table(tomlvalue::entries_view(x@)),
                    b@.data == TomlDataView::Table(tomlvalue::entries_view(y@)),
                    sa == stripped(a@).data->Table_0,
                    sb == stripped(b@).data->Table_0,
                    forall|m: int|
                        0 <= m < k ==> (#[trigger] sa[m]).0 == sb[m].0 && tomlvalue::toml_same(
                            sa[m].1,
                            sb[m].1,
                        ),
            {
                let key = x.name(k).as_str();
                assert(sa[k as int].0 == key@);
                assert(sb[k as int].0 == y@[k as int].0@);
                if !str_eq(key, y.name(k).as_str()) {
                    return false;
                }
                let same = if str_eq(key, "params") {
                    same_params(x.value(k), y.value(k))
                } else {
                    x.value(k).same(y.value(k))
                };
                if !same {
                    return false;
                }
            }
            true
        },
        _ => match &a.data {
            TomlData::Table(_) => false,
            _ => match &b.data {
                TomlData::Table(_) => false,
                _ => a.same(b),
            },
        },
    }
}

/// True when the two manifests differ only in parameter values — every
/// param's `default`/`constraint`/`editable_by` stripped, the rest equal.
/// Param add/remove or a type change is NOT parameter-level: the running
/// unit read its manifest at startup. An unparseable side is a change.
pub fn param_level_only(repo: &[u8], world: &[u8]) -> (r: bool)
    ensures
        r == same_but_values(repo@, world@),
{
    match (TomlValue::parse(repo), TomlValue::parse(world)) {
        (Some(a), Some(b)) => same_stripped(&a, &b),
        _ => false,
    }
}

/// The parameters of a manifest; none where it does not parse.
pub open spec fn params_in(manifest: Seq<u8>) -> Seq<(Seq<char>, TomlView)> {
    match tomlvalue::document(manifest) {
        Some(doc) => match tomlvalue::member(doc, "params"@) {
            Some(params) => match params.data {
                TomlDataView::Table(m) => m,
                _ => Seq::empty(),
            },
            None => Seq::empty(),
        },
        None => Seq::empty(),
    }
}

/// Whether two optional values are equal.
pub open spec fn same_optional(a: Option<TomlView>, b: Option<TomlView>) -> bool {
    match (a, b) {
        (None, None) => true,
        (Some(x), Some(y)) => tomlvalue::toml_same(x, y),
        _ => false,
    }
}

/// `key=value` for each of the first `n` entries of a table.
pub open spec fn table_parts(m: Seq<(Seq<char>, TomlView)>) -> Seq<Seq<char>> {
    Seq::new(m.len(), |i: int| m[i].0 + "="@ + tomlvalue::shown(m[i].1))
}

/// A parameter field as a refresh shows it.
pub open spec fn policy_text(v: Option<TomlView>) -> Seq<char> {
    match v {
        None => "(none)"@,
        Some(value) => match value.data {
            TomlDataView::Table(m) => "{"@ + text::joined(table_parts(m), ", "@) + "}"@,
            _ => tomlvalue::shown(value),
        },
    }
}

/// The field of a parameter, where the parameter is there and has it.
pub open spec fn field_of(param: Option<TomlView>, field: Seq<char>) -> Option<TomlView> {
    match param {
        Some(p) => tomlvalue::member(p, field),
        None => None,
    }
}

/// The change of one field of one parameter.
pub open spec fn field_change(
    name: Seq<char>,
    new: TomlView,
    old_param: Option<TomlView>,
    field: Seq<char>,
) -> Seq<Seq<char>> {
    let now = tomlvalue::member(new, field);
    let before = field_of(old_param, field);
    text::only_if(
        !same_optional(now, before),
        name + ": "@ + field + " "@ + policy_text(before) + " -> "@ + policy_text(now),
    )
}

/// The changes of one parameter.
pub open spec fn param_changes(name: Seq<char>, new: TomlView, old_param: Option<TomlView>) -> Seq<
    Seq<char>,
> {
    field_change(name, new, old_param, "default"@) + field_change(
        name,
        new,
        old_param,
        "constraint"@,
    ) + field_change(name, new, old_param, "editable_by"@)
}

/// The changes of the first `n` parameters.
pub open spec fn changes_between(
    new: Seq<(Seq<char>, TomlView)>,
    before: Seq<(Seq<char>, TomlView)>,
    n: nat,
) -> Seq<Seq<char>> {
    text::each(n, |i: int| param_changes(new[i].0, new[i].1, tomlvalue::entry(before, new[i].0)))
}

fn same_option(a: Option<&TomlValue>, b: Option<&TomlValue>) -> (r: bool)
    ensures
        r == same_optional(opt_view(a), opt_view(b)),
{
    match (a, b) {
        (None, None) => true,
        (Some(x), Some(y)) => x.same(y),
        _ => false,
    }
}

/// What an optional value stands for.
pub open spec fn opt_view(v: Option<&TomlValue>) -> Option<TomlView> {
    match v {
        Some(x) => Some(x@),
        None => None,
    }
}

fn table_text(m: &NameMap<TomlValue>) -> (r: String)
    ensures
        r@ == text::joined(table_parts(tomlvalue::entries_view(m@)), ", "@),
{
    let mut parts: Vec<String> = Vec::new();
    let n = m.len();
    for i in 0..n
        invariant
            n == m@.len(),
            parts@.len() == i,
            forall|k: int|
                0 <= k < i ==> (#[trigger] parts@[k])@ == table_parts(
                    tomlvalue::entries_view(m@),
                )[k],
    {
        let value = display_value(m.value(i));
        parts.push(cat3(m.name(i).as_str(), "=", value.as_str()));
    }
    assert(text::views(parts@) =~= table_parts(tomlvalue::entries_view(m@)));
    text::join(&parts, ", ")
}

fn policy_value(value: Option<&TomlValue>) -> (r: String)
    ensures
        r@ == policy_text(opt_view(value)),
{
    match value {
        None => "(none)".to_owned(),
        Some(v) => match &v.data {
            TomlData::Table(m) => {
                assert(v@.data->Table_0 =~= tomlvalue::entries_view(m@));
                let parts = table_text(m);
                cat3("{", parts.as_str(), "}")
            },
            _ => display_value(v),
        },
    }
}

fn push_field_change(
    name: &String,
    new: &TomlValue,
    old_param: Option<&TomlValue>,
    field: &str,
    changes: &mut Vec<String>,
)
    ensures
        text::views(final(changes)@) == text::views(old(changes)@) + field_change(
            name@,
            new@,
            opt_view(old_param),
            field@,
        ),
{
    let now = new.get(field);
    let before = match old_param {
        Some(p) => p.get(field),
        None => None,
    };
    if !same_option(now, before) {
        let from = policy_value(before);
        let to = policy_value(now);
        changes.push(
            text::cat7(name.as_str(), ": ", field, " ", from.as_str(), " -> ", to.as_str()),
        );
    }
}

fn push_changes_of(
    name: &String,
    new: &TomlValue,
    old_param: Option<&TomlValue>,
    changes: &mut Vec<String>,
)
    ensures
        text::views(final(changes)@) == text::views(old(changes)@) + param_changes(
            name@,
            new@,
            opt_view(old_param),
        ),
{
    push_field_change(name, new, old_param, "default", changes);
    push_field_change(name, new, old_param, "constraint", changes);
    push_field_change(name, new, old_param, "editable_by", changes);
}

fn push_param_changes(
    params: &NameMap<TomlValue>,
    before: Option<&NameMap<TomlValue>>,
    changes: &mut Vec<String>,
)
    ensures
        text::views(final(changes)@) == text::views(old(changes)@) + changes_between(
            tomlvalue::entries_view(params@),
            match before {
                Some(m) => tomlvalue::entries_view(m@),
                None => Seq::empty(),
            },
            params@.len(),
        ),
{
    let ghost new_entries = tomlvalue::entries_view(params@);
    let ghost old_entries = match before {
        Some(m) => tomlvalue::entries_view(m@),
        None => Seq::empty(),
    };
    let ghost start = text::views(changes@);
    let n = params.len();
    for i in 0..n
        invariant
            n == params@.len(),
            new_entries == tomlvalue::entries_view(params@),
            old_entries == match before {
                Some(m) => tomlvalue::entries_view(m@),
                None => Seq::empty(),
            },
            text::views(changes@) == start + changes_between(new_entries, old_entries, i as nat),
    {
        let name = params.name(i);
        let new = params.value(i);
        assert(new_entries[i as int] == (name@, new@));
        let old_param = match before {
            Some(m) => {
                proof {
                    tomlvalue::lemma_entry(m@, name@);
                }
                m.get(name.as_str())
            },
            None => None,
        };
        assert(opt_view(old_param) == tomlvalue::entry(old_entries, name@));
        push_changes_of(name, new, old_param, changes);
    }
}

fn params_table(doc: &Option<TomlValue>) -> (r: Option<&NameMap<TomlValue>>)
    ensures
        (match r {
            Some(m) => tomlvalue::entries_view(m@),
            None => Seq::empty(),
        }) == match *doc {
            Some(d) => match tomlvalue::member(d@, "params"@) {
                Some(params) => match params.data {
                    TomlDataView::Table(m) => m,
                    _ => Seq::empty(),
                },
                None => Seq::empty(),
            },
            None => Seq::empty(),
        },
{
    match doc {
        Some(d) => match d.get("params") {
            Some(params) => match &params.data {
                TomlData::Table(m) => {
                    assert(params@.data->Table_0 =~= tomlvalue::entries_view(m@));
                    Some(m)
                },
                _ => None,
            },
            None => None,
        },
        None => None,
    }
}

/// The per-param deltas behind a parameter-level manifest change: the
/// stripped fields compared between the world's manifest and the repo's.
/// Empty when the manifests differ only in formatting or comments.
pub fn refresh_changes(repo: &[u8], world: &[u8]) -> (r: Vec<String>)
    ensures
        text::views(r@) == changes_between(
            params_in(repo@),
            params_in(world@),
            params_in(repo@).len(),
        ),
{
    let new_doc = TomlValue::parse(repo);
    let old_doc = TomlValue::parse(world);
    let mut changes: Vec<String> = Vec::new();
    let before = params_table(&old_doc);
    if let Some(params) = params_table(&new_doc) {
        push_param_changes(params, before, &mut changes);
    }
    changes
}

/// How one unit of the repo differs from the running one.
pub struct UnitDelta {
    pub files_changed: bool,
    pub manifest_changed: bool,
    pub param_level: bool,
}

/// How one unit of the repo differs from the running one: a manifest that
/// changed in parameter values alone is no manifest change.
pub open spec fn delta_of(repo: RepoUnit, world: WorldUnit) -> UnitDelta {
    let hash_changed = content::hash_of(repo.manifest@) != world.manifest_hash@;
    let param_level = hash_changed && same_but_values(repo.manifest@, world.manifest@);
    UnitDelta {
        files_changed: repo.files_hash@ != world.files_hash@,
        manifest_changed: hash_changed && !param_level,
        param_level,
    }
}

fn unit_delta(repo: &RepoUnit, world: &WorldUnit) -> (r: UnitDelta)
    ensures
        r == delta_of(*repo, *world),
{
    let hash = content::manifest_hash(repo.manifest.as_slice());
    let hash_changed = !str_eq(hash.as_str(), world.manifest_hash.as_str());
    let param_level = hash_changed && param_level_only(
        repo.manifest.as_slice(),
        world.manifest.as_slice(),
    );
    UnitDelta {
        files_changed: !str_eq(repo.files_hash.as_str(), world.files_hash.as_str()),
        manifest_changed: hash_changed && !param_level,
        param_level,
    }
}

/// The unit comes up for the first time.
pub open spec fn unit_creates(u: LoadedUnit, world: World) -> Seq<Seq<char>> {
    text::only_if(
        names::lookup(world.units@, u.manifest.unit.name@) is None,
        u.manifest.unit.name@,
    )
}

/// The unit restarts.
pub open spec fn unit_restarts(u: LoadedUnit, repo: RepoUnit, world: World) -> Seq<RestartView> {
    match names::lookup(world.units@, u.manifest.unit.name@) {
        None => Seq::empty(),
        Some(running) => {
            let d = delta_of(repo, running);
            text::only_if(
                d.manifest_changed || d.files_changed,
                RestartView {
                    name: u.manifest.unit.name@,
                    reason: if d.manifest_changed && d.files_changed {
                        "manifest and unit files changed"@
                    } else if d.manifest_changed {
                        "manifest changed"@
                    } else {
                        "unit files changed"@
                    },
                    manifest_changed: d.manifest_changed,
                },
            )
        },
    }
}

/// The unit's manifest is refreshed without a restart.
pub open spec fn unit_refreshes(u: LoadedUnit, repo: RepoUnit, world: World) -> Seq<RefreshView> {
    match names::lookup(world.units@, u.manifest.unit.name@) {
        None => Seq::empty(),
        Some(running) => {
            let d = delta_of(repo, running);
            text::only_if(
                !d.manifest_changed && !d.files_changed && d.param_level,
                RefreshView {
                    name: u.manifest.unit.name@,
                    changes: changes_between(
                        params_in(repo.manifest@),
                        params_in(running.manifest@),
                        params_in(repo.manifest@).len(),
                    ),
                },
            )
        },
    }
}

/// The parameter's live value differs from its default in the repo. One rule
/// covers both a changed default and live drift — the repo is the system of
/// record either way. A parameter unknown to the running world is covered by
/// the restart.
pub open spec fn param_drift(
    unit: Seq<char>,
    param: Seq<char>,
    spec: ParamSpec,
    world: World,
) -> Seq<ParamChangeView> {
    match names::lookup(world.params@, (unit, param)) {
        None => Seq::empty(),
        Some(live) => text::only_if(
            !json::json_same(live@, config::default_view(spec)),
            ParamChangeView { unit, param, live: live@, repo: config::default_view(spec) },
        ),
    }
}

/// The first `n` parameters of a unit that drifted.
pub open spec fn drifts(u: LoadedUnit, world: World, n: nat) -> Seq<ParamChangeView> {
    let params = u.manifest.params->Some_0@;
    text::each(
        n,
        |j: int| param_drift(u.manifest.unit.name@, params[j].0@, params[j].1, world),
    )
}

/// The parameters of a running unit that drifted.
pub open spec fn unit_drifts(u: LoadedUnit, world: World) -> Seq<ParamChangeView> {
    if names::lookup(world.units@, u.manifest.unit.name@) is None || u.manifest.params is None {
        Seq::empty()
    } else {
        drifts(u, world, u.manifest.params->Some_0@.len())
    }
}

/// The units to create, among the first `n`.
pub open spec fn all_creates(h: House, world: World, n: nat) -> Seq<Seq<char>> {
    text::each(n, |i: int| unit_creates(h.units@[i], world))
}

/// The units to restart, among the first `n`.
pub open spec fn all_restarts(h: House, repo: Seq<RepoUnit>, world: World, n: nat) -> Seq<
    RestartView,
> {
    text::each(n, |i: int| unit_restarts(h.units@[i], repo[i], world))
}

/// The units to refresh, among the first `n`.
pub open spec fn all_refreshes(h: House, repo: Seq<RepoUnit>, world: World, n: nat) -> Seq<
    RefreshView,
> {
    text::each(n, |i: int| unit_refreshes(h.units@[i], repo[i], world))
}

/// The parameters that drifted, among those of the first `n` units.
pub open spec fn all_drifts(h: House, world: World, n: nat) -> Seq<ParamChangeView> {
    text::each(n, |i: int| unit_drifts(h.units@[i], world))
}

/// The running units that the repo does not have, among the first `n`.
pub open spec fn all_destroys(h: House, world: World, n: nat) -> Seq<Seq<char>> {
    text::each(
        n,
        |i: int|
            text::only_if(
                repo::unit_named(h.units@, world.units@[i].0@) is None,
                world.units@[i].0@,
            ),
    )
}

/// The grants of one table that the other does not have, among the first `n`.
pub open spec fn grants_not_in(table: Seq<GrantView>, other: Seq<GrantView>, n: nat) -> Seq<
    GrantView,
> {
    text::each(n, |i: int| text::only_if(!other.contains(table[i]), table[i]))
}

/// How the repo differs from the world.
pub open spec fn diff_of(
    h: House,
    table: Seq<GrantView>,
    repo: Seq<RepoUnit>,
    world: World,
) -> DiffView {
    let n = h.units@.len();
    let running = text::views(world.grants@);
    DiffView {
        creates: order::sorted::<String>(all_creates(h, world, n)),
        destroys: order::sorted::<String>(all_destroys(h, world, world.units@.len())),
        restarts: order::sorted::<Restart>(all_restarts(h, repo, world, n)),
        params: all_drifts(h, world, n),
        refreshes: all_refreshes(h, repo, world, n),
        grant_adds: grants_not_in(table, running, table.len()),
        grant_removes: grants_not_in(running, table, running.len()),
    }
}

fn has_grant(table: &Vec<Grant>, grant: &Grant) -> (r: bool)
    ensures
        r == text::views(table@).contains(grant@),
{
    for i in 0..table.len()
        invariant
            forall|k: int| 0 <= k < i ==> (#[trigger] text::views(table@)[k]) != grant@,
    {
        assert(text::views(table@)[i as int] == table@[i as int]@);
        if table[i].same(grant) {
            return true;
        }
    }
    false
}

fn missing_grants(table: &Vec<Grant>, other: &Vec<Grant>) -> (r: Vec<Grant>)
    ensures
        text::views(r@) == grants_not_in(
            text::views(table@),
            text::views(other@),
            table@.len(),
        ),
{
    let mut out: Vec<Grant> = Vec::new();
    for i in 0..table.len()
        invariant
            text::views(out@) == grants_not_in(
                text::views(table@),
                text::views(other@),
                i as nat,
            ),
    {
        assert(text::views(table@)[i as int] == table@[i as int]@);
        if !has_grant(other, &table[i]) {
            out.push(table[i].copy());
        }
    }
    out
}

fn push_drifts(unit: &LoadedUnit, world: &World, params: &mut Vec<ParamChange>)
    ensures
        text::views(final(params)@) == text::views(old(params)@) + if unit.manifest.params is None {
            Seq::empty()
        } else {
            drifts(*unit, *world, unit.manifest.params->Some_0@.len())
        },
{
    if let Some(specs) = &unit.manifest.params {
        let name = &unit.manifest.unit.name;
        let ghost start = text::views(params@);
        let n = specs.len();
        for j in 0..n
            invariant
                n == specs@.len(),
                unit.manifest.params == Some(*specs),
                *name == unit.manifest.unit.name,
                text::views(params@) == start + drifts(*unit, *world, j as nat),
        {
            let param = specs.name(j);
            let repo = default_value(specs.value(j));
            if let Some(live) = world.params.get_pair(name.as_str(), param.as_str()) {
                if !live.same(&repo) {
                    params.push(
                        ParamChange {
                            unit: name.clone(),
                            param: param.clone(),
                            live: live.copy(),
                            repo,
                        },
                    );
                }
            }
        }
    }
}

fn diff_unit(unit: &LoadedUnit, repo: &RepoUnit, world: &World, diff: &mut Diff)
    ensures
        text::views(final(diff).creates@) == text::views(old(diff).creates@) + unit_creates(
            *unit,
            *world,
        ),
        text::views(final(diff).restarts@) == text::views(old(diff).restarts@) + unit_restarts(
            *unit,
            *repo,
            *world,
        ),
        text::views(final(diff).refreshes@) == text::views(old(diff).refreshes@) + unit_refreshes(
            *unit,
            *repo,
            *world,
        ),
        text::views(final(diff).params@) == text::views(old(diff).params@) + unit_drifts(
            *unit,
            *world,
        ),
{
    let name = &unit.manifest.unit.name;
    let running = match world.units.get(name.as_str()) {
        Some(running) => running,
        None => {
            diff.creates.push(name.clone());
            return ;
        },
    };
    let d = unit_delta(repo, running);
    if d.manifest_changed || d.files_changed {
        let reason = if d.manifest_changed && d.files_changed {
            "manifest and unit files changed"
        } else if d.manifest_changed {
            "manifest changed"
        } else {
            "unit files changed"
        };
        diff.restarts.push(
            Restart {
                name: name.clone(),
                reason: reason.to_owned(),
                manifest_changed: d.manifest_changed,
            },
        );
    } else if d.param_level {
        diff.refreshes.push(
            Refresh {
                name: name.clone(),
                changes: refresh_changes(
                    repo.manifest.as_slice(),
                    running.manifest.as_slice(),
                ),
            },
        );
    }
    push_drifts(unit, world, &mut diff.params);
}

/// Diffs the validated repo against the world. `repo` holds, for each unit of
/// the house, what the repo has of it. Only call on an error-free check
/// result.
pub fn diff(check: &CheckResult, repo: &Vec<RepoUnit>, world: &World) -> (r: Diff)
    requires
        repo@.len() == check.house.units@.len(),
    ensures
        r@ == diff_of(check.house, text::views(check.grants@), repo@, *world),
{
    let mut diff = Diff {
        creates: Vec::new(),
        destroys: Vec::new(),
        restarts: Vec::new(),
        params: Vec::new(),
        refreshes: Vec::new(),
        grant_adds: Vec::new(),
        grant_removes: Vec::new(),
    };
    let house = &check.house;
    for i in 0..house.units.len()
        invariant
            repo@.len() == house.units@.len(),
            text::views(diff.creates@) == all_creates(*house, *world, i as nat),
            text::views(diff.restarts@) == all_restarts(*house, repo@, *world, i as nat),
            text::views(diff.refreshes@) == all_refreshes(*house, repo@, *world, i as nat),
            text::views(diff.params@) == all_drifts(*house, *world, i as nat),
    {
        diff_unit(&house.units[i], &repo[i], world, &mut diff);
    }
    let mut destroys: Vec<String> = Vec::new();
    let n = world.units.len();
    for i in 0..n
        invariant
            n == world.units@.len(),
            text::views(destroys@) == all_destroys(*house, *world, i as nat),
    {
        let name = world.units.name(i);
        if house.unit(name.as_str()).is_none() {
            destroys.push(name.clone());
        }
    }
    let r = Diff {
        creates: order::sort(diff.creates),
        destroys: order::sort(destroys),
        restarts: order::sort(diff.restarts),
        params: diff.params,
        refreshes: diff.refreshes,
        grant_adds: missing_grants(&check.grants, &world.grants),
        grant_removes: missing_grants(&world.grants, &check.grants),
    };
    r
}

/// The apply walk over units, ordered by the grant table (adapters before
/// the automations granted onto their entities), never declared. Parameter
/// writes are not steps: they happen first and restart nothing.
#[derive(Debug, Clone, Copy, PartialEq, Eq, Structural)]
pub enum StepAction {
    Stop,
    Start,
    Restart,
}

impl StepAction {
    /// The word a report uses for it.
    pub open spec fn word(self) -> Seq<char> {
        match self {
            StepAction::Stop => "stop"@,
            StepAction::Start => "start"@,
            StepAction::Restart => "restart"@,
        }
    }

    pub fn as_str(&self) -> (r: &'static str)
        ensures
            r@ == self.word(),
    {
        match self {
            StepAction::Stop => "stop",
            StepAction::Start => "start",
            StepAction::Restart => "restart",
        }
    }
}

#[derive(Debug, Clone)]
pub struct Step {
    pub unit: String,
    pub action: StepAction,
}

/// What a step says.
pub struct StepView {
    pub unit: Seq<char>,
    pub action: StepAction,
}

impl View for Step {
    type V = StepView;

    open spec fn view(&self) -> StepView {
        StepView { unit: self.unit@, action: self.action }
    }
}

/// The rank of a kind in a walk: adapters, automations, services.
pub open spec fn rank_of(kind: UnitKind) -> u8 {
    match kind {
        UnitKind::Adapter => 0,
        UnitKind::Automation => 1,
        UnitKind::Service => 2,
    }
}

fn kind_order(kind: UnitKind) -> (r: u8)
    ensures
        r == rank_of(kind),
{
    match kind {
        UnitKind::Adapter => 0,
        UnitKind::Automation => 1,
        UnitKind::Service => 2,
    }
}

/// The kind that a running unit's manifest names.
pub open spec fn kind_in(manifest: Seq<u8>) -> Option<Seq<char>> {
    match tomlvalue::document(manifest) {
        Some(doc) => match tomlvalue::member(doc, "unit"@) {
            Some(unit) => match tomlvalue::member(unit, "kind"@) {
                Some(kind) => match kind.data {
                    TomlDataView::Str(s) => Some(s),
                    _ => None,
                },
                None => None,
            },
            None => None,
        },
        None => None,
    }
}

/// The kind that a running unit's manifest names.
pub fn world_kind(unit: &WorldUnit) -> (r: Option<String>)
    ensures
        text::opt_text(r) == kind_in(unit.manifest@),
{
    match TomlValue::parse(unit.manifest.as_slice()) {
        Some(doc) => match doc.get("unit") {
            Some(section) => match section.get("kind") {
                Some(kind) => match kind.as_str() {
                    Some(s) => Some(s.to_owned()),
                    None => None,
                },
                None => None,
            },
            None => None,
        },
        None => None,
    }
}

/// The rank of the kind that a running unit has; last where it is not known.
pub open spec fn running_rank(world: World, name: Seq<char>) -> u8 {
    match names::lookup(world.units@, name) {
        None => 3,
        Some(unit) => match kind_in(unit.manifest@) {
            None => 3,
            Some(kind) => if kind == "adapter"@ {
                0
            } else if kind == "automation"@ {
                1
            } else if kind == "service"@ {
                2
            } else {
                3
            },
        },
    }
}

fn world_kind_order(world: &World, name: &str) -> (r: u8)
    ensures
        r == running_rank(*world, name@),
{
    match world.units.get(name) {
        None => 3,
        Some(unit) => match world_kind(unit) {
            None => 3,
            Some(kind) => if str_eq(kind.as_str(), "adapter") {
                0
            } else if str_eq(kind.as_str(), "automation") {
                1
            } else if str_eq(kind.as_str(), "service") {
                2
            } else {
                3
            },
        },
    }
}

/// The rank of the kind that a unit of the repo has.
pub open spec fn repo_rank(h: House, name: Seq<char>) -> u8 {
    match repo::unit_named(h.units@, name) {
        Some(u) => rank_of(u.manifest.unit.kind),
        None => 3,
    }
}

/// The units to stop, with their ranks.
pub open spec fn stop_set(d: DiffView, world: World) -> Seq<(Seq<char>, u8)> {
    let names = order::distinct(d.destroys);
    Seq::new(names.len(), |i: int| (names[i], running_rank(world, names[i])))
}

/// The names of the units to start or restart.
pub open spec fn start_names(d: DiffView) -> Seq<Seq<char>> {
    order::distinct(d.creates + Seq::new(d.restarts.len(), |i: int| d.restarts[i].name))
}

/// The units to start or restart, with their ranks.
pub open spec fn start_set(d: DiffView, h: House) -> Seq<(Seq<char>, u8)> {
    let names = start_names(d);
    Seq::new(names.len(), |i: int| (names[i], repo_rank(h, names[i])))
}

/// Removals first in reverse grant order (dependents stop before the adapters
/// they write through).
pub open spec fn stops_of(d: DiffView, world: World) -> Seq<StepView> {
    let running = text::views(world.grants@);
    let walk = graph::firsts(
        graph::layered(grants::grant_edges_of(running, running.len()), stop_set(d, world)),
    );
    Seq::new(
        walk.len(),
        |i: int| StepView { unit: walk[walk.len() - 1 - i], action: StepAction::Stop },
    )
}

/// Then creates and restarts in grant order.
pub open spec fn starts_of(d: DiffView, h: House, table: Seq<GrantView>) -> Seq<StepView> {
    let walk = graph::firsts(
        graph::layered(grants::grant_edges_of(table, table.len()), start_set(d, h)),
    );
    Seq::new(
        walk.len(),
        |i: int|
            StepView {
                unit: walk[i],
                action: if d.creates.contains(walk[i]) {
                    StepAction::Start
                } else {
                    StepAction::Restart
                },
            },
    )
}

/// The whole walk.
pub open spec fn walk_of(d: DiffView, h: House, table: Seq<GrantView>, world: World) -> Seq<
    StepView,
> {
    stops_of(d, world) + starts_of(d, h, table)
}

fn copy_names(v: &Vec<String>) -> (r: Vec<String>)
    ensures
        text::views(r@) == text::views(v@),
{
    let mut out: Vec<String> = Vec::new();
    for i in 0..v.len()
        invariant
            out@.len() == i,
            forall|k: int| 0 <= k < i ==> (#[trigger] out@[k])@ == v@[k]@,
    {
        out.push(v[i].clone());
    }
    assert(text::views(out@) =~= text::views(v@));
    out
}

fn stopping(diff: &Diff, world: &World) -> (r: Vec<(String, u8)>)
    ensures
        text::views(r@) == stop_set(diff@, *world),
{
    let names = order::sort_distinct(copy_names(&diff.destroys));
    let mut out: Vec<(String, u8)> = Vec::new();
    for i in 0..names.len()
        invariant
            text::views(names@) == order::distinct(diff@.destroys),
            out@.len() == i,
            forall|k: int| 0 <= k < i ==> (#[trigger] out@[k])@ == stop_set(diff@, *world)[k],
    {
        assert(text::views(names@)[i as int] == names@[i as int]@);
        let rank = world_kind_order(world, names[i].as_str());
        out.push((names[i].clone(), rank));
    }
    assert(text::views(out@) =~= stop_set(diff@, *world));
    out
}

fn starting(diff: &Diff, house: &House) -> (r: Vec<(String, u8)>)
    ensures
        text::views(r@) == start_set(diff@, *house),
{
    let mut all = copy_names(&diff.creates);
    let ghost created = text::views(all@);
    let ghost restarted = Seq::new(diff@.restarts.len(), |i: int| diff@.restarts[i].name);
    for i in 0..diff.restarts.len()
        invariant
            restarted == Seq::new(diff@.restarts.len(), |i: int| diff@.restarts[i].name),
            text::views(all@) == created + restarted.take(i as int),
    {
        assert(diff@.restarts[i as int] == diff.restarts@[i as int]@);
        assert(restarted.take(i + 1) =~= restarted.take(i as int).push(restarted[i as int]));
        all.push(diff.restarts[i].name.clone());
    }
    assert(restarted.take(restarted.len() as int) =~= restarted);
    let names = order::sort_distinct(all);
    let mut out: Vec<(String, u8)> = Vec::new();
    for i in 0..names.len()
        invariant
            text::views(names@) == start_names(diff@),
            out@.len() == i,
            forall|k: int| 0 <= k < i ==> (#[trigger] out@[k])@ == start_set(diff@, *house)[k],
    {
        assert(text::views(names@)[i as int] == names@[i as int]@);
        let rank = match house.unit(names[i].as_str()) {
            Some(u) => kind_order(u.manifest.unit.kind),
            None => 3,
        };
        out.push((names[i].clone(), rank));
    }
    assert(text::views(out@) =~= start_set(diff@, *house));
    out
}

/// Orders the walk: removals first in reverse grant order (dependents stop
/// before the adapters they write through), then creates and restarts in
/// grant order. Grant-edgeless units and ties order by kind (adapter,
/// automation, service), then name.
pub fn walk_steps(diff: &Diff, check: &CheckResult, world: &World) -> (r: Vec<Step>)
    ensures
        text::views(r@) == walk_of(
            diff@,
            check.house,
            text::views(check.grants@),
            *world,
        ),
{
    let mut steps: Vec<Step> = Vec::new();
    let stops = graph::ordered(&stopping(diff, world), &grants::grant_edges(&world.grants));
    let n = stops.len();
    for i in 0..n
        invariant
            n == stops@.len(),
            n == stops_of(diff@, *world).len(),
            steps@.len() == i,
            forall|k: int|
                0 <= k < n ==> stops_of(diff@, *world)[k].action == StepAction::Stop && (
                #[trigger] stops_of(diff@, *world)[k]).unit == stops@[n - 1 - k]@,
            forall|k: int| 0 <= k < i ==> (#[trigger] steps@[k])@ == stops_of(diff@, *world)[k],
    {
        assert(stops_of(diff@, *world)[i as int].unit == stops@[n - 1 - i]@);
        steps.push(Step { unit: stops[n - 1 - i].clone(), action: StepAction::Stop });
    }
    assert(text::views(steps@) =~= stops_of(diff@, *world));
    let ghost table = text::views(check.grants@);
    let starts = graph::ordered(
        &starting(diff, &check.house),
        &grants::grant_edges(&check.grants),
    );
    let ghost later = starts_of(diff@, check.house, table);
    for i in 0..starts.len()
        invariant
            table == text::views(check.grants@),
            later == starts_of(diff@, check.house, table),
            starts@.len() == later.len(),
            forall|k: int|
                0 <= k < later.len() ==> (#[trigger] later[k]).unit == starts@[k]@
                    && later[k].action == if diff@.creates.contains(starts@[k]@) {
                    StepAction::Start
                } else {
                    StepAction::Restart
                },
            text::views(steps@) == stops_of(diff@, *world) + later.take(i as int),
    {
        assert(later[i as int].unit == starts@[i as int]@);
        assert(later.take(i + 1) =~= later.take(i as int).push(later[i as int]));
        let action = if text::has(&diff.creates, starts[i].as_str()) {
            StepAction::Start
        } else {
            StepAction::Restart
        };
        steps.push(Step { unit: starts[i].clone(), action });
    }
    assert(later.take(later.len() as int) =~= later);
    steps
}

/// `n` spaces.
pub open spec fn spaces(n: nat) -> Seq<char> {
    Seq::new(n, |i: int| ' ')
}

/// The text filled up with spaces to the width, in characters.
pub open spec fn padded(s: Seq<char>, width: nat) -> Seq<char> {
    if s.len() < width {
        s + spaces((width - s.len()) as nat)
    } else {
        s
    }
}

/// How many bytes a text takes.
pub open spec fn byte_len(s: Seq<char>) -> nat {
    vstd::utf8::encode_utf8(s).len()
}

/// The byte length of the longest of the first `n` texts.
pub open spec fn widest(v: Seq<Seq<char>>, n: nat) -> nat
    decreases n,
{
    if n == 0 {
        0
    } else {
        let rest = widest(v, (n - 1) as nat);
        if byte_len(v[n - 1]) > rest {
            byte_len(v[n - 1])
        } else {
            rest
        }
    }
}

fn pad(s: &str, width: usize) -> (r: String)
    ensures
        r@ == padded(s@, width as nat),
{
    let mut out = s.to_owned();
    let n = s.unicode_len();
    if n < width {
        let mut k: usize = n;
        proof {
            reveal_strlit(" ");
        }
        assert(out@ =~= s@ + spaces(0));
        while k < width
            invariant
                n <= k <= width,
                n == s@.len(),
                " "@ == seq![' '],
                out@ == s@ + spaces((k - n) as nat),
            decreases width - k,
        {
            out.append(" ");
            k = k + 1;
            assert(out@ =~= s@ + spaces((k - n) as nat));
        }
    }
    out
}

fn widest_of(v: &Vec<String>) -> (r: usize)
    ensures
        r == widest(text::views(v@), v@.len()),
{
    let mut w: usize = 0;
    for i in 0..v.len()
        invariant
            w == widest(text::views(v@), i as nat),
    {
        assert(text::views(v@)[i as int] == v@[i as int]@);
        let n = v[i].as_str().as_bytes().len();
        if n > w {
            w = n;
        }
    }
    w
}

/// A number as it is counted in a plan.
pub open spec fn count(n: nat) -> Seq<char> {
    text::decimal(n)
}

/// `n thing(s) verb`
pub open spec fn counted(
    n: nat,
    singular: Seq<char>,
    plural: Seq<char>,
    verb: Seq<char>,
) -> Seq<char> {
    count(n) + " "@ + if n == 1 {
        singular
    } else {
        plural
    } + " "@ + verb
}

/// The parts of a plan's summary.
pub open spec fn summary_parts(d: DiffView) -> Seq<Seq<char>> {
    text::only_if(
        d.creates.len() > 0,
        counted(d.creates.len(), "unit"@, "units"@, "created"@),
    ) + text::only_if(
        d.destroys.len() > 0,
        counted(d.destroys.len(), "unit"@, "units"@, "destroyed"@),
    ) + text::only_if(
        d.restarts.len() > 0,
        counted(d.restarts.len(), "unit"@, "units"@, "restarted"@),
    ) + text::only_if(
        d.params.len() > 0,
        count(d.params.len()) + " parameter change"@ + if d.params.len() == 1 {
            ""@
        } else {
            "s"@
        },
    ) + text::only_if(
        d.refreshes.len() > 0,
        counted(d.refreshes.len(), "manifest"@, "manifests"@, "refreshed"@),
    ) + text::only_if(
        d.grant_adds.len() > 0,
        counted(d.grant_adds.len(), "grant"@, "grants"@, "added"@),
    ) + text::only_if(
        d.grant_removes.len() > 0,
        counted(d.grant_removes.len(), "grant"@, "grants"@, "removed"@),
    )
}

fn count_of(n: usize) -> (r: String)
    ensures
        r@ == count(n as nat),
{
    text::decimal_of(n as u64)
}

fn add_counted(
    parts: &mut Vec<String>,
    n: usize,
    singular: &str,
    plural: &str,
    verb: &str,
)
    ensures
        text::views(final(parts)@) == text::views(old(parts)@) + text::only_if(
            n > 0,
            counted(n as nat, singular@, plural@, verb@),
        ),
{
    if n > 0 {
        let number = count_of(n);
        let thing = if n == 1 {
            singular
        } else {
            plural
        };
        parts.push(cat5(number.as_str(), " ", thing, " ", verb));
    }
}

/// One line on what a plan will do.
pub fn summarize(diff: &Diff) -> (r: String)
    ensures
        r@ == text::joined(summary_parts(diff@), ", "@),
{
    let mut parts: Vec<String> = Vec::new();
    add_counted(&mut parts, diff.creates.len(), "unit", "units", "created");
    add_counted(&mut parts, diff.destroys.len(), "unit", "units", "destroyed");
    add_counted(&mut parts, diff.restarts.len(), "unit", "units", "restarted");
    if diff.params.len() > 0 {
        let number = count_of(diff.params.len());
        parts.push(
            cat3(
                number.as_str(),
                " parameter change",
                if diff.params.len() == 1 {
                    ""
                } else {
                    "s"
                },
            ),
        );
    }
    add_counted(&mut parts, diff.refreshes.len(), "manifest", "manifests", "refreshed");
    add_counted(&mut parts, diff.grant_adds.len(), "grant", "grants", "added");
    add_counted(&mut parts, diff.grant_removes.len(), "grant", "grants", "removed");
    assert(text::views(parts@) =~= summary_parts(diff@));
    text::join(&parts, ", ")
}

/// The first `n` granted entities, one line each.
pub open spec fn granted_lines(g: GrantView, n: nat) -> Seq<char> {
    let names = Seq::new(g.entities.len(), |i: int| g.entities[i].name);
    let width = widest(names, names.len());
    text::each(
        n,
        |i: int|
            "    -> "@ + padded(g.entities[i].name, width) + "  (room="@ + g.entities[i].room
                + ", write="@ + g.entities[i].write.word() + ", owner="@ + g.entities[i].owner
                + ")\n"@,
    )
}

/// A grant as a plan shows it.
pub open spec fn grant_text(g: GrantView, prefix: Seq<char>) -> Seq<char> {
    prefix + g.unit + "."@ + g.publish + "  capability="@ + g.capability + "  priority="@
        + g.priority.word() + "\n"@ + granted_lines(g, g.entities.len())
}

fn render_grant(grant: &Grant, prefix: &str, out: &mut String)
    ensures
        final(out)@ == old(out)@ + grant_text(grant@, prefix@),
{
    let line = cat9(
        prefix,
        grant.unit.as_str(),
        ".",
        grant.publish.as_str(),
        "  capability=",
        grant.capability.as_str(),
        "  priority=",
        grant.priority.as_str(),
        "\n",
    );
    out.append(line.as_str());
    let mut names: Vec<String> = Vec::new();
    for i in 0..grant.entities.len()
        invariant
            names@.len() == i,
            forall|k: int| 0 <= k < i ==> (#[trigger] names@[k])@ == grant.entities@[k].name@,
    {
        names.push(grant.entities[i].name.clone());
    }
    let ghost g = grant@;
    assert(text::views(names@) =~= Seq::new(g.entities.len(), |i: int| g.entities[i].name));
    let width = widest_of(&names);
    let ghost head = out@;
    for i in 0..grant.entities.len()
        invariant
            g == grant@,
            width == widest(
                Seq::new(g.entities.len(), |i: int| g.entities[i].name),
                g.entities.len(),
            ),
            out@ == head + granted_lines(g, i as nat),
    {
        let e = &grant.entities[i];
        assert(g.entities[i as int] == e@);
        let name = pad(e.name.as_str(), width);
        let line = cat9(
            "    -> ",
            name.as_str(),
            "  (room=",
            e.room.as_str(),
            ", write=",
            e.write.as_str(),
            ", owner=",
            e.owner.as_str(),
            ")\n",
        );
        out.append(line.as_str());
    }
}

/// A dropped grant as a plan shows it.
pub open spec fn dropped_grant_text(g: GrantView) -> Seq<char> {
    "  - "@ + g.unit + "."@ + g.publish + "  capability="@ + g.capability + "  priority="@
        + g.priority.word() + "  -> "@ + text::joined(
        Seq::new(g.entities.len(), |i: int| g.entities[i].name),
        ", "@,
    ) + "\n"@
}

fn render_dropped_grant(grant: &Grant, out: &mut String)
    ensures
        final(out)@ == old(out)@ + dropped_grant_text(grant@),
{
    let mut names: Vec<String> = Vec::new();
    for i in 0..grant.entities.len()
        invariant
            names@.len() == i,
            forall|k: int| 0 <= k < i ==> (#[trigger] names@[k])@ == grant.entities@[k].name@,
    {
        names.push(grant.entities[i].name.clone());
    }
    let ghost g = grant@;
    assert(text::views(names@) =~= Seq::new(g.entities.len(), |i: int| g.entities[i].name));
    let list = text::join(&names, ", ");
    let line = text::cat11(
        "  - ",
        grant.unit.as_str(),
        ".",
        grant.publish.as_str(),
        "  capability=",
        grant.capability.as_str(),
        "  priority=",
        grant.priority.as_str(),
        "  -> ",
        list.as_str(),
        "\n",
    );
    out.append(line.as_str());
}

/// The entities that a unit binds, among the first `n`.
pub open spec fn bound_by(h: House, unit: Seq<char>, n: nat) -> Seq<LoadedEntity> {
    text::each(n, |i: int| text::only_if(h.entities@[i].owner@ == unit, h.entities@[i]))
}

/// The first `n` bound entities, one line each, in columns.
pub open spec fn bound_lines(bound: Seq<LoadedEntity>, n: nat) -> Seq<char> {
    let names = Seq::new(bound.len(), |i: int| bound[i].name@);
    let caps = Seq::new(bound.len(), |i: int| bound[i].file.entity.capability@);
    let rooms = Seq::new(bound.len(), |i: int| "room="@ + bound[i].file.entity.room@);
    let name_w = widest(names, names.len());
    let cap_w = widest(caps, caps.len());
    let room_w = widest(rooms, rooms.len());
    text::each(
        n,
        |i: int|
            "      "@ + padded(names[i], name_w) + "  "@ + padded(caps[i], cap_w) + "  "@ + padded(
                rooms[i],
                room_w,
            ) + "  write="@ + bound[i].file.write_policy.in_force().word() + "\n"@,
    )
}

/// The constraint of a parameter as a plan shows it.
pub open spec fn constraint_text(spec: ParamSpec) -> Seq<char> {
    match spec.constraint {
        Some(table) => "  constraint={"@ + text::joined(
            table_parts(tomlvalue::entries_view(table@)),
            ", "@,
        ) + "}"@,
        None => ""@,
    }
}

/// A parameter as a plan shows it.
pub open spec fn param_line(name: Seq<char>, spec: ParamSpec) -> Seq<char> {
    "      "@ + name + "  type="@ + spec.param_type.word() + "  default="@ + tomlvalue::shown(
        spec.default@,
    ) + constraint_text(spec) + match spec.editable_by {
        Some(by) => "  editable_by="@ + by.word(),
        None => ""@,
    } + "\n"@
}

/// The first `n` parameters of a unit, one line each.
pub open spec fn param_lines(params: Seq<(String, ParamSpec)>, n: nat) -> Seq<char> {
    text::each(n, |i: int| param_line(params[i].0@, params[i].1))
}

/// A new unit as a plan shows it. Adapters always show the block of their
/// entities (an empty one is telling); other binding units only when it is
/// not empty.
pub open spec fn unit_text(h: House, u: LoadedUnit) -> Seq<char> {
    let bound = bound_by(h, u.manifest.unit.name@, h.entities@.len());
    "+ "@ + u.manifest.unit.kind.word() + " "@ + u.manifest.unit.name@ + " ("@ + u.path@ + ")\n"@ + (
    "    command: "@ + u.manifest.runtime.command@ + "\n"@) + (if u.manifest.unit.kind
        == UnitKind::Adapter || bound.len() > 0 {
        "    entities ("@ + count(bound.len()) + "):\n"@ + bound_lines(bound, bound.len())
    } else {
        Seq::empty()
    }) + match u.manifest.params {
        Some(params) => "    params:\n"@ + param_lines(params@, params@.len()),
        None => Seq::empty(),
    }
}

fn entities_of<'a>(house: &'a House, unit: &str) -> (r: Vec<&'a LoadedEntity>)
    ensures
        refs(r@) == bound_by(*house, unit@, house.entities@.len()),
{
    let mut out: Vec<&'a LoadedEntity> = Vec::new();
    for i in 0..house.entities.len()
        invariant
            refs(out@) == bound_by(*house, unit@, i as nat),
    {
        let e = &house.entities[i];
        if str_eq(e.owner.as_str(), unit) {
            let ghost before = out@;
            out.push(e);
            assert(refs(out@) =~= refs(before) + seq![*e]);
        }
    }
    out
}

/// What the references lead to.
pub open spec fn refs<T>(v: Seq<&T>) -> Seq<T> {
    Seq::new(v.len(), |i: int| *v[i])
}

fn render_bound(bound: &Vec<&LoadedEntity>, out: &mut String)
    ensures
        final(out)@ == old(out)@ + bound_lines(refs(bound@), bound@.len()),
{
    let ghost all = refs(bound@);
    let mut names: Vec<String> = Vec::new();
    let mut caps: Vec<String> = Vec::new();
    let mut rooms: Vec<String> = Vec::new();
    for i in 0..bound.len()
        invariant
            all == refs(bound@),
            names@.len() == i,
            caps@.len() == i,
            rooms@.len() == i,
            forall|k: int| 0 <= k < i ==> (#[trigger] names@[k])@ == all[k].name@,
            forall|k: int| 0 <= k < i ==> (#[trigger] caps@[k])@ == all[k].file.entity.capability@,
            forall|k: int|
                0 <= k < i ==> (#[trigger] rooms@[k])@ == "room="@ + all[k].file.entity.room@,
    {
        let e = bound[i];
        assert(all[i as int] == *e);
        names.push(e.name.clone());
        caps.push(e.file.entity.capability.clone());
        rooms.push(cat2("room=", e.file.entity.room.as_str()));
    }
    let ghost ns = Seq::new(all.len(), |i: int| all[i].name@);
    let ghost cs = Seq::new(all.len(), |i: int| all[i].file.entity.capability@);
    let ghost rs = Seq::new(all.len(), |i: int| "room="@ + all[i].file.entity.room@);
    assert(text::views(names@) =~= ns);
    assert(text::views(caps@) =~= cs);
    assert(text::views(rooms@) =~= rs);
    let name_w = widest_of(&names);
    let cap_w = widest_of(&caps);
    let room_w = widest_of(&rooms);
    let ghost start = out@;
    for i in 0..bound.len()
        invariant
            all == refs(bound@),
            ns == Seq::new(all.len(), |i: int| all[i].name@),
            cs == Seq::new(all.len(), |i: int| all[i].file.entity.capability@),
            rs == Seq::new(all.len(), |i: int| "room="@ + all[i].file.entity.room@),
            text::views(names@) == ns,
            text::views(caps@) == cs,
            text::views(rooms@) == rs,
            name_w == widest(ns, ns.len()),
            cap_w == widest(cs, cs.len()),
            room_w == widest(rs, rs.len()),
            out@ == start + bound_lines(all, i as nat),
    {
        let e = bound[i];
        assert(all[i as int] == *e);
        assert(text::views(names@)[i as int] == names@[i as int]@);
        assert(text::views(caps@)[i as int] == caps@[i as int]@);
        assert(text::views(rooms@)[i as int] == rooms@[i as int]@);
        let name = pad(names[i].as_str(), name_w);
        let cap = pad(caps[i].as_str(), cap_w);
        let room = pad(rooms[i].as_str(), room_w);
        let mode = e.file.write_policy.mode();
        let line = cat9(
            "      ",
            name.as_str(),
            "  ",
            cap.as_str(),
            "  ",
            room.as_str(),
            "  write=",
            mode.as_str(),
            "\n",
        );
        out.append(line.as_str());
    }
}

fn render_param(name: &String, spec: &ParamSpec, out: &mut String)
    ensures
        final(out)@ == old(out)@ + param_line(name@, *spec),
{
    let default = display_value(&spec.default);
    let constraint = match &spec.constraint {
        Some(table) => {
            let parts = table_text(table);
            cat3("  constraint={", parts.as_str(), "}")
        },
        None => "".to_owned(),
    };
    let editable = match &spec.editable_by {
        Some(by) => cat2("  editable_by=", by.as_str()),
        None => "".to_owned(),
    };
    let line = cat9(
        "      ",
        name.as_str(),
        "  type=",
        spec.param_type.as_str(),
        "  default=",
        default.as_str(),
        constraint.as_str(),
        editable.as_str(),
        "\n",
    );
    out.append(line.as_str());
}

/// Four pieces, one after the other, behind a beginning.
proof fn lemma_four_pieces(
    start: Seq<char>,
    a: Seq<char>,
    b: Seq<char>,
    c: Seq<char>,
    d: Seq<char>,
)
    ensures
        start + a + b + c + d == start + (a + b + c + d),
{
    assert(start + a + b + c + d =~= start + (a + b + c + d));
}

#[verifier::rlimit(40)]
fn render_unit(house: &House, unit: &LoadedUnit, out: &mut String)
    ensures
        final(out)@ == old(out)@ + unit_text(*house, *unit),
{
    let ghost start = out@;
    let name = unit.manifest.unit.name.as_str();
    let head = text::cat7(
        "+ ",
        unit.manifest.unit.kind.as_str(),
        " ",
        name,
        " (",
        unit.path.as_str(),
        ")\n",
    );
    out.append(head.as_str());
    let command = cat3("    command: ", unit.manifest.runtime.command.as_str(), "\n");
    out.append(command.as_str());
    let ghost top = out@;
    let bound = entities_of(house, name);
    let ghost all = bound_by(*house, name@, house.entities@.len());
    let ghost listed = if unit.manifest.unit.kind == UnitKind::Adapter || all.len() > 0 {
        "    entities ("@ + count(all.len()) + "):\n"@ + bound_lines(all, all.len())
    } else {
        Seq::empty()
    };
    if unit.manifest.unit.kind == UnitKind::Adapter || bound.len() > 0 {
        let number = count_of(bound.len());
        let line = cat3("    entities (", number.as_str(), "):\n");
        out.append(line.as_str());
        render_bound(&bound, out);
    }
    assert(out@ =~= top + listed);
    let ghost middle = out@;
    let ghost declared = match &unit.manifest.params {
        Some(params) => "    params:\n"@ + param_lines(params@, params@.len()),
        None => Seq::empty(),
    };
    if let Some(params) = &unit.manifest.params {
        out.append("    params:\n");
        let ghost before = out@;
        let n = params.len();
        for i in 0..n
            invariant
                n == params@.len(),
                out@ == before + param_lines(params@, i as nat),
        {
            render_param(params.name(i), params.value(i), out);
        }
    }
    assert(out@ =~= middle + declared);
    proof {
        lemma_four_pieces(start, head@, command@, listed, declared);
    }
}

/// The first `n` expressions of a key, one line each.
pub open spec fn expr_lines(k: ExpandedView, n: nat) -> Seq<char> {
    text::each(n, |i: int| "    -> "@ + keyspace::key_text(k.exprs[i]) + "\n"@)
}

/// An expanded key as a plan shows it: with its expressions, unless there is
/// one and it is the source itself.
pub open spec fn expanded_text(k: ExpandedView) -> Seq<char> {
    "  "@ + k.unit + " "@ + k.direction.word() + " "@ + k.entry + ": "@ + k.source + match k.zone {
        Some(zone) => " (zone "@ + zone + ")"@,
        None => ""@,
    } + "\n"@ + if k.exprs.len() == 1 && keyspace::key_text(k.exprs[0]) == k.source {
        Seq::empty()
    } else {
        expr_lines(k, k.exprs.len())
    }
}

fn render_expanded(key: &ExpandedKey, out: &mut String)
    ensures
        final(out)@ == old(out)@ + expanded_text(key@),
{
    let zone = match &key.zone {
        Some(zone) => cat3(" (zone ", zone.as_str(), ")"),
        None => "".to_owned(),
    };
    let line = text::cat10(
        "  ",
        key.unit.as_str(),
        " ",
        key.direction.verb(),
        " ",
        key.entry.as_str(),
        ": ",
        key.source.as_str(),
        zone.as_str(),
        "\n",
    );
    out.append(line.as_str());
    let unchanged = if key.exprs.len() == 1 {
        assert(key@.exprs[0] == key.exprs@[0]@);
        let written = key.exprs[0].to_string();
        str_eq(written.as_str(), key.source.as_str())
    } else {
        false
    };
    if !unchanged {
        let ghost start = out@;
        for i in 0..key.exprs.len()
            invariant
                out@ == start + expr_lines(key@, i as nat),
        {
            assert(key@.exprs[i as int] == key.exprs@[i as int]@);
            let written = key.exprs[i].to_string();
            let line = cat3("    -> ", written.as_str(), "\n");
            out.append(line.as_str());
        }
    }
}

/// A unit, ranked by its kind and name.
pub struct UnitRef<'a> {
    pub unit: &'a LoadedUnit,
}

impl<'a> View for UnitRef<'a> {
    type V = LoadedUnit;

    open spec fn view(&self) -> LoadedUnit {
        *self.unit
    }
}

impl<'a> Ranked for UnitRef<'a> {
    open spec fn goes_before(a: LoadedUnit, b: LoadedUnit) -> bool {
        let (x, y) = (rank_of(a.manifest.unit.kind), rank_of(b.manifest.unit.kind));
        x < y || x == y && text::lex_lt(a.manifest.unit.name@, b.manifest.unit.name@)
    }

    proof fn lemma_order(a: LoadedUnit, b: LoadedUnit, c: LoadedUnit) {
        <String as Ranked>::lemma_order(
            a.manifest.unit.name@,
            b.manifest.unit.name@,
            c.manifest.unit.name@,
        );
    }

    fn before(&self, other: &UnitRef<'a>) -> (r: bool) {
        let x = kind_order(self.unit.manifest.unit.kind);
        let y = kind_order(other.unit.manifest.unit.kind);
        x < y || (x == y && self.unit.manifest.unit.name.before(&other.unit.manifest.unit.name))
    }
}

/// The units of a house by kind and name.
pub open spec fn ranked_units(h: House) -> Seq<LoadedUnit> {
    order::sorted::<UnitRef<'static>>(h.units@)
}

/// The units to create, among the first `n` by kind and name.
pub open spec fn created_units(h: House, d: DiffView, n: nat) -> Seq<LoadedUnit> {
    text::each(
        n,
        |i: int|
            text::only_if(
                d.creates.contains(ranked_units(h)[i].manifest.unit.name@),
                ranked_units(h)[i],
            ),
    )
}

/// The units that restart on a changed manifest, among the first `n`
/// restarts.
pub open spec fn rekeyed_units(h: House, d: DiffView, n: nat) -> Seq<LoadedUnit> {
    text::each(
        n,
        |i: int|
            match repo::unit_named(h.units@, d.restarts[i].name) {
                Some(u) => text::only_if(d.restarts[i].manifest_changed, u),
                None => Seq::empty(),
            },
    )
}

/// Where the world was read from.
pub open spec fn world_line(world: World) -> Seq<char> {
    if world.live {
        "  world: "@ + world.label@ + " ("@ + count(world.units@.len()) + " unit"@ + if world.units@.len()
            != 1 {
            "s"@
        } else {
            ""@
        } + match world.applied_commit {
            Some(commit) => ", applied commit "@ + commit@,
            None => ""@,
        } + ")\n"@
    } else {
        "  world: "@ + world.label@ + "\n"@
    }
}

/// The head of a plan.
pub open spec fn head_text(repo_label: Seq<char>, world: World) -> Seq<char> {
    "Homeostat plan\n"@ + ("  repo:  "@ + repo_label + "\n"@) + world_line(world) + "\n"@
}

/// The first `n` new units.
pub open spec fn unit_texts(h: House, units: Seq<LoadedUnit>, n: nat) -> Seq<char> {
    text::each(n, |i: int| unit_text(h, units[i]))
}

/// The section on new units.
pub open spec fn creates_text(h: House, created: Seq<LoadedUnit>) -> Seq<char> {
    if created.len() > 0 {
        "Units to create ("@ + count(created.len()) + "):\n\n"@ + unit_texts(
            h,
            created,
            created.len(),
        )
    } else {
        Seq::empty()
    }
}

/// The first `n` units to destroy, one line each.
pub open spec fn destroy_lines(world: World, d: DiffView, n: nat) -> Seq<char> {
    text::each(
        n,
        |i: int|
            "- "@ + match names::lookup(world.units@, d.destroys[i]) {
                Some(unit) => match kind_in(unit.manifest@) {
                    Some(kind) => kind,
                    None => "unit"@,
                },
                None => "unit"@,
            } + " "@ + d.destroys[i] + "\n"@,
    )
}

/// The section on units to destroy.
pub open spec fn destroys_text(world: World, d: DiffView) -> Seq<char> {
    if d.destroys.len() > 0 {
        "\nUnits to destroy ("@ + count(d.destroys.len()) + "):\n\n"@ + destroy_lines(
            world,
            d,
            d.destroys.len(),
        )
    } else {
        Seq::empty()
    }
}

/// The first `n` restarts.
pub open spec fn restart_lines(h: House, d: DiffView, n: nat) -> Seq<char> {
    text::each(
        n,
        |i: int|
            match repo::unit_named(h.units@, d.restarts[i].name) {
                Some(u) => "~ "@ + u.manifest.unit.kind.word() + " "@ + d.restarts[i].name + " ("@
                    + u.path@ + ")\n    reason: "@ + d.restarts[i].reason + "\n"@,
                None => Seq::empty(),
            },
    )
}

/// The section on restarts.
pub open spec fn restarts_text(h: House, d: DiffView) -> Seq<char> {
    if d.restarts.len() > 0 {
        "\nUnits to restart ("@ + count(d.restarts.len()) + "):\n\n"@ + restart_lines(
            h,
            d,
            d.restarts.len(),
        )
    } else {
        Seq::empty()
    }
}

/// The first `n` parameter changes, one line each.
pub open spec fn change_lines(d: DiffView, n: nat) -> Seq<char> {
    text::each(
        n,
        |i: int|
            "  ~ "@ + d.params[i].unit + "/"@ + d.params[i].param + "  live="@ + json::json_text(
                d.params[i].live,
            ) + "  repo="@ + json::json_text(d.params[i].repo) + "\n"@,
    )
}

/// The section on parameter changes.
pub open spec fn params_text(d: DiffView) -> Seq<char> {
    if d.params.len() > 0 {
        "\nParameter changes ("@ + count(d.params.len()) + "):\n\n"@ + change_lines(
            d,
            d.params.len(),
        )
    } else {
        Seq::empty()
    }
}

/// The first `n` changes of a refresh, one line each.
pub open spec fn refresh_lines(r: RefreshView, n: nat) -> Seq<char> {
    text::each(n, |i: int| "      "@ + r.changes[i] + "\n"@)
}

/// A refresh as a plan shows it.
pub open spec fn refresh_text(h: House, r: RefreshView) -> Seq<char> {
    match repo::unit_named(h.units@, r.name) {
        Some(u) => "  ~ "@ + r.name + " ("@ + u.path@ + ")\n"@ + refresh_lines(r, r.changes.len()),
        None => Seq::empty(),
    }
}

/// The first `n` refreshes.
pub open spec fn refresh_texts(h: House, d: DiffView, n: nat) -> Seq<char> {
    text::each(n, |i: int| refresh_text(h, d.refreshes[i]))
}

/// The section on manifest refreshes.
pub open spec fn refreshes_text(h: House, d: DiffView) -> Seq<char> {
    if d.refreshes.len() > 0 {
        "\nManifest refreshes ("@ + count(d.refreshes.len()) + "):\n\n"@ + refresh_texts(
            h,
            d,
            d.refreshes.len(),
        )
    } else {
        Seq::empty()
    }
}

/// The keys of one unit, among the first `n`.
pub open spec fn key_texts(keys: Seq<ExpandedView>, unit: Seq<char>, n: nat) -> Seq<char> {
    text::each(
        n,
        |i: int|
            if keys[i].unit == unit {
                expanded_text(keys[i])
            } else {
                Seq::empty()
            },
    )
}

/// The keys of the first `n` of some units.
pub open spec fn unit_key_texts(keys: Seq<ExpandedView>, units: Seq<LoadedUnit>, n: nat) -> Seq<
    char,
> {
    text::each(n, |i: int| key_texts(keys, units[i].manifest.unit.name@, keys.len()))
}

/// The section on keys: new units and units restarting on a manifest change
/// may both bring new key surface, and an approval prompt must show it.
pub open spec fn keys_text(keys: Seq<ExpandedView>, units: Seq<LoadedUnit>) -> Seq<char> {
    if units.len() > 0 {
        "\nExpanded keys:\n\n"@ + unit_key_texts(keys, units, units.len())
    } else {
        Seq::empty()
    }
}

/// The first `n` grants behind the same prefix.
pub open spec fn grant_texts(table: Seq<GrantView>, prefix: Seq<char>, n: nat) -> Seq<char> {
    text::each(n, |i: int| grant_text(table[i], prefix))
}

/// The first `n` dropped grants.
pub open spec fn dropped_texts(table: Seq<GrantView>, n: nat) -> Seq<char> {
    text::each(n, |i: int| dropped_grant_text(table[i]))
}

/// The section on grants: what changes against a live world, else the whole
/// table.
pub open spec fn grants_text(table: Seq<GrantView>, d: DiffView, live: bool) -> Seq<char> {
    if live {
        if d.grant_adds.len() > 0 || d.grant_removes.len() > 0 {
            "\nGrant changes:\n\n"@ + grant_texts(d.grant_adds, "  + "@, d.grant_adds.len())
                + dropped_texts(d.grant_removes, d.grant_removes.len())
        } else {
            Seq::empty()
        }
    } else {
        "\nGrant table:\n\n"@ + if table.len() == 0 {
            "  (none)\n"@
        } else {
            Seq::empty()
        } + grant_texts(table, "  "@, table.len())
    }
}

/// The first `n` feeds, one line each.
pub open spec fn feed_lines(feeds: Seq<grants::FeedView>, n: nat) -> Seq<char> {
    text::each(
        n,
        |i: int|
            "  "@ + feeds[i].entity + "."@ + feeds[i].input + "  <-  "@ + feeds[i].source_entity
                + "."@ + feeds[i].source_aspect + ("  ("@ + feeds[i].key + ", owner="@
                + feeds[i].source_owner + ")\n"@),
    )
}

/// The section on feeds, where the house wires any.
pub open spec fn feeds_text(feeds: Seq<grants::FeedView>) -> Seq<char> {
    if feeds.len() > 0 {
        "\nFeeds:\n\n"@ + feed_lines(feeds, feeds.len())
    } else {
        Seq::empty()
    }
}

/// The first `n` warnings, one line each.
pub open spec fn warning_lines(warnings: Seq<Seq<char>>, n: nat) -> Seq<char> {
    text::each(n, |i: int| "  "@ + warnings[i] + "\n"@)
}

/// The section on warnings.
pub open spec fn warnings_text(warnings: Seq<Seq<char>>) -> Seq<char> {
    if warnings.len() > 0 {
        "\nWarnings:\n\n"@ + warning_lines(warnings, warnings.len())
    } else {
        Seq::empty()
    }
}

/// The last line of a plan.
pub open spec fn foot_text(d: DiffView) -> Seq<char> {
    if no_change(d) {
        "\nNo changes. The world matches the repo.\n"@
    } else {
        "\nPlan tier: "@ + tier_of(d).word() + " ("@ + text::joined(summary_parts(d), ", "@)
            + ")\n"@
    }
}

/// The full plan text.
pub open spec fn plan_text(
    check: CheckResult,
    d: DiffView,
    repo_label: Seq<char>,
    world: World,
) -> Seq<char> {
    let h = check.house;
    let created = created_units(h, d, ranked_units(h).len());
    let with_keys = created + rekeyed_units(h, d, d.restarts.len());
    head_text(repo_label, world) + creates_text(h, created) + destroys_text(world, d)
        + restarts_text(h, d) + params_text(d) + refreshes_text(h, d) + keys_text(
        text::views(check.expanded@),
        with_keys,
    ) + grants_text(text::views(check.grants@), d, world.live) + feeds_text(
        text::views(check.feeds@),
    ) + warnings_text(text::views(check.warnings@)) + foot_text(d)
}

fn render_head(repo_label: &str, world: &World, out: &mut String)
    ensures
        final(out)@ == old(out)@ + head_text(repo_label@, *world),
{
    let ghost start = out@;
    out.append("Homeostat plan\n");
    let line = cat3("  repo:  ", repo_label, "\n");
    out.append(line.as_str());
    if world.live {
        let number = count_of(world.units.len());
        let plural = if world.units.len() != 1 {
            "s"
        } else {
            ""
        };
        let commit = match &world.applied_commit {
            Some(commit) => cat2(", applied commit ", commit.as_str()),
            None => "".to_owned(),
        };
        let line = cat8(
            "  world: ",
            world.label.as_str(),
            " (",
            number.as_str(),
            " unit",
            plural,
            commit.as_str(),
            ")\n",
        );
        out.append(line.as_str());
    } else {
        let line = cat3("  world: ", world.label.as_str(), "\n");
        out.append(line.as_str());
    }
    out.append("\n");
    assert(out@ =~= start + head_text(repo_label@, *world));
}

fn rank_units<'a>(house: &'a House) -> (r: Vec<UnitRef<'a>>)
    ensures
        text::views(r@) == ranked_units(*house),
{
    let mut out: Vec<UnitRef<'a>> = Vec::new();
    for i in 0..house.units.len()
        invariant
            out@.len() == i,
            forall|k: int| 0 <= k < i ==> (#[trigger] out@[k])@ == house.units@[k],
    {
        out.push(UnitRef { unit: &house.units[i] });
    }
    assert(text::views(out@) =~= house.units@);
    order::sort(out)
}

fn units_created<'a>(house: &'a House, diff: &Diff) -> (r: Vec<&'a LoadedUnit>)
    ensures
        refs(r@) == created_units(*house, diff@, ranked_units(*house).len()),
{
    let all = rank_units(house);
    let mut out: Vec<&'a LoadedUnit> = Vec::new();
    for i in 0..all.len()
        invariant
            text::views(all@) == ranked_units(*house),
            refs(out@) == created_units(*house, diff@, i as nat),
    {
        assert(text::views(all@)[i as int] == all@[i as int]@);
        let unit = all[i].unit;
        if text::has(&diff.creates, unit.manifest.unit.name.as_str()) {
            let ghost before = out@;
            out.push(unit);
            assert(refs(out@) =~= refs(before) + seq![*unit]);
        }
    }
    out
}

fn render_creates(house: &House, created: &Vec<&LoadedUnit>, out: &mut String)
    ensures
        final(out)@ == old(out)@ + creates_text(*house, refs(created@)),
{
    if created.len() > 0 {
        let ghost start = out@;
        let ghost all = refs(created@);
        let number = count_of(created.len());
        let line = cat3("Units to create (", number.as_str(), "):\n\n");
        out.append(line.as_str());
        let ghost before = out@;
        for i in 0..created.len()
            invariant
                all == refs(created@),
                out@ == before + unit_texts(*house, all, i as nat),
        {
            assert(all[i as int] == *created@[i as int]);
            render_unit(house, created[i], out);
        }
        assert(out@ =~= start + creates_text(*house, all));
    }
}

fn render_destroys(world: &World, diff: &Diff, out: &mut String)
    ensures
        final(out)@ == old(out)@ + destroys_text(*world, diff@),
{
    if diff.destroys.len() > 0 {
        let ghost start = out@;
        let number = count_of(diff.destroys.len());
        let line = cat3("\nUnits to destroy (", number.as_str(), "):\n\n");
        out.append(line.as_str());
        let ghost before = out@;
        for i in 0..diff.destroys.len()
            invariant
                out@ == before + destroy_lines(*world, diff@, i as nat),
        {
            assert(diff@.destroys[i as int] == diff.destroys@[i as int]@);
            let name = diff.destroys[i].as_str();
            let kind = match world.units.get(name) {
                Some(unit) => match world_kind(unit) {
                    Some(kind) => kind,
                    None => "unit".to_owned(),
                },
                None => "unit".to_owned(),
            };
            let line = cat5("- ", kind.as_str(), " ", name, "\n");
            out.append(line.as_str());
        }
        assert(out@ =~= start + destroys_text(*world, diff@));
    }
}

fn render_restarts(house: &House, diff: &Diff, out: &mut String)
    ensures
        final(out)@ == old(out)@ + restarts_text(*house, diff@),
{
    if diff.restarts.len() > 0 {
        let ghost start = out@;
        let number = count_of(diff.restarts.len());
        let line = cat3("\nUnits to restart (", number.as_str(), "):\n\n");
        out.append(line.as_str());
        let ghost before = out@;
        for i in 0..diff.restarts.len()
            invariant
                out@ == before + restart_lines(*house, diff@, i as nat),
        {
            let restart = &diff.restarts[i];
            assert(diff@.restarts[i as int] == restart@);
            if let Some(unit) = house.unit(restart.name.as_str()) {
                let line = cat9(
                    "~ ",
                    unit.manifest.unit.kind.as_str(),
                    " ",
                    restart.name.as_str(),
                    " (",
                    unit.path.as_str(),
                    ")\n    reason: ",
                    restart.reason.as_str(),
                    "\n",
                );
                out.append(line.as_str());
            }
        }
        assert(out@ =~= start + restarts_text(*house, diff@));
    }
}

fn render_params(diff: &Diff, out: &mut String)
    ensures
        final(out)@ == old(out)@ + params_text(diff@),
{
    if diff.params.len() > 0 {
        let ghost start = out@;
        let number = count_of(diff.params.len());
        let line = cat3("\nParameter changes (", number.as_str(), "):\n\n");
        out.append(line.as_str());
        let ghost before = out@;
        for i in 0..diff.params.len()
            invariant
                out@ == before + change_lines(diff@, i as nat),
        {
            let change = &diff.params[i];
            assert(diff@.params[i as int] == change@);
            let live = change.live.to_string();
            let repo = change.repo.to_string();
            let line = cat9(
                "  ~ ",
                change.unit.as_str(),
                "/",
                change.param.as_str(),
                "  live=",
                live.as_str(),
                "  repo=",
                repo.as_str(),
                "\n",
            );
            out.append(line.as_str());
        }
        assert(out@ =~= start + params_text(diff@));
    }
}

fn render_refresh(house: &House, refresh: &Refresh, out: &mut String)
    ensures
        final(out)@ == old(out)@ + refresh_text(*house, refresh@),
{
    if let Some(unit) = house.unit(refresh.name.as_str()) {
        let ghost start = out@;
        let line = cat5("  ~ ", refresh.name.as_str(), " (", unit.path.as_str(), ")\n");
        out.append(line.as_str());
        let ghost before = out@;
        for i in 0..refresh.changes.len()
            invariant
                out@ == before + refresh_lines(refresh@, i as nat),
        {
            assert(refresh@.changes[i as int] == refresh.changes@[i as int]@);
            let line = cat3("      ", refresh.changes[i].as_str(), "\n");
            out.append(line.as_str());
        }
        assert(out@ =~= start + refresh_text(*house, refresh@));
    }
}

fn render_refreshes(house: &House, diff: &Diff, out: &mut String)
    ensures
        final(out)@ == old(out)@ + refreshes_text(*house, diff@),
{
    if diff.refreshes.len() > 0 {
        let ghost start = out@;
        let number = count_of(diff.refreshes.len());
        let line = cat3("\nManifest refreshes (", number.as_str(), "):\n\n");
        out.append(line.as_str());
        let ghost before = out@;
        for i in 0..diff.refreshes.len()
            invariant
                out@ == before + refresh_texts(*house, diff@, i as nat),
        {
            assert(diff@.refreshes[i as int] == diff.refreshes@[i as int]@);
            render_refresh(house, &diff.refreshes[i], out);
        }
        assert(out@ =~= start + refreshes_text(*house, diff@));
    }
}

fn units_rekeyed<'a>(house: &'a House, diff: &Diff) -> (r: Vec<&'a LoadedUnit>)
    ensures
        refs(r@) == rekeyed_units(*house, diff@, diff@.restarts.len()),
{
    let mut out: Vec<&'a LoadedUnit> = Vec::new();
    for i in 0..diff.restarts.len()
        invariant
            refs(out@) == rekeyed_units(*house, diff@, i as nat),
    {
        let restart = &diff.restarts[i];
        assert(diff@.restarts[i as int] == restart@);
        if restart.manifest_changed {
            if let Some(unit) = house.unit(restart.name.as_str()) {
                let ghost before = out@;
                out.push(unit);
                assert(refs(out@) =~= refs(before) + seq![*unit]);
            }
        }
    }
    out
}

fn render_unit_keys(expanded: &Vec<ExpandedKey>, unit: &str, out: &mut String)
    ensures
        final(out)@ == old(out)@ + key_texts(
            text::views(expanded@),
            unit@,
            expanded@.len(),
        ),
{
    let ghost keys = text::views(expanded@);
    let ghost start = out@;
    for i in 0..expanded.len()
        invariant
            keys == text::views(expanded@),
            out@ == start + key_texts(keys, unit@, i as nat),
    {
        assert(keys[i as int] == expanded@[i as int]@);
        if str_eq(expanded[i].unit.as_str(), unit) {
            render_expanded(&expanded[i], out);
        }
    }
}

fn render_keys(expanded: &Vec<ExpandedKey>, units: &Vec<&LoadedUnit>, out: &mut String)
    ensures
        final(out)@ == old(out)@ + keys_text(text::views(expanded@), refs(units@)),
{
    if units.len() > 0 {
        let ghost start = out@;
        let ghost keys = text::views(expanded@);
        let ghost all = refs(units@);
        out.append("\nExpanded keys:\n\n");
        let ghost before = out@;
        for i in 0..units.len()
            invariant
                keys == text::views(expanded@),
                all == refs(units@),
                out@ == before + unit_key_texts(keys, all, i as nat),
        {
            assert(all[i as int] == *units@[i as int]);
            render_unit_keys(expanded, units[i].manifest.unit.name.as_str(), out);
        }
        assert(out@ =~= start + keys_text(keys, all));
    }
}

fn render_grants(table: &Vec<Grant>, prefix: &str, out: &mut String)
    ensures
        final(out)@ == old(out)@ + grant_texts(text::views(table@), prefix@, table@.len()),
{
    let ghost gs = text::views(table@);
    let ghost start = out@;
    for i in 0..table.len()
        invariant
            gs == text::views(table@),
            out@ == start + grant_texts(gs, prefix@, i as nat),
    {
        assert(gs[i as int] == table@[i as int]@);
        render_grant(&table[i], prefix, out);
    }
}

fn render_grant_section(table: &Vec<Grant>, diff: &Diff, live: bool, out: &mut String)
    ensures
        final(out)@ == old(out)@ + grants_text(text::views(table@), diff@, live),
{
    let ghost start = out@;
    if live {
        if diff.grant_adds.len() > 0 || diff.grant_removes.len() > 0 {
            out.append("\nGrant changes:\n\n");
            render_grants(&diff.grant_adds, "  + ", out);
            let ghost before = out@;
            for i in 0..diff.grant_removes.len()
                invariant
                    out@ == before + dropped_texts(diff@.grant_removes, i as nat),
            {
                assert(diff@.grant_removes[i as int] == diff.grant_removes@[i as int]@);
                render_dropped_grant(&diff.grant_removes[i], out);
            }
        }
    } else {
        out.append("\nGrant table:\n\n");
        if table.len() == 0 {
            out.append("  (none)\n");
        }
        render_grants(table, "  ", out);
    }
    assert(out@ =~= start + grants_text(text::views(table@), diff@, live));
}

fn render_feeds(feeds: &Vec<grants::Feed>, out: &mut String)
    ensures
        final(out)@ == old(out)@ + feeds_text(text::views(feeds@)),
{
    if feeds.len() > 0 {
        let ghost start = out@;
        let ghost fs = text::views(feeds@);
        out.append("\nFeeds:\n\n");
        let ghost before = out@;
        for i in 0..feeds.len()
            invariant
                fs == text::views(feeds@),
                out@ == before + feed_lines(fs, i as nat),
        {
            let feed = &feeds[i];
            assert(fs[i as int] == feed@);
            let ends = cat8(
                "  ",
                feed.entity.as_str(),
                ".",
                feed.input.as_str(),
                "  <-  ",
                feed.source_entity.as_str(),
                ".",
                feed.source_aspect.as_str(),
            );
            let origin = cat5(
                "  (",
                feed.key.as_str(),
                ", owner=",
                feed.source_owner.as_str(),
                ")\n",
            );
            out.append(ends.as_str());
            out.append(origin.as_str());
            assert(out@ =~= before + feed_lines(fs, i as nat) + (ends@ + origin@));
        }
        assert(out@ =~= start + feeds_text(fs));
    }
}

fn render_warnings(warnings: &Vec<String>, out: &mut String)
    ensures
        final(out)@ == old(out)@ + warnings_text(text::views(warnings@)),
{
    if warnings.len() > 0 {
        let ghost start = out@;
        let ghost ws = text::views(warnings@);
        out.append("\nWarnings:\n\n");
        let ghost before = out@;
        for i in 0..warnings.len()
            invariant
                ws == text::views(warnings@),
                out@ == before + warning_lines(ws, i as nat),
        {
            assert(ws[i as int] == warnings@[i as int]@);
            let line = cat3("  ", warnings[i].as_str(), "\n");
            out.append(line.as_str());
        }
        assert(out@ =~= start + warnings_text(ws));
    }
}

fn render_foot(diff: &Diff, out: &mut String)
    ensures
        final(out)@ == old(out)@ + foot_text(diff@),
{
    if diff.is_empty() {
        out.append("\nNo changes. The world matches the repo.\n");
    } else {
        let tier = derive_tier(diff);
        let summary = summarize(diff);
        let line = cat5("\nPlan tier: ", tier.as_str(), " (", summary.as_str(), ")\n");
        out.append(line.as_str());
    }
}

/// Renders the full plan text. `repo` holds, for each unit of the house, what
/// the repo has of it. Only call on an error-free check result.
pub fn render(check: &CheckResult, repo: &Vec<RepoUnit>, repo_label: &str, world: &World) -> (r:
    String)
    requires
        repo@.len() == check.house.units@.len(),
    ensures
        r@ == plan_text(
            *check,
            diff_of(check.house, text::views(check.grants@), repo@, *world),
            repo_label@,
            *world,
        ),
{
    let diff = diff(check, repo, world);
    let mut out = String::new();
    let house = &check.house;
    render_head(repo_label, world, &mut out);
    let created = units_created(house, &diff);
    render_creates(house, &created, &mut out);
    render_destroys(world, &diff, &mut out);
    render_restarts(house, &diff, &mut out);
    render_params(&diff, &mut out);
    render_refreshes(house, &diff, &mut out);
    let ghost first = refs(created@);
    let mut with_keys = created;
    let mut rekeyed = units_rekeyed(house, &diff);
    let ghost second = refs(rekeyed@);
    with_keys.append(&mut rekeyed);
    assert(refs(with_keys@) =~= first + second);
    render_keys(&check.expanded, &with_keys, &mut out);
    render_grant_section(&check.grants, &diff, world.live, &mut out);
    render_feeds(&check.feeds, &mut out);
    render_warnings(&check.warnings, &mut out);
    render_foot(&diff, &mut out);
    out
}

} // verus!

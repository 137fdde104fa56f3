//! The live parameter path: an in-memory last-value store for
//! `home/config/{unit}/{param}`, seeded from manifest defaults.
//!
//! Only the core ever puts on `home/config/**`. A read hands out the current
//! value; a write request is validated against the manifest's type and
//! constraint, then either stored and echoed, or refused — the old value
//! stands.

use crate::floats;
use crate::floats::Real;
use crate::json;
use crate::json::Json;
use crate::json::JsonNumber;
use crate::json::JsonView;
use crate::manifest::ParamSpec;
use crate::manifest::ParamType;
use crate::names;
use crate::names::NameMap;
use crate::names::PairMap;
use crate::repo::House;
use crate::repo::LoadedUnit;
use crate::text;
use crate::text::cat3;
use crate::text::cat4;
use crate::text::two_digits_of;
use crate::tomlvalue;
use crate::tomlvalue::TomlData;
use crate::tomlvalue::TomlValue;
use crate::validate;
use crate::validate::parse_time;
use vstd::prelude::*;

verus! {

broadcast use crate::text::group_views;

/// One live parameter.
#[derive(Debug)]
pub struct StoredParam {
    pub param_type: ParamType,
    pub constraint: Constraint,
    pub value: Json,
}

/// What a parameter's value must keep to.
#[derive(Debug)]
pub struct Constraint {
    pub min: Option<Real>,
    pub max: Option<Real>,
    /// (hour, minute) bounds; together they form a window that may span
    /// midnight (`after 20:00, before 02:00`).
    pub after: Option<(u8, u8)>,
    pub before: Option<(u8, u8)>,
    pub allowed: Option<Vec<String>>,
}

/// What a constraint says.
pub struct ConstraintView {
    pub min: Option<Seq<char>>,
    pub max: Option<Seq<char>>,
    pub after: Option<(u8, u8)>,
    pub before: Option<(u8, u8)>,
    pub allowed: Option<Seq<Seq<char>>>,
}

/// What a live parameter is.
pub struct StoredView {
    pub param_type: ParamType,
    pub constraint: ConstraintView,
    pub value: JsonView,
}

/// The text of an optional number.
pub open spec fn opt_number(r: Option<Real>) -> Option<Seq<char>> {
    match r {
        Some(x) => Some(x.text@),
        None => None,
    }
}

impl View for Constraint {
    type V = ConstraintView;

    open spec fn view(&self) -> ConstraintView {
        ConstraintView {
            min: opt_number(self.min),
            max: opt_number(self.max),
            after: self.after,
            before: self.before,
            allowed: match self.allowed {
                Some(v) => Some(text::views(v@)),
                None => None,
            },
        }
    }
}

impl View for StoredParam {
    type V = StoredView;

    open spec fn view(&self) -> StoredView {
        StoredView {
            param_type: self.param_type,
            constraint: self.constraint@,
            value: self.value@,
        }
    }
}

/// No constraint at all.
pub open spec fn unconstrained() -> ConstraintView {
    ConstraintView { min: None, max: None, after: None, before: None, allowed: None }
}

impl Default for Constraint {
    fn default() -> (r: Constraint)
        ensures
            r@ == unconstrained(),
    {
        Constraint { min: None, max: None, after: None, before: None, allowed: None }
    }
}

/// The bound a table gives under `key`, where it is a number.
pub open spec fn number_bound(table: Seq<(String, TomlValue)>, key: Seq<char>) -> Option<
    Seq<char>,
> {
    match names::lookup(table, key) {
        Some(v) => match v.data {
            TomlData::Integer(i) => Some(floats::float_of_int(i as int)),
            TomlData::Float(f) => Some(f.text@),
            _ => None,
        },
        None => None,
    }
}

/// The bound a table gives under `key`, where it is a time.
pub open spec fn time_bound(table: Seq<(String, TomlValue)>, key: Seq<char>) -> Option<(u8, u8)> {
    match names::lookup(table, key) {
        Some(v) => match v.data {
            TomlData::Str(s) => validate::time_of(s@),
            _ => None,
        },
        None => None,
    }
}

/// The strings among the first `n` items.
pub open spec fn strings_in(items: Seq<TomlValue>, n: nat) -> Seq<Seq<char>> {
    text::each(
        n,
        |i: int|
            match items[i].data {
                TomlData::Str(s) => seq![s@],
                _ => Seq::empty(),
            },
    )
}

/// The constraint that a manifest declares. Anything unusable is simply not
/// enforced.
pub open spec fn declared(spec: ParamSpec) -> ConstraintView {
    match spec.constraint {
        None => unconstrained(),
        Some(table) => ConstraintView {
            min: number_bound(table@, "min"@),
            max: number_bound(table@, "max"@),
            after: time_bound(table@, "after"@),
            before: time_bound(table@, "before"@),
            allowed: match names::lookup(table@, "enum"@) {
                Some(v) => match v.data {
                    TomlData::Array(items) => Some(strings_in(items@, items@.len())),
                    _ => None,
                },
                None => None,
            },
        },
    }
}

fn read_number(table: &NameMap<TomlValue>, key: &str) -> (r: Option<Real>)
    ensures
        opt_number(r) == number_bound(table@, key@),
{
    match table.get(key) {
        Some(v) => match &v.data {
            TomlData::Integer(i) => Some(Real::from_int(*i as i128)),
            TomlData::Float(f) => Some(f.copy()),
            _ => None,
        },
        None => None,
    }
}

fn read_time(table: &NameMap<TomlValue>, key: &str) -> (r: Option<(u8, u8)>)
    ensures
        r == time_bound(table@, key@),
{
    match table.get(key) {
        Some(v) => match &v.data {
            TomlData::Str(s) => parse_time(s.as_str()),
            _ => None,
        },
        None => None,
    }
}

fn read_strings(items: &Vec<TomlValue>) -> (r: Vec<String>)
    ensures
        text::views(r@) == strings_in(items@, items@.len()),
{
    let mut out: Vec<String> = Vec::new();
    for i in 0..items.len()
        invariant
            text::views(out@) == strings_in(items@, i as nat),
    {
        if let TomlData::Str(s) = &items[i].data {
            out.push(s.clone());
        }
    }
    out
}

impl Constraint {
    /// Builds from a manifest constraint table. The table already passed
    /// plan-time validation; anything unusable is simply not enforced.
    pub fn from_spec(spec: &ParamSpec) -> (r: Constraint)
        ensures
            r@ == declared(*spec),
    {
        let table = match &spec.constraint {
            Some(table) => table,
            None => {
                return Constraint::default();
            },
        };
        let allowed = match table.get("enum") {
            Some(v) => match &v.data {
                TomlData::Array(items) => Some(read_strings(items)),
                _ => None,
            },
            None => None,
        };
        Constraint {
            min: read_number(table, "min"),
            max: read_number(table, "max"),
            after: read_time(table, "after"),
            before: read_time(table, "before"),
            allowed,
        }
    }

    /// The same constraint once more.
    fn copy(&self) -> (r: Constraint)
        ensures
            r@ == self@,
    {
        Constraint {
            min: match &self.min {
                Some(x) => Some(x.copy()),
                None => None,
            },
            max: match &self.max {
                Some(x) => Some(x.copy()),
                None => None,
            },
            after: self.after,
            before: self.before,
            allowed: match &self.allowed {
                Some(v) => Some(copy_texts(v)),
                None => None,
            },
        }
    }
}

fn copy_texts(v: &Vec<String>) -> (r: Vec<String>)
    ensures
        text::views(r@) == text::views(v@),
{
    let mut out: Vec<String> = Vec::new();
    for i in 0..v.len()
        invariant
            out@.len() == i,
            forall|k: int| 0 <= k < i ==> (#[trigger] out@[k])@ == v@[k]@,
    {
        out.push(v[i].clone());
    }
    assert(text::views(out@) =~= text::views(v@));
    out
}

/// The value of a parameter's default.
pub open spec fn default_view(spec: ParamSpec) -> JsonView {
    match spec.default.data {
        TomlData::Boolean(b) => JsonView::Bool(b),
        TomlData::Integer(i) => JsonView::Int(i as int),
        TomlData::Float(f) => json::float_view(f.bits()),
        TomlData::Str(s) => JsonView::Str(s@),
        _ => JsonView::Str(spec.default.text@),
    }
}

/// The text of a value as a float, where it is a number.
pub open spec fn number_text(value: Json) -> Option<Seq<char>> {
    match value {
        Json::Number(JsonNumber::PosInt(u)) => Some(floats::float_of_int(u as int)),
        Json::Number(JsonNumber::NegInt(i)) => Some(floats::float_of_int(i as int)),
        Json::Number(JsonNumber::Float(f)) => if floats::finite(f.bits()) {
            Some(f.text@)
        } else {
            None
        },
        _ => None,
    }
}

/// The text of a number as a float, as std prints it.
pub open spec fn shown_number(value: JsonView) -> Option<Seq<char>> {
    match value {
        JsonView::Int(i) => Some(floats::float_of_int(i)),
        JsonView::Float(bits) => Some(floats::float_text(bits)),
        _ => None,
    }
}

/// The text of a default as a float, where it is a number.
pub open spec fn default_number(spec: ParamSpec) -> Option<Seq<char>> {
    match spec.default.data {
        TomlData::Integer(i) => Some(floats::float_of_int(i as int)),
        TomlData::Float(f) => if floats::finite(f.bits()) {
            Some(f.text@)
        } else {
            None
        },
        _ => None,
    }
}

/// The value of a parameter's default. A value that is neither a scalar nor a
/// string is taken by its text.
pub fn default_value(spec: &ParamSpec) -> (r: Json)
    ensures
        r@ == default_view(*spec),
        number_text(r) == default_number(*spec),
{
    match &spec.default.data {
        TomlData::Boolean(b) => Json::Bool(*b),
        TomlData::Integer(i) => Json::from_int(*i),
        TomlData::Float(f) => Json::Number(JsonNumber::Float(f.copy())),
        TomlData::Str(s) => Json::Str(s.clone()),
        _ => Json::Str(spec.default.text.clone()),
    }
}

/// Why a number is out of range.
pub open spec fn range_fault(n: Seq<char>, c: ConstraintView) -> Option<Seq<char>> {
    if c.min is Some && floats::float_lt(
        floats::float_bits(n),
        floats::float_bits(c.min->Some_0),
    ) {
        Some(n + " is below min "@ + c.min->Some_0)
    } else if c.max is Some && floats::float_lt(
        floats::float_bits(c.max->Some_0),
        floats::float_bits(n),
    ) {
        Some(n + " is above max "@ + c.max->Some_0)
    } else {
        None
    }
}

/// Minutes since midnight.
pub open spec fn minutes(t: (u8, u8)) -> int {
    t.0 * 60 + t.1
}

/// The time as `HH:MM`.
pub open spec fn clock(t: (u8, u8)) -> Seq<char> {
    text::two_digits(t.0 as nat) + ":"@ + text::two_digits(t.1 as nat)
}

/// Whether the time lies in the window from `a` to `b`, both inclusive; a
/// window that ends before it begins spans midnight.
pub open spec fn in_window(t: (u8, u8), a: (u8, u8), b: (u8, u8)) -> bool {
    if minutes(a) <= minutes(b) {
        minutes(a) <= minutes(t) <= minutes(b)
    } else {
        minutes(a) <= minutes(t) || minutes(t) <= minutes(b)
    }
}

/// Why a time is outside its window.
pub open spec fn window_fault(t: (u8, u8), c: ConstraintView) -> Option<Seq<char>> {
    match (c.after, c.before) {
        (Some(a), Some(b)) => if in_window(t, a, b) {
            None
        } else {
            Some(clock(t) + " is outside "@ + clock(a) + ".."@ + clock(b))
        },
        (Some(a), None) => if minutes(t) < minutes(a) {
            Some(clock(t) + " is not after "@ + clock(a))
        } else {
            None
        },
        (None, Some(b)) => if minutes(t) > minutes(b) {
            Some(clock(t) + " is not before "@ + clock(b))
        } else {
            None
        },
        (None, None) => None,
    }
}

/// Each text in double quotes.
pub open spec fn quoted(v: Seq<Seq<char>>) -> Seq<Seq<char>> {
    Seq::new(v.len(), |i: int| "\""@ + v[i] + "\""@)
}

/// Why a value may not be stored: `None` where it has the type and keeps to
/// the constraint. `number` is the value's text as a float, where it is a
/// number.
pub open spec fn fault(
    t: ParamType,
    c: ConstraintView,
    value: JsonView,
    number: Option<Seq<char>>,
) -> Option<Seq<char>> {
    let mismatch = json::json_text(value) + " does not match type \""@ + t.word() + "\""@;
    match t {
        ParamType::Bool => if value is Bool {
            None
        } else {
            Some(mismatch)
        },
        ParamType::Int => match value {
            JsonView::Int(i) => if i <= i64::MAX {
                range_fault(floats::float_of_int(i), c)
            } else {
                Some(mismatch)
            },
            _ => Some(mismatch),
        },
        ParamType::Float => match number {
            Some(n) => range_fault(n, c),
            None => Some(mismatch),
        },
        ParamType::String => match value {
            JsonView::Str(s) => match c.allowed {
                Some(allowed) => if allowed.contains(s) {
                    None
                } else {
                    Some("\""@ + s + "\" is not one of "@ + text::joined(quoted(allowed), ", "@))
                },
                None => None,
            },
            _ => Some(mismatch),
        },
        ParamType::Time => match value {
            JsonView::Str(s) => match validate::time_of(s) {
                Some(time) => window_fault(time, c),
                None => Some("\""@ + s + "\" is not a time (HH:MM)"@),
            },
            _ => Some(mismatch),
        },
    }
}

fn type_error(t: ParamType, value: &Json) -> (r: String)
    ensures
        r@ == json::json_text(value@) + " does not match type \""@ + t.word() + "\""@,
{
    let shown = value.to_string();
    cat4(shown.as_str(), " does not match type \"", t.as_str(), "\"")
}

fn check_range(n: &Real, c: &Constraint) -> (r: Result<(), String>)
    ensures
        range_fault(n.text@, c@) == match r {
            Ok(_) => None,
            Err(e) => Some(e@),
        },
{
    if let Some(min) = &c.min {
        if n.less(min) {
            return Err(cat3(n.text.as_str(), " is below min ", min.text.as_str()));
        }
    }
    if let Some(max) = &c.max {
        if max.less(n) {
            return Err(cat3(n.text.as_str(), " is above max ", max.text.as_str()));
        }
    }
    Ok(())
}

fn minutes_of(t: (u8, u8)) -> (r: u16)
    ensures
        r == minutes(t),
{
    t.0 as u16 * 60 + t.1 as u16
}

fn clock_of(t: (u8, u8)) -> (r: String)
    ensures
        r@ == clock(t),
{
    let h = two_digits_of(t.0 as u64);
    let m = two_digits_of(t.1 as u64);
    cat3(h.as_str(), ":", m.as_str())
}

/// `after`/`before` form an inclusive window that may span midnight:
/// `after 20:00, before 02:00` admits 20:00..=23:59 and 00:00..=02:00.
fn check_window(t: (u8, u8), c: &Constraint) -> (r: Result<(), String>)
    ensures
        window_fault(t, c@) == match r {
            Ok(_) => None,
            Err(e) => Some(e@),
        },
{
    let v = minutes_of(t);
    let shown = clock_of(t);
    match (c.after, c.before) {
        (Some(a), Some(b)) => {
            let inside = if minutes_of(a) <= minutes_of(b) {
                v >= minutes_of(a) && v <= minutes_of(b)
            } else {
                v >= minutes_of(a) || v <= minutes_of(b)
            };
            if inside {
                Ok(())
            } else {
                let from = clock_of(a);
                let to = clock_of(b);
                Err(
                    text::cat5(shown.as_str(), " is outside ", from.as_str(), "..", to.as_str()),
                )
            }
        },
        (Some(a), None) => if v < minutes_of(a) {
            let bound = clock_of(a);
            Err(cat3(shown.as_str(), " is not after ", bound.as_str()))
        } else {
            Ok(())
        },
        (None, Some(b)) => if v > minutes_of(b) {
            let bound = clock_of(b);
            Err(cat3(shown.as_str(), " is not before ", bound.as_str()))
        } else {
            Ok(())
        },
        (None, None) => Ok(()),
    }
}

fn quote_all(v: &Vec<String>) -> (r: Vec<String>)
    ensures
        text::views(r@) == quoted(text::views(v@)),
{
    let mut out: Vec<String> = Vec::new();
    for i in 0..v.len()
        invariant
            out@.len() == i,
            forall|k: int| 0 <= k < i ==> (#[trigger] out@[k])@ == quoted(text::views(v@))[k],
    {
        out.push(cat3("\"", v[i].as_str(), "\""));
    }
    assert(text::views(out@) =~= quoted(text::views(v@)));
    out
}

/// Whether a value has the type and keeps to the constraint.
pub fn check(param_type: ParamType, constraint: &Constraint, value: &Json) -> (r: Result<
    (),
    String,
>)
    ensures
        fault(param_type, constraint@, value@, number_text(*value)) == match r {
            Ok(_) => None,
            Err(e) => Some(e@),
        },
{
    match param_type {
        ParamType::Bool => match value.as_bool() {
            Some(_) => Ok(()),
            None => Err(type_error(param_type, value)),
        },
        ParamType::Int => match value.as_i64() {
            Some(n) => check_range(&Real::from_int(n as i128), constraint),
            None => Err(type_error(param_type, value)),
        },
        ParamType::Float => match value.as_real() {
            Some(n) => check_range(&n, constraint),
            None => Err(type_error(param_type, value)),
        },
        ParamType::String => match value.as_str() {
            Some(s) => {
                if let Some(allowed) = &constraint.allowed {
                    if !text::has(allowed, s) {
                        let list = text::join(&quote_all(allowed), ", ");
                        return Err(cat4("\"", s, "\" is not one of ", list.as_str()));
                    }
                }
                Ok(())
            },
            None => Err(type_error(param_type, value)),
        },
        ParamType::Time => match value.as_str() {
            Some(s) => match parse_time(s) {
                Some(t) => check_window(t, constraint),
                None => Err(cat3("\"", s, "\" is not a time (HH:MM)")),
            },
            None => Err(type_error(param_type, value)),
        },
    }
}

/// Why a default breaks its own constraint.
pub open spec fn default_fault(spec: ParamSpec) -> Option<Seq<char>> {
    fault(spec.param_type, declared(spec), default_view(spec), default_number(spec))
}

/// Whether the spec's default satisfies its own constraint — the plan-time
/// check behind the repo-edit parameter path: a proposed default outside
/// the constraint must fail validation, never reach a running unit. A
/// malformed constraint enforces nothing here; plan-time validation reports
/// it separately.
pub fn default_within_constraint(spec: &ParamSpec) -> (r: Result<(), String>)
    ensures
        default_fault(*spec) == match r {
            Ok(_) => None,
            Err(e) => Some(e@),
        },
{
    check(spec.param_type, &Constraint::from_spec(spec), &default_value(spec))
}

/// The live values of every parameter of a house.
#[derive(Debug)]
pub struct ConfigStore {
    pub params: PairMap<StoredParam>,
}

/// The declaration of a parameter: that of the last unit of the name that
/// has it.
pub open spec fn param_spec(units: Seq<LoadedUnit>, unit: Seq<char>, param: Seq<char>) -> Option<
    ParamSpec,
>
    decreases units.len(),
{
    if units.len() == 0 {
        None
    } else if units.last().manifest.unit.name@ == unit && unit_param(units.last(), param) is Some {
        unit_param(units.last(), param)
    } else {
        param_spec(units.drop_last(), unit, param)
    }
}

/// The declaration of a parameter in one manifest.
pub open spec fn unit_param(u: LoadedUnit, param: Seq<char>) -> Option<ParamSpec> {
    match u.manifest.params {
        Some(params) => names::lookup(params@, param),
        None => None,
    }
}

/// A parameter at its default.
pub open spec fn at_default(spec: ParamSpec) -> StoredView {
    StoredView {
        param_type: spec.param_type,
        constraint: declared(spec),
        value: default_view(spec),
    }
}

/// What the entries hold under a pair of names.
pub open spec fn stored_in(
    entries: Seq<((String, String), StoredParam)>,
    unit: Seq<char>,
    param: Seq<char>,
) -> Option<StoredView> {
    match names::lookup(entries, (unit, param)) {
        Some(p) => Some(p@),
        None => None,
    }
}

/// The entries hold every declared parameter at its default, and nothing
/// else.
pub open spec fn all_at_defaults(
    entries: Seq<((String, String), StoredParam)>,
    units: Seq<LoadedUnit>,
) -> bool {
    forall|unit: Seq<char>, param: Seq<char>|
        #[trigger] stored_in(entries, unit, param) == match param_spec(units, unit, param) {
            Some(spec) => Some(at_default(spec)),
            None => None,
        }
}

/// The unit's parameters stand in the order of their names.
pub open spec fn params_ascend(u: LoadedUnit) -> bool {
    u.manifest.params matches Some(params) ==> names::ascending(params@)
}

/// The value has the parameter's type and keeps to its constraint.
pub open spec fn within(p: StoredParam) -> bool {
    fault(p.param_type, p.constraint@, p.value@, number_text(p.value)) is None
}

/// Every stored value has its type and keeps to its constraint.
pub open spec fn in_bounds(entries: Seq<((String, String), StoredParam)>) -> bool {
    forall|i: int| 0 <= i < entries.len() ==> within((#[trigger] entries[i]).1)
}

/// Every default of the unit keeps to its own constraint.
pub open spec fn sound_defaults(u: LoadedUnit) -> bool {
    u.manifest.params matches Some(params) ==> forall|j: int|
        0 <= j < params@.len() ==> default_fault((#[trigger] params@[j]).1) is None
}

proof fn lemma_in_bounds_put(
    entries: Seq<((String, String), StoredParam)>,
    key: (String, String),
    stored: StoredParam,
)
    requires
        in_bounds(entries),
        within(stored),
    ensures
        in_bounds(names::put(entries, key, stored)),
{
    let p = names::put(entries, key, stored);
    assert forall|i: int| 0 <= i < p.len() implies within((#[trigger] p[i]).1) by {
        names::lemma_put_entries(entries, key, stored, i);
        if entries.contains(p[i]) {
            let k = entries.index_of(p[i]);
            assert(within(entries[k].1));
        }
    }
}

fn add_unit(params: &mut PairMap<StoredParam>, unit: &LoadedUnit)
    ensures
        params_ascend(*unit),
        in_bounds(old(params)@) && sound_defaults(*unit) ==> in_bounds(final(params)@),
        forall|u: Seq<char>, p: Seq<char>|
            #[trigger] stored_in(final(params)@, u, p) == if u == unit.manifest.unit.name@
                && unit_param(*unit, p) is Some {
                Some(at_default(unit_param(*unit, p)->Some_0))
            } else {
                stored_in(old(params)@, u, p)
            },
{
    let specs = match &unit.manifest.params {
        Some(specs) => specs,
        None => {
            return ;
        },
    };
    let ghost before = params@;
    let n = specs.len();
    assert(specs@.take(0) =~= Seq::empty());
    for i in 0..n
        invariant
            n == specs@.len(),
            names::ascending(specs@),
            unit.manifest.params == Some(*specs),
            in_bounds(before) && sound_defaults(*unit) ==> in_bounds(params@),
            forall|u: Seq<char>, p: Seq<char>|
                #[trigger] stored_in(params@, u, p) == if u == unit.manifest.unit.name@
                    && names::lookup(specs@.take(i as int), p) is Some {
                    Some(at_default(names::lookup(specs@.take(i as int), p)->Some_0))
                } else {
                    stored_in(before, u, p)
                },
    {
        let name = specs.name(i);
        let spec = specs.value(i);
        let key = (unit.manifest.unit.name.clone(), name.clone());
        let stored = StoredParam {
            param_type: spec.param_type,
            constraint: Constraint::from_spec(spec),
            value: default_value(spec),
        };
        let ghost entries = params@;
        params.insert(key, stored);
        proof {
            if in_bounds(before) && sound_defaults(*unit) {
                assert(default_fault(specs@[i as int].1) is None);
                lemma_in_bounds_put(entries, key, stored);
            }
            assert forall|u: Seq<char>, p: Seq<char>|
                #[trigger] stored_in(params@, u, p) == if u == unit.manifest.unit.name@
                    && names::lookup(specs@.take(i + 1), p) is Some {
                    Some(at_default(names::lookup(specs@.take(i + 1), p)->Some_0))
                } else {
                    stored_in(before, u, p)
                } by {
                names::lemma_lookup_put(entries, key, stored, (u, p));
                names::lemma_lookup_take(specs@, i as int, p);
                assert(stored_in(entries, u, p) == if u == unit.manifest.unit.name@
                    && names::lookup(specs@.take(i as int), p) is Some {
                    Some(at_default(names::lookup(specs@.take(i as int), p)->Some_0))
                } else {
                    stored_in(before, u, p)
                });
            }
        }
    }
    assert(specs@.take(n as int) =~= specs@);
}

fn build(house: &House) -> (r: PairMap<StoredParam>)
    ensures
        all_at_defaults(r@, house.units@),
        forall|i: int| 0 <= i < house.units@.len() ==> params_ascend(#[trigger] house.units@[i]),
        (forall|i: int| 0 <= i < house.units@.len() ==> sound_defaults(#[trigger] house.units@[i]))
            ==> in_bounds(r@),
{
    let mut params: PairMap<StoredParam> = PairMap::new();
    assert(house.units@.take(0) =~= Seq::empty());
    for i in 0..house.units.len()
        invariant
            all_at_defaults(params@, house.units@.take(i as int)),
            forall|k: int| 0 <= k < i ==> params_ascend(#[trigger] house.units@[k]),
            (forall|k: int|
                0 <= k < house.units@.len() ==> sound_defaults(#[trigger] house.units@[k]))
                ==> in_bounds(params@),
    {
        let ghost before = params@;
        add_unit(&mut params, &house.units[i]);
        proof {
            let t = house.units@.take(i + 1);
            assert(t.drop_last() =~= house.units@.take(i as int));
            assert(t.last() == house.units@[i as int]);
        }
    }
    assert(house.units@.take(house.units@.len() as int) =~= house.units@);
    params
}

/// Those of the first `n` entries whose value differs from the one that
/// `old` holds under the same names.
pub open spec fn changed_values(
    entries: Seq<((String, String), StoredParam)>,
    old_entries: Seq<((String, String), StoredParam)>,
    n: nat,
) -> Seq<(Seq<char>, Seq<char>, JsonView)> {
    text::each(
        n,
        |i: int|
            text::only_if(
                match stored_in(old_entries, entries[i].0.0@, entries[i].0.1@) {
                    Some(before) => !json::json_same(before.value, entries[i].1.value@),
                    None => false,
                },
                (entries[i].0.0@, entries[i].0.1@, entries[i].1.value@),
            ),
    )
}

/// The first `n` entries as `(unit, param, value)` triples, those kept whose
/// place in `keep` is true.
pub open spec fn kept_values(
    entries: Seq<((String, String), StoredParam)>,
    keep: Seq<bool>,
    n: nat,
) -> Seq<(Seq<char>, Seq<char>, JsonView)> {
    text::each(
        n,
        |i: int|
            text::only_if(keep[i], (entries[i].0.0@, entries[i].0.1@, entries[i].1.value@)),
    )
}

/// Whether a filter may answer `hit` to a pair of names.
pub open spec fn answers<F: Fn(&str, &str) -> bool>(
    matches: F,
    unit: Seq<char>,
    param: Seq<char>,
    hit: bool,
) -> bool {
    exists|u: &str, p: &str|
        u@ == unit && p@ == param && #[trigger] call_ensures(matches, (u, p), hit)
}

impl ConfigStore {
    /// The store with every parameter of the house at its default.
    pub fn from_house(house: &House) -> (r: ConfigStore)
        ensures
            all_at_defaults(r.params@, house.units@),
            (forall|i: int|
                0 <= i < house.units@.len() ==> sound_defaults(#[trigger] house.units@[i]))
                ==> in_bounds(r.params@),
    {
        ConfigStore { params: build(house) }
    }

    /// Rebuilds the store from a new house — on apply, every parameter is
    /// set to its repo default (the repo is the system of record; live
    /// drift resets, and the plan showed it). Returns the params whose
    /// effective value changed so the caller can put them on the bus for
    /// live subscribers; params of new units need no put (they seed via
    /// get at startup).
    pub fn replace_from_house(&mut self, house: &House) -> (r: Vec<(String, String, Json)>)
        ensures
            all_at_defaults(final(self).params@, house.units@),
            forall|i: int|
                0 <= i < house.units@.len() ==> params_ascend(#[trigger] house.units@[i]),
            (forall|i: int|
                0 <= i < house.units@.len() ==> sound_defaults(#[trigger] house.units@[i]))
                ==> in_bounds(final(self).params@),
            text::views(r@) == changed_values(
                final(self).params@,
                old(self).params@,
                final(self).params@.len(),
            ),
    {
        let fresh = build(house);
        let mut changed: Vec<(String, String, Json)> = Vec::new();
        let n = fresh.len();
        for i in 0..n
            invariant
                n == fresh@.len(),
                text::views(changed@) == changed_values(fresh@, self.params@, i as nat),
        {
            let key = fresh.name(i);
            let new = &fresh.value(i).value;
            if let Some(before) = self.params.get_pair(key.0.as_str(), key.1.as_str()) {
                if !before.value.same(new) {
                    changed.push((key.0.clone(), key.1.clone(), new.copy()));
                }
            }
        }
        self.params = fresh;
        changed
    }

    /// Current values matching a `(unit, param)` filter, as
    /// `(unit, param, value)` triples.
    pub fn read<F: Fn(&str, &str) -> bool>(&self, matches: F) -> (r: Vec<(String, String, Json)>)
        requires
            forall|unit: &str, param: &str| #[trigger] call_requires(matches, (unit, param)),
        ensures
            exists|keep: Seq<bool>|
                {
                    &&& keep.len() == self.params@.len()
                    &&& forall|i: int|
                        0 <= i < keep.len() ==> answers(
                            matches,
                            self.params@[i].0.0@,
                            self.params@[i].0.1@,
                            #[trigger] keep[i],
                        )
                    &&& text::views(r@) == #[trigger] kept_values(
                        self.params@,
                        keep,
                        self.params@.len(),
                    )
                },
    {
        let mut out: Vec<(String, String, Json)> = Vec::new();
        let mut keep: Vec<bool> = Vec::new();
        let n = self.params.len();
        for i in 0..n
            invariant
                n == self.params@.len(),
                forall|unit: &str, param: &str| #[trigger] call_requires(matches, (unit, param)),
                keep@.len() == i,
                forall|k: int|
                    0 <= k < i ==> answers(
                        matches,
                        self.params@[k].0.0@,
                        self.params@[k].0.1@,
                        #[trigger] keep@[k],
                    ),
                text::views(out@) == kept_values(self.params@, keep@, i as nat),
        {
            let key = self.params.name(i);
            let unit = key.0.as_str();
            let param = key.1.as_str();
            let hit = matches(unit, param);
            let ghost before = keep@;
            keep.push(hit);
            proof {
                assert(call_ensures(matches, (unit, param), hit));
                assert(answers(matches, unit@, param@, hit));
                assert forall|k: int| 0 <= k < i + 1 implies answers(
                    matches,
                    self.params@[k].0.0@,
                    self.params@[k].0.1@,
                    #[trigger] keep@[k],
                ) by {
                    if k < i {
                        assert(before[k] == keep@[k]);
                    }
                }
                lemma_kept_prefix(self.params@, before, keep@, i as nat);
            }
            if hit {
                out.push((key.0.clone(), key.1.clone(), self.params.value(i).value.copy()));
            }
        }
        assert(text::views(out@) == kept_values(self.params@, keep@, self.params@.len()));
        out
    }

    /// Validates and stores a write. On success the new value is returned
    /// (the caller puts it on the bus); on rejection the old value stands.
    pub fn write(&mut self, unit: &str, param: &str, value: Json) -> (r: Result<Json, String>)
        ensures
            in_bounds(old(self).params@) ==> in_bounds(final(self).params@),
            match stored_in(old(self).params@, unit@, param@) {
                None => {
                    &&& r matches Err(e) && e@ == "unknown parameter "@ + unit@ + "/"@ + param@
                    &&& *final(self) == *old(self)
                },
                Some(stored) => match fault(
                    stored.param_type,
                    stored.constraint,
                    value@,
                    number_text(value),
                ) {
                    Some(message) => {
                        &&& r matches Err(e) && e@ == message
                        &&& *final(self) == *old(self)
                    },
                    None => {
                        &&& r matches Ok(v) && v@ == value@
                        &&& forall|u: Seq<char>, p: Seq<char>|
                            #[trigger] stored_in(final(self).params@, u, p) == if u == unit@ && p
                                == param@ {
                                Some(StoredView { value: value@, ..stored })
                            } else {
                                stored_in(old(self).params@, u, p)
                            }
                    },
                },
            },
    {
        let (param_type, constraint) = match self.params.get_pair(unit, param) {
            Some(stored) => {
                match check(stored.param_type, &stored.constraint, &value) {
                    Ok(_) => {},
                    Err(e) => {
                        return Err(e);
                    },
                }
                (stored.param_type, stored.constraint.copy())
            },
            None => {
                return Err(cat4("unknown parameter ", unit, "/", param));
            },
        };
        let echo = value.copy();
        let key = (unit.to_owned(), param.to_owned());
        let stored = StoredParam { param_type, constraint, value };
        proof {
            assert forall|u: Seq<char>, p: Seq<char>|
                #[trigger] stored_in(names::put(self.params@, key, stored), u, p) == if u == unit@
                    && p == param@ {
                    Some(stored@)
                } else {
                    stored_in(self.params@, u, p)
                } by {
                names::lemma_lookup_put(self.params@, key, stored, (u, p));
            }
            if in_bounds(self.params@) {
                lemma_in_bounds_put(self.params@, key, stored);
            }
        }
        self.params.insert(key, stored);
        Ok(echo)
    }
}

proof fn lemma_kept_prefix(
    entries: Seq<((String, String), StoredParam)>,
    a: Seq<bool>,
    b: Seq<bool>,
    n: nat,
)
    requires
        forall|i: int| 0 <= i < n ==> a[i] == b[i],
    ensures
        kept_values(entries, a, n) == kept_values(entries, b, n),
    decreases n,
{
    if n > 0 {
        lemma_kept_prefix(entries, a, b, (n - 1) as nat);
    }
}

/// What an accepted write stored is what a later read finds, and a refused
/// write changes nothing: both for the parameter written and for every other.
pub proof fn law_write_then_read(
    before: ConfigStore,
    after: ConfigStore,
    unit: Seq<char>,
    param: Seq<char>,
    value: JsonView,
    number: Option<Seq<char>>,
)
    requires
        match stored_in(before.params@, unit, param) {
            None => after == before,
            Some(stored) => match fault(stored.param_type, stored.constraint, value, number) {
                Some(_) => after == before,
                None => forall|u: Seq<char>, p: Seq<char>|
                    #[trigger] stored_in(after.params@, u, p) == if u == unit && p == param {
                        Some(StoredView { value, ..stored })
                    } else {
                        stored_in(before.params@, u, p)
                    },
            },
        },
    ensures
        match stored_in(before.params@, unit, param) {
            None => stored_in(after.params@, unit, param) is None,
            Some(stored) => stored_in(after.params@, unit, param) is Some && stored_in(
                after.params@,
                unit,
                param,
            )->Some_0.value == if fault(
                stored.param_type,
                stored.constraint,
                value,
                number,
            ) is None {
                value
            } else {
                stored.value
            },
        },
{
}

} // verus!

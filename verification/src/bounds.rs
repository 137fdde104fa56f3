//! Which writes a parameter takes: from what its manifest declares to what
//! becomes of a write.

use crate::config;
use crate::config::StoredParam;
use crate::config::StoredView;
use crate::floats;
use crate::json::Json;
use crate::json::JsonNumber;
use crate::json::JsonView;
use crate::manifest::ParamSpec;
use crate::manifest::ParamType;
use crate::names;
use crate::repo::House;
use crate::repo::LoadedUnit;
use crate::text;
use crate::tomlvalue::TomlData;
use crate::tomlvalue::TomlValue;
use crate::validate;
use vstd::prelude::*;

verus! {

/// The entry of the constraint table, where there is a table that has it.
pub open spec fn bound(spec: ParamSpec, key: Seq<char>) -> Option<TomlData> {
    match spec.constraint {
        Some(table) => match names::lookup(table@, key) {
            Some(v) => Some(v.data),
            None => None,
        },
        None => None,
    }
}

/// The number, as a float.
pub open spec fn number_bits(data: TomlData) -> u64 {
    match data {
        TomlData::Integer(i) => floats::float_bits(floats::float_of_int(i as int)),
        TomlData::Float(f) => floats::float_bits(f.text@),
        _ => 0,
    }
}

/// The number is not less than the one under `min` and not more than the one
/// under `max`. An entry that is no number bounds nothing.
pub open spec fn in_range(spec: ParamSpec, n: u64) -> bool {
    &&& bound(spec, "min"@) matches Some(min) ==> (min is Integer || min is Float)
        ==> !floats::float_lt(n, number_bits(min))
    &&& bound(spec, "max"@) matches Some(max) ==> (max is Integer || max is Float)
        ==> !floats::float_lt(number_bits(max), n)
}

/// The minutes since midnight that `HH:MM` denotes: two numbers around one
/// colon, the first below 24 and the second below 60.
pub open spec fn minutes_in(s: Seq<char>) -> Option<int> {
    let pieces = text::split_at_each(s, ':');
    if pieces.len() == 2 {
        match (text::number(pieces[0]), text::number(pieces[1])) {
            (Some(h), Some(m)) => if h < 24 && m < 60 {
                Some(h * 60 + m)
            } else {
                None
            },
            _ => None,
        }
    } else {
        None
    }
}

/// The time under `key`, where the entry is one.
pub open spec fn time_under(spec: ParamSpec, key: Seq<char>) -> Option<int> {
    match bound(spec, key) {
        Some(TomlData::Str(s)) => minutes_in(s@),
        _ => None,
    }
}

/// The minutes from one time of day forward to another.
pub open spec fn forward(from: int, to: int) -> int {
    (to - from) % 1440
}

/// The clock that runs from `after` meets the time before or when it meets
/// `before`. One bound alone holds within the day.
pub open spec fn in_hours(spec: ParamSpec, t: int) -> bool {
    match (time_under(spec, "after"@), time_under(spec, "before"@)) {
        (Some(a), Some(b)) => forward(a, t) <= forward(a, b),
        (Some(a), None) => a <= t,
        (None, Some(b)) => t <= b,
        (None, None) => true,
    }
}

/// The text is one of the strings under `enum`, where that is a list.
pub open spec fn is_listed(spec: ParamSpec, s: Seq<char>) -> bool {
    bound(spec, "enum"@) matches Some(TomlData::Array(items)) ==> exists|i: int|
        0 <= i < items@.len() && #[trigger] says(items@[i], s)
}

/// The item is the string.
pub open spec fn says(item: TomlValue, s: Seq<char>) -> bool {
    item.data matches TomlData::Str(t) && t@ == s
}

/// The value has the declared type and keeps to every declared bound.
pub open spec fn admits(spec: ParamSpec, value: Json) -> bool {
    match spec.param_type {
        ParamType::Bool => value is Bool,
        ParamType::Int => match value {
            Json::Number(JsonNumber::PosInt(u)) => u <= i64::MAX && in_range(
                spec,
                floats::float_bits(floats::float_of_int(u as int)),
            ),
            Json::Number(JsonNumber::NegInt(i)) => in_range(
                spec,
                floats::float_bits(floats::float_of_int(i as int)),
            ),
            _ => false,
        },
        ParamType::Float => match value {
            Json::Number(JsonNumber::PosInt(u)) => in_range(
                spec,
                floats::float_bits(floats::float_of_int(u as int)),
            ),
            Json::Number(JsonNumber::NegInt(i)) => in_range(
                spec,
                floats::float_bits(floats::float_of_int(i as int)),
            ),
            Json::Number(JsonNumber::Float(f)) => floats::finite(floats::float_bits(f.text@))
                && in_range(spec, floats::float_bits(f.text@)),
            _ => false,
        },
        ParamType::String => match value {
            Json::Str(s) => is_listed(spec, s@),
            _ => false,
        },
        ParamType::Time => match value {
            Json::Str(s) => minutes_in(s@) is Some && in_hours(spec, minutes_in(s@)->Some_0),
            _ => false,
        },
    }
}

/// Unit `u` declares the parameter: the last of its name that has it.
pub open spec fn declares_param(
    units: Seq<LoadedUnit>,
    u: int,
    unit: Seq<char>,
    param: Seq<char>,
    spec: ParamSpec,
) -> bool {
    &&& 0 <= u < units.len()
    &&& units[u].manifest.unit.name@ == unit
    &&& units[u].manifest.params is Some
    &&& names::lookup(units[u].manifest.params->Some_0@, param) == Some(spec)
    &&& forall|v: int|
        u < v < units.len() && (#[trigger] units[v]).manifest.unit.name@ == unit
            && units[v].manifest.params is Some ==> names::lookup(
            units[v].manifest.params->Some_0@,
            param,
        ) is None
}

proof fn lemma_param_spec(
    units: Seq<LoadedUnit>,
    u: int,
    unit: Seq<char>,
    param: Seq<char>,
    spec: ParamSpec,
)
    requires
        declares_param(units, u, unit, param, spec),
    ensures
        config::param_spec(units, unit, param) == Some(spec),
    decreases units.len(),
{
    if u < units.len() - 1 {
        let d = units.drop_last();
        let last = units[units.len() - 1];
        assert(last == units.last());
        assert(d[u] == units[u]);
        assert(declares_param(d, u, unit, param, spec)) by {
            assert forall|v: int|
                u < v < d.len() && (#[trigger] d[v]).manifest.unit.name@ == unit
                    && d[v].manifest.params is Some implies names::lookup(
                d[v].manifest.params->Some_0@,
                param,
            ) is None by {
                assert(d[v] == units[v]);
            }
        }
        lemma_param_spec(d, u, unit, param, spec);
    }
}

proof fn lemma_undeclared(units: Seq<LoadedUnit>, unit: Seq<char>, param: Seq<char>)
    requires
        forall|v: int|
            0 <= v < units.len() && (#[trigger] units[v]).manifest.unit.name@ == unit
                && units[v].manifest.params is Some ==> names::lookup(
                units[v].manifest.params->Some_0@,
                param,
            ) is None,
    ensures
        config::param_spec(units, unit, param) is None,
    decreases units.len(),
{
    if units.len() > 0 {
        assert(units.last() == units[units.len() - 1]);
        let d = units.drop_last();
        assert forall|v: int|
            0 <= v < d.len() && (#[trigger] d[v]).manifest.unit.name@ == unit
                && d[v].manifest.params is Some implies names::lookup(
            d[v].manifest.params->Some_0@,
            param,
        ) is None by {
            assert(d[v] == units[v]);
        }
        lemma_undeclared(d, unit, param);
    }
}

/// A write of the value to the stored parameter goes through.
pub open spec fn accepts(stored: StoredView, value: Json) -> bool {
    config::fault(stored.param_type, stored.constraint, value@, config::number_text(value)) is None
}

/// The store holds the parameters of the units, each under the rules of its
/// manifest, at whatever values.
pub open spec fn under_rules(
    entries: Seq<((String, String), StoredParam)>,
    units: Seq<LoadedUnit>,
) -> bool {
    forall|unit: Seq<char>, param: Seq<char>|
        match (
            #[trigger] config::stored_in(entries, unit, param),
            config::param_spec(units, unit, param),
        ) {
            (Some(stored), Some(spec)) => stored.param_type == config::at_default(spec).param_type
                && stored.constraint == config::at_default(spec).constraint,
            (None, None) => true,
            _ => false,
        }
}

/// A store that was seeded from a house, and written to any number of times,
/// holds every parameter under the rules of its manifest.
pub proof fn law_writes_keep_the_rules(
    before: Seq<((String, String), StoredParam)>,
    after: Seq<((String, String), StoredParam)>,
    units: Seq<LoadedUnit>,
    unit: Seq<char>,
    param: Seq<char>,
    value: JsonView,
)
    ensures
        config::all_at_defaults(before, units) ==> under_rules(before, units),
        under_rules(before, units) && config::stored_in(before, unit, param) is Some && (forall|
            u: Seq<char>,
            p: Seq<char>,
        |
            #[trigger] config::stored_in(after, u, p) == if u == unit && p == param {
                Some(
                    StoredView { value, ..config::stored_in(before, unit, param)->Some_0 },
                )
            } else {
                config::stored_in(before, u, p)
            }) ==> under_rules(after, units),
{
    if config::all_at_defaults(before, units) {
        assert(under_rules(before, units));
    }
    if under_rules(before, units) && config::stored_in(before, unit, param) is Some && (forall|
        u: Seq<char>,
        p: Seq<char>,
    |
        #[trigger] config::stored_in(after, u, p) == if u == unit && p == param {
            Some(StoredView { value, ..config::stored_in(before, unit, param)->Some_0 })
        } else {
            config::stored_in(before, u, p)
        }) {
        assert forall|u: Seq<char>, p: Seq<char>|
            match (
                #[trigger] config::stored_in(after, u, p),
                config::param_spec(units, u, p),
            ) {
                (Some(stored), Some(spec)) => stored.param_type == config::at_default(
                    spec,
                ).param_type && stored.constraint == config::at_default(spec).constraint,
                (None, None) => true,
                _ => false,
            } by {
            let b = config::stored_in(before, u, p);
        }
    }
}

proof fn lemma_strings(items: Seq<TomlValue>, n: nat, s: Seq<char>)
    requires
        n <= items.len(),
    ensures
        config::strings_in(items, n).contains(s) <==> exists|i: int|
            0 <= i < n && #[trigger] says(items[i], s),
    decreases n,
{
    if n > 0 {
        let m = (n - 1) as nat;
        lemma_strings(items, m, s);
        let part = match items[m as int].data {
            TomlData::Str(t) => seq![t@],
            _ => Seq::empty(),
        };
        let before = config::strings_in(items, m);
        let all = config::strings_in(items, n);
        assert(all == before + part);
        if before.contains(s) {
            let k = before.index_of(s);
            assert(all[k] == s);
        }
        if says(items[m as int], s) {
            assert(all[before.len() as int] == s);
        }
        if all.contains(s) && !before.contains(s) {
            let k = all.index_of(s);
            assert(k >= before.len()) by {
                if k < before.len() {
                    assert(before[k] == s);
                }
            }
            assert(part[k - before.len()] == s);
            assert(says(items[m as int], s));
        }
    }
}

pub proof fn lemma_range(spec: ParamSpec, n: Seq<char>)
    ensures
        config::range_fault(n, config::declared(spec)) is None <==> in_range(
            spec,
            floats::float_bits(n),
        ),
{
}

pub proof fn lemma_listed(spec: ParamSpec, s: Seq<char>)
    ensures
        (match config::declared(spec).allowed {
            Some(allowed) => allowed.contains(s),
            None => true,
        }) <==> is_listed(spec, s),
{
    if let Some(TomlData::Array(items)) = bound(spec, "enum"@) {
        lemma_strings(items@, items@.len(), s);
    }
}

pub proof fn lemma_minutes(s: Seq<char>)
    ensures
        match (minutes_in(s), validate::time_of(s)) {
            (Some(m), Some(t)) => m == config::minutes(t) && 0 <= m < 1440,
            (None, None) => true,
            _ => false,
        },
{
    let pieces = text::split_at_each(s, ':');
    if pieces.len() == 2 {
        lemma_number_is_natural(pieces[0]);
        lemma_number_is_natural(pieces[1]);
    }
}

proof fn lemma_number_is_natural(s: Seq<char>)
    ensures
        text::number(s) matches Some(n) ==> n >= 0,
{
    let u = text::unsigned_part(s);
    if text::number(s) is Some {
        lemma_digits_natural(u);
    }
}

proof fn lemma_digits_natural(s: Seq<char>)
    requires
        forall|i: int| 0 <= i < s.len() ==> text::is_digit(#[trigger] s[i]),
    ensures
        text::digits_value(s) >= 0,
    decreases s.len(),
{
    if s.len() > 0 {
        let d = s.drop_last();
        assert(text::is_digit(s[s.len() - 1]));
        assert forall|i: int| 0 <= i < d.len() implies text::is_digit(#[trigger] d[i]) by {
            assert(d[i] == s[i]);
        }
        lemma_digits_natural(d);
    }
}

proof fn lemma_window(t: int, a: int, b: int)
    requires
        0 <= t < 1440,
        0 <= a < 1440,
        0 <= b < 1440,
    ensures
        forward(a, t) <= forward(a, b) <==> if a <= b {
            a <= t <= b
        } else {
            a <= t || t <= b
        },
{
    assert(forward(a, t) == if a <= t {
        t - a
    } else {
        t - a + 1440
    });
    assert(forward(a, b) == if a <= b {
        b - a
    } else {
        b - a + 1440
    });
}

pub proof fn lemma_hours(spec: ParamSpec, s: Seq<char>)
    requires
        minutes_in(s) is Some,
    ensures
        config::window_fault(validate::time_of(s)->Some_0, config::declared(spec)) is None
            <==> in_hours(spec, minutes_in(s)->Some_0),
{
    lemma_minutes(s);
    if let Some(TomlData::Str(a)) = bound(spec, "after"@) {
        lemma_minutes(a@);
    }
    if let Some(TomlData::Str(b)) = bound(spec, "before"@) {
        lemma_minutes(b@);
    }
    if time_under(spec, "after"@) is Some && time_under(spec, "before"@) is Some {
        lemma_window(
            minutes_in(s)->Some_0,
            time_under(spec, "after"@)->Some_0,
            time_under(spec, "before"@)->Some_0,
        );
    }
}

proof fn lemma_accepts(spec: ParamSpec, stored: StoredView, value: Json)
    requires
        stored.param_type == spec.param_type,
        stored.constraint == config::declared(spec),
    ensures
        accepts(stored, value) <==> admits(spec, value),
{
    match spec.param_type {
        ParamType::Int => {
            if let Json::Number(JsonNumber::PosInt(u)) = value {
                lemma_range(spec, floats::float_of_int(u as int));
            }
            if let Json::Number(JsonNumber::NegInt(i)) = value {
                lemma_range(spec, floats::float_of_int(i as int));
            }
        },
        ParamType::Float => {
            if let Some(n) = config::number_text(value) {
                lemma_range(spec, n);
            }
        },
        ParamType::String => {
            if let Json::Str(s) = value {
                lemma_listed(spec, s@);
            }
        },
        ParamType::Time => {
            if let Json::Str(s) = value {
                lemma_minutes(s@);
                if minutes_in(s@) is Some {
                    lemma_hours(spec, s@);
                }
            }
        },
        _ => {},
    }
}

/// What becomes of a write to a store that was seeded from the house: it is
/// accepted exactly where the value has the declared type and keeps to every
/// bound of the constraint table. A number is not below the one under `min`
/// and not above the one under `max`; a string is one of those under `enum`;
/// a time lies in the hours from `after` to `before`, past midnight where
/// they lead there.
pub proof fn law_declared_bounds_are_enforced(
    h: House,
    u: int,
    entries: Seq<((String, String), StoredParam)>,
    unit: Seq<char>,
    param: Seq<char>,
    spec: ParamSpec,
    value: Json,
)
    requires
        under_rules(entries, h.units@),
        declares_param(h.units@, u, unit, param, spec),
    ensures
        config::stored_in(entries, unit, param) is Some,
        accepts(config::stored_in(entries, unit, param)->Some_0, value) <==> admits(spec, value),
{
    lemma_param_spec(h.units@, u, unit, param, spec);
    let stored = config::stored_in(entries, unit, param);
    assert(stored is Some);
    lemma_accepts(spec, stored->Some_0, value);
}

/// A fresh store has every declared parameter, at its default: the value
/// that the manifest writes, with a float that JSON cannot hold as null and
/// anything but a scalar as its text. It has no other.
pub proof fn law_a_fresh_store_is_at_defaults(
    h: House,
    u: int,
    entries: Seq<((String, String), StoredParam)>,
    unit: Seq<char>,
    param: Seq<char>,
    spec: ParamSpec,
)
    requires
        config::all_at_defaults(entries, h.units@),
    ensures
        declares_param(h.units@, u, unit, param, spec) ==> config::stored_in(entries, unit, param)
            is Some && config::stored_in(entries, unit, param)->Some_0.value == (
        match spec.default.data {
            TomlData::Boolean(b) => JsonView::Bool(b),
            TomlData::Integer(i) => JsonView::Int(i as int),
            TomlData::Float(f) => if floats::finite(floats::float_bits(f.text@)) {
                JsonView::Float(floats::float_bits(f.text@))
            } else {
                JsonView::Null
            },
            TomlData::Str(s) => JsonView::Str(s@),
            _ => JsonView::Str(spec.default.text@),
        }),
        (forall|v: int|
            0 <= v < h.units@.len() && (#[trigger] h.units@[v]).manifest.unit.name@ == unit
                && h.units@[v].manifest.params is Some ==> names::lookup(
                h.units@[v].manifest.params->Some_0@,
                param,
            ) is None) ==> config::stored_in(entries, unit, param) is None,
{
    let stored = config::stored_in(entries, unit, param);
    if declares_param(h.units@, u, unit, param, spec) {
        lemma_param_spec(h.units@, u, unit, param, spec);
        assert(stored is Some);
    }
    if forall|v: int|
        0 <= v < h.units@.len() && (#[trigger] h.units@[v]).manifest.unit.name@ == unit
            && h.units@[v].manifest.params is Some ==> names::lookup(
            h.units@[v].manifest.params->Some_0@,
            param,
        ) is None {
        lemma_undeclared(h.units@, unit, param);
    }
}

} // verus!

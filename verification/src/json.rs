//! JSON values, read and written by serde_json.

use crate::names;
use crate::names::NameMap;
use crate::order::Ranked;
use crate::floats;
use crate::floats::Real;
use crate::text;
use crate::text::str_eq;
use vstd::prelude::*;

verus! {

broadcast use crate::text::group_views;

/// A JSON number: an integer of 64 bits or a float.
#[derive(Debug, PartialEq, Eq)]
pub enum JsonNumber {
    PosInt(u64),
    NegInt(i64),
    Float(Real),
}

/// A JSON value. The entries of an object are sorted by key.
#[derive(Debug, PartialEq, Eq)]
pub enum Json {
    Null,
    Bool(bool),
    Number(JsonNumber),
    Str(String),
    Array(Vec<Json>),
    Object(NameMap<Json>),
}

/// What a JSON value stands for. JSON has no infinities and no NaN: a float
/// that is not finite stands for null.
pub enum JsonView {
    Null,
    Bool(bool),
    Int(int),
    Float(u64),
    Str(Seq<char>),
    Array(Seq<JsonView>),
    Object(Seq<(Seq<char>, JsonView)>),
}

impl View for Json {
    type V = JsonView;

    open spec fn view(&self) -> JsonView {
        json_view(*self)
    }
}

/// What a JSON value stands for.
pub open spec fn json_view(j: Json) -> JsonView
    decreases j,
{
    proof {
        broadcast use crate::names::lemma_value_decreases;

    }
    match j {
        Json::Null => JsonView::Null,
        Json::Bool(b) => JsonView::Bool(b),
        Json::Number(JsonNumber::PosInt(u)) => JsonView::Int(u as int),
        Json::Number(JsonNumber::NegInt(i)) => JsonView::Int(i as int),
        Json::Number(JsonNumber::Float(f)) => float_view(f.bits()),
        Json::Str(s) => JsonView::Str(s@),
        Json::Array(v) => JsonView::Array(
            Seq::new(
                v@.len(),
                |i: int|
                    if 0 <= i < v@.len() {
                        json_view(v@[i])
                    } else {
                        JsonView::Null
                    },
            ),
        ),
        Json::Object(m) => JsonView::Object(
            Seq::new(
                m@.len(),
                |i: int|
                    if 0 <= i < m@.len() {
                        (m@[i].0@, json_view(m@[i].1))
                    } else {
                        (Seq::empty(), JsonView::Null)
                    },
            ),
        ),
    }
}

/// A float is held as std prints it.
pub open spec fn printed(j: Json) -> bool {
    j matches Json::Number(JsonNumber::Float(f)) ==> f.text@ == floats::float_text(f.bits())
}

/// A float as JSON has it.
pub open spec fn float_view(bits: u64) -> JsonView {
    if floats::finite(bits) {
        JsonView::Float(bits)
    } else {
        JsonView::Null
    }
}

/// Whether two values are equal: numbers of the same sort by value, the rest
/// part by part.
pub open spec fn json_same(a: JsonView, b: JsonView) -> bool
    decreases a,
{
    match (a, b) {
        (JsonView::Float(x), JsonView::Float(y)) => floats::float_eq(x, y),
        (JsonView::Array(x), JsonView::Array(y)) => {
            &&& x.len() == y.len()
            &&& forall|i: int| 0 <= i < x.len() ==> json_same(#[trigger] x[i], y[i])
        },
        (JsonView::Object(x), JsonView::Object(y)) => {
            &&& x.len() == y.len()
            &&& forall|i: int|
                0 <= i < x.len() ==> (#[trigger] x[i]).0 == y[i].0 && json_same(x[i].1, y[i].1)
        },
        _ => a == b,
    }
}

/// Every number that occurs is finite.
pub open spec fn all_finite(a: JsonView) -> bool
    decreases a,
{
    match a {
        JsonView::Float(x) => floats::finite(x),
        JsonView::Array(x) => forall|i: int| 0 <= i < x.len() ==> all_finite(#[trigger] x[i]),
        JsonView::Object(x) => forall|i: int|
            0 <= i < x.len() ==> all_finite((#[trigger] x[i]).1),
        _ => true,
    }
}

/// What a value stands for holds finite numbers only.
pub proof fn lemma_all_finite(j: Json)
    ensures
        all_finite(j@),
    decreases j,
{
    match j {
        Json::Array(v) => {
            assert forall|i: int| 0 <= i < v@.len() implies all_finite(v@[i]@) by {
                lemma_all_finite(v@[i]);
            }
        },
        Json::Object(m) => {
            assert forall|i: int| 0 <= i < m@.len() implies all_finite((#[trigger] m@[i]).1@) by {
                names::lemma_value_decreases(m, i);
                lemma_all_finite(m@[i].1);
            }
        },
        _ => {},
    }
}

/// A value with finite numbers is equal to itself.
pub proof fn lemma_json_reflexive(a: JsonView)
    requires
        all_finite(a),
    ensures
        json_same(a, a),
    decreases a,
{
    match a {
        JsonView::Array(x) => {
            assert forall|i: int| 0 <= i < x.len() implies json_same(#[trigger] x[i], x[i]) by {
                lemma_json_reflexive(x[i]);
            }
        },
        JsonView::Object(x) => {
            assert forall|i: int| 0 <= i < x.len() implies json_same((#[trigger] x[i]).1, x[i].1) by {
                lemma_json_reflexive(x[i].1);
            }
        },
        _ => {},
    }
}

/// An integer in JSON takes at most 64 bits.
pub proof fn lemma_int_fits(j: Json)
    ensures
        j@ matches JsonView::Int(i) ==> i64::MIN <= i <= u64::MAX,
{
}

/// serde_json's value tree.
#[verifier::external_type_specification]
#[verifier::external_body]
pub struct ExValue(serde_json::Value);

/// One level of a value tree.
pub enum Shape {
    Null,
    Bool(bool),
    PosInt(u64),
    NegInt(i64),
    Float(Real),
    Str(String),
    Items(Vec<serde_json::Value>),
    Entries(Vec<(String, serde_json::Value)>),
}

/// What a value tree holds.
pub uninterp spec fn value_contents(v: serde_json::Value) -> JsonView;

/// What `serde_json::from_slice` reads out of a document, or its complaint.
pub uninterp spec fn json_document(bytes: Seq<u8>) -> Result<JsonView, Seq<char>>;

/// The compact text that serde_json writes for a value.
pub uninterp spec fn json_text(v: JsonView) -> Seq<char>;

/// The indented text that serde_json writes for a value.
pub uninterp spec fn json_pretty(v: JsonView) -> Seq<char>;

/// What one level stands for.
pub open spec fn shape_contents(s: Shape) -> JsonView {
    match s {
        Shape::Null => JsonView::Null,
        Shape::Bool(b) => JsonView::Bool(b),
        Shape::PosInt(u) => JsonView::Int(u as int),
        Shape::NegInt(i) => JsonView::Int(i as int),
        Shape::Float(f) => float_view(f.bits()),
        Shape::Str(t) => JsonView::Str(t@),
        Shape::Items(v) => JsonView::Array(Seq::new(v@.len(), |i: int| value_contents(v@[i]))),
        Shape::Entries(m) => JsonView::Object(
            Seq::new(m@.len(), |i: int| (m@[i].0@, value_contents(m@[i].1))),
        ),
    }
}

/// Matches on a `serde_json::Value`, and on a number by `as_u64`, `as_i64`
/// and `as_f64`: the level returned stands for what the value holds. A float
/// is given by the text that std's `to_string` prints for it, a function of
/// its bits. The entries of an object come in the order of their keys, as
/// the map walks them.
#[verifier::external_body]
fn take_apart(v: serde_json::Value) -> (r: Shape)
    ensures
        shape_contents(r) == value_contents(v),
        r matches Shape::Float(f) ==> f.text@ == floats::float_text(f.bits()),
        r matches Shape::Entries(m) ==> names::ascending(m@),
{
    match v {
        serde_json::Value::Null => Shape::Null,
        serde_json::Value::Bool(b) => Shape::Bool(b),
        serde_json::Value::Number(n) => match (n.as_u64(), n.as_i64()) {
            (Some(u), _) => Shape::PosInt(u),
            (None, Some(i)) => Shape::NegInt(i),
            _ => Shape::Float(Real { text: n.as_f64().unwrap_or_default().to_string() }),
        },
        serde_json::Value::String(s) => Shape::Str(s),
        serde_json::Value::Array(items) => Shape::Items(items),
        serde_json::Value::Object(map) => Shape::Entries(map.into_iter().collect()),
    }
}

/// Builds a `serde_json::Value` with its variants and `From`: the value holds
/// what the level stands for. A float goes through `str::parse` and
/// `Value::from`, which turns one that is not finite into null.
#[verifier::external_body]
fn put_together(s: Shape) -> (r: serde_json::Value)
    requires
        s matches Shape::Entries(m) ==> names::ascending(m@),
    ensures
        value_contents(r) == shape_contents(s),
{
    match s {
        Shape::Null => serde_json::Value::Null,
        Shape::Bool(b) => serde_json::Value::Bool(b),
        Shape::PosInt(u) => serde_json::Value::from(u),
        Shape::NegInt(i) => serde_json::Value::from(i),
        Shape::Float(f) => serde_json::Number::from_f64(f.text.parse().unwrap_or_default())
            .map_or(serde_json::Value::Null, serde_json::Value::Number),
        Shape::Str(t) => serde_json::Value::String(t),
        Shape::Items(v) => serde_json::Value::Array(v),
        Shape::Entries(m) => serde_json::Value::Object(m.into_iter().collect()),
    }
}

/// Calls `serde_json::from_slice` for a `Value`. What comes back, the value
/// or the error's text, is a function of the bytes alone.
#[verifier::external_body]
fn read_value(bytes: &[u8]) -> (r: Result<serde_json::Value, String>)
    ensures
        json_document(bytes@) == match r {
            Ok(v) => Ok(value_contents(v)),
            Err(e) => Err(e@),
        },
{
    serde_json::from_slice(bytes).map_err(|e| e.to_string())
}

/// A value without parts that is no float.
pub open spec fn plain(v: JsonView) -> bool {
    v is Null || v is Bool || v is Int || v is Str
}

/// The text is a document that holds the value, where the value is a plain
/// one.
pub open spec fn reads_back(text: Seq<char>, v: JsonView) -> bool {
    plain(v) ==> json_document(vstd::utf8::encode_utf8(text)) == Ok::<JsonView, Seq<char>>(v)
}

/// Calls `to_string` of a `serde_json::Value`, which writes compact JSON. The
/// text is a function of what the value holds. `serde_json::from_slice` reads
/// a plain value back from it; of a float (whose last digit may change) and of
/// arrays and objects (which may nest too deep to be read) that is left
/// unsaid.
#[verifier::external_body]
fn write_value(v: &serde_json::Value) -> (r: String)
    ensures
        r@ == json_text(value_contents(*v)),
        reads_back(r@, value_contents(*v)),
{
    v.to_string()
}

/// Calls `serde_json::to_string_pretty`, which cannot fail on a `Value`. The
/// text is a function of what the value holds.
#[verifier::external_body]
fn write_value_pretty(v: &serde_json::Value) -> (r: String)
    ensures
        r@ == json_pretty(value_contents(*v)),
{
    serde_json::to_string_pretty(v).unwrap_or_default()
}

impl Json {
    /// The value that a serde_json tree holds.
    pub fn from_value(v: serde_json::Value) -> (r: Json)
        ensures
            r@ == value_contents(v),
            printed(r),
        decreases value_contents(v),
    {
        let ghost whole = value_contents(v);
        match take_apart(v) {
            Shape::Null => Json::Null,
            Shape::Bool(b) => Json::Bool(b),
            Shape::PosInt(u) => Json::Number(JsonNumber::PosInt(u)),
            Shape::NegInt(i) => Json::Number(JsonNumber::NegInt(i)),
            Shape::Float(f) => Json::Number(JsonNumber::Float(f)),
            Shape::Str(t) => Json::Str(t),
            Shape::Items(items) => {
                let ghost all = items@;
                let mut items = items;
                let mut out: Vec<Json> = Vec::new();
                assert(all.skip(0) =~= all);
                while items.len() > 0
                    invariant
                        out@.len() <= all.len(),
                        items@ == all.skip(out@.len() as int),
                        forall|i: int|
                            0 <= i < out@.len() ==> (#[trigger] out@[i])@ == value_contents(all[i]),
                        whole == value_contents(v),
                        whole == JsonView::Array(
                            Seq::new(all.len(), |i: int| value_contents(all[i])),
                        ),
                    decreases items@.len(),
                {
                    let item = items.remove(0);
                    proof {
                        let n = out@.len() as int;
                        assert(item == all[n]);
                        assert(whole->Array_0[n] == value_contents(item));
                        assert(decreases_to!(whole => whole->Array_0));
                        assert(decreases_to!(whole->Array_0 => whole->Array_0[n]));
                        assert(all.skip(n).remove(0) =~= all.skip(n + 1));
                    }
                    out.push(Json::from_value(item));
                }
                let r = Json::Array(out);
                assert(r@->Array_0 =~= whole->Array_0);
                r
            },
            Shape::Entries(entries) => {
                let ghost all = entries@;
                let mut entries = entries;
                let mut out: NameMap<Json> = NameMap::new();
                assert(all.skip(0) =~= all);
                while entries.len() > 0
                    invariant
                        names::ascending(all),
                        out@.len() <= all.len(),
                        entries@ == all.skip(out@.len() as int),
                        forall|i: int|
                            0 <= i < out@.len() ==> (#[trigger] out@[i]).0@ == all[i].0@
                                && out@[i].1@ == value_contents(all[i].1),
                        whole == value_contents(v),
                        whole == JsonView::Object(
                            Seq::new(all.len(), |i: int| (all[i].0@, value_contents(all[i].1))),
                        ),
                    decreases entries@.len(),
                {
                    let (key, item) = entries.remove(0);
                    proof {
                        let n = out@.len() as int;
                        assert(item == all[n].1);
                        assert(whole->Object_0[n].1 == value_contents(item));
                        assert(decreases_to!(whole => whole->Object_0));
                        assert(decreases_to!(whole->Object_0 => whole->Object_0[n]));
                        assert(decreases_to!(whole->Object_0[n] => whole->Object_0[n].1));
                        assert(all.skip(n).remove(0) =~= all.skip(n + 1));
                    }
                    let value = Json::from_value(item);
                    proof {
                        names::lemma_put_last(out@, key, value);
                    }
                    out.insert(key, value);
                }
                let r = Json::Object(out);
                assert(r@->Object_0 =~= whole->Object_0);
                r
            },
        }
    }

    /// The serde_json tree of this value.
    pub fn to_value(&self) -> (r: serde_json::Value)
        ensures
            value_contents(r) == self@,
        decreases *self,
    {
        match self {
            Json::Null => put_together(Shape::Null),
            Json::Bool(b) => put_together(Shape::Bool(*b)),
            Json::Number(JsonNumber::PosInt(u)) => put_together(Shape::PosInt(*u)),
            Json::Number(JsonNumber::NegInt(i)) => put_together(Shape::NegInt(*i)),
            Json::Number(JsonNumber::Float(f)) => put_together(Shape::Float(f.copy())),
            Json::Str(t) => put_together(Shape::Str(t.clone())),
            Json::Array(v) => {
                let mut out: Vec<serde_json::Value> = Vec::new();
                let mut i: usize = 0;
                while i < v.len()
                    invariant
                        i <= v@.len(),
                        out@.len() == i,
                        forall|j: int| 0 <= j < i ==> value_contents(#[trigger] out@[j]) == v@[j]@,
                        *self == Json::Array(*v),
                    decreases v@.len() - i,
                {
                    proof {
                        assert(decreases_to!(*self => self->Array_0));
                        assert(decreases_to!(self->Array_0 => self->Array_0@));
                        assert(decreases_to!(self->Array_0@ => self->Array_0@[i as int]));
                    }
                    out.push(v[i].to_value());
                    i = i + 1;
                }
                let ghost level = Shape::Items(out);
                assert(shape_contents(level)->Array_0 =~= self@->Array_0);
                put_together(Shape::Items(out))
            },
            Json::Object(m) => {
                let mut out: Vec<(String, serde_json::Value)> = Vec::new();
                let n = m.len();
                let mut i: usize = 0;
                while i < n
                    invariant
                        i <= n,
                        n == m@.len(),
                        out@.len() == i,
                        forall|j: int|
                            0 <= j < i ==> (#[trigger] out@[j]).0@ == m@[j].0@ && value_contents(
                                out@[j].1,
                            ) == m@[j].1@,
                        *self == Json::Object(*m),
                    decreases n - i,
                {
                    proof {
                        names::lemma_value_decreases(*m, i as int);
                        assert(decreases_to!(*self => self->Object_0));
                    }
                    out.push((m.name(i).clone(), m.value(i).to_value()));
                    i = i + 1;
                }
                let ghost level = Shape::Entries(out);
                assert(names::ascending(out@)) by {
                    assert forall|i: int, j: int|
                        0 <= i < j < out@.len() implies <String as Ranked>::goes_before(
                        out@[i].0@,
                        out@[j].0@,
                    ) by {
                        assert(<String as Ranked>::goes_before(m@[i].0@, m@[j].0@));
                    }
                }
                assert(shape_contents(level)->Object_0 =~= self@->Object_0);
                put_together(Shape::Entries(out))
            },
        }
    }

    /// Reads a JSON document.
    pub fn parse(bytes: &[u8]) -> (r: Result<Json, String>)
        ensures
            json_document(bytes@) == match r {
                Ok(j) => Ok(j@),
                Err(e) => Err(e@),
            },
            r matches Ok(j) ==> printed(j),
    {
        match read_value(bytes) {
            Ok(v) => Ok(Json::from_value(v)),
            Err(e) => Err(e),
        }
    }

    /// The value as compact JSON.
    pub fn to_string(&self) -> (r: String)
        ensures
            r@ == json_text(self@),
            reads_back(r@, self@),
    {
        write_value(&self.to_value())
    }

    /// The value as indented JSON.
    pub fn to_string_pretty(&self) -> (r: String)
        ensures
            r@ == json_pretty(self@),
    {
        write_value_pretty(&self.to_value())
    }

    /// A string value.
    pub fn str(s: &str) -> (r: Json)
        ensures
            r@ == JsonView::Str(s@),
    {
        Json::Str(s.to_owned())
    }

    /// An integer value.
    pub fn from_int(i: i64) -> (r: Json)
        ensures
            r@ == JsonView::Int(i as int),
            r is Number && !(r->Number_0 is Float),
    {
        if i >= 0 {
            Json::Number(JsonNumber::PosInt(i as u64))
        } else {
            Json::Number(JsonNumber::NegInt(i))
        }
    }

    /// The same value once more.
    pub fn copy(&self) -> (r: Json)
        ensures
            r@ == self@,
        decreases *self,
    {
        match self {
            Json::Null => Json::Null,
            Json::Bool(b) => Json::Bool(*b),
            Json::Number(JsonNumber::PosInt(u)) => Json::Number(JsonNumber::PosInt(*u)),
            Json::Number(JsonNumber::NegInt(i)) => Json::Number(JsonNumber::NegInt(*i)),
            Json::Number(JsonNumber::Float(f)) => Json::Number(JsonNumber::Float(f.copy())),
            Json::Str(t) => Json::Str(t.clone()),
            Json::Array(v) => {
                let mut out: Vec<Json> = Vec::new();
                let mut i: usize = 0;
                while i < v.len()
                    invariant
                        i <= v@.len(),
                        out@.len() == i,
                        forall|j: int| 0 <= j < i ==> (#[trigger] out@[j])@ == v@[j]@,
                        *self == Json::Array(*v),
                    decreases v@.len() - i,
                {
                    proof {
                        assert(decreases_to!(*self => self->Array_0));
                        assert(decreases_to!(self->Array_0 => self->Array_0@));
                        assert(decreases_to!(self->Array_0@ => self->Array_0@[i as int]));
                    }
                    out.push(v[i].copy());
                    i = i + 1;
                }
                let r = Json::Array(out);
                assert(r@->Array_0 =~= self@->Array_0);
                r
            },
            Json::Object(m) => {
                let mut out: NameMap<Json> = NameMap::new();
                let n = m.len();
                let mut i: usize = 0;
                while i < n
                    invariant
                        i <= n,
                        n == m@.len(),
                        names::ascending(m@),
                        out@.len() == i,
                        forall|j: int|
                            0 <= j < i ==> (#[trigger] out@[j]).0@ == m@[j].0@ && out@[j].1@
                                == m@[j].1@,
                        *self == Json::Object(*m),
                    decreases n - i,
                {
                    proof {
                        names::lemma_value_decreases(*m, i as int);
                        assert(decreases_to!(*self => self->Object_0));
                    }
                    let key = m.name(i).clone();
                    let value = m.value(i).copy();
                    proof {
                        names::lemma_put_last(out@, key, value);
                    }
                    out.insert(key, value);
                    i = i + 1;
                }
                let r = Json::Object(out);
                assert(r@->Object_0 =~= self@->Object_0);
                r
            },
        }
    }

    /// Whether the two values are equal.
    pub fn same(&self, other: &Json) -> (r: bool)
        ensures
            r == json_same(self@, other@),
        decreases *self,
    {
        proof {
            lemma_all_finite(*self);
            lemma_all_finite(*other);
        }
        match (self, other) {
            (Json::Bool(a), Json::Bool(b)) => *a == *b,
            (Json::Str(a), Json::Str(b)) => str_eq(a.as_str(), b.as_str()),
            (Json::Array(a), Json::Array(b)) => {
                if a.len() != b.len() {
                    return false;
                }
                let mut i: usize = 0;
                while i < a.len()
                    invariant
                        i <= a@.len(),
                        a@.len() == b@.len(),
                        forall|j: int| 0 <= j < i ==> json_same((#[trigger] a@[j])@, b@[j]@),
                        *self == Json::Array(*a),
                        *other == Json::Array(*b),
                    decreases a@.len() - i,
                {
                    proof {
                        assert(decreases_to!(*self => self->Array_0));
                        assert(decreases_to!(self->Array_0 => self->Array_0@));
                        assert(decreases_to!(self->Array_0@ => self->Array_0@[i as int]));
                    }
                    if !a[i].same(&b[i]) {
                        assert(!json_same(self@->Array_0[i as int], other@->Array_0[i as int]));
                        return false;
                    }
                    i = i + 1;
                }
                assert forall|j: int| 0 <= j < a@.len() implies json_same(
                    #[trigger] self@->Array_0[j],
                    other@->Array_0[j],
                ) by {
                    assert(json_same(a@[j]@, b@[j]@));
                }
                true
            },
            (Json::Object(a), Json::Object(b)) => {
                let n = a.len();
                if n != b.len() {
                    return false;
                }
                let mut i: usize = 0;
                while i < n
                    invariant
                        i <= n,
                        n == a@.len(),
                        a@.len() == b@.len(),
                        forall|j: int|
                            0 <= j < i ==> (#[trigger] a@[j]).0@ == b@[j].0@ && json_same(
                                a@[j].1@,
                                b@[j].1@,
                            ),
                        *self == Json::Object(*a),
                        *other == Json::Object(*b),
                    decreases n - i,
                {
                    proof {
                        names::lemma_value_decreases(*a, i as int);
                        assert(decreases_to!(*self => self->Object_0));
                    }
                    if !(str_eq(a.name(i).as_str(), b.name(i).as_str()) && a.value(i).same(
                        b.value(i),
                    )) {
                        assert(!(self@->Object_0[i as int].0 == other@->Object_0[i as int].0
                            && json_same(
                            self@->Object_0[i as int].1,
                            other@->Object_0[i as int].1,
                        )));
                        return false;
                    }
                    i = i + 1;
                }
                assert forall|j: int| 0 <= j < a@.len() implies (#[trigger] self@->Object_0[j]).0
                    == other@->Object_0[j].0 && json_same(
                    self@->Object_0[j].1,
                    other@->Object_0[j].1,
                ) by {
                    assert(a@[j].0@ == b@[j].0@ && json_same(a@[j].1@, b@[j].1@));
                }
                true
            },
            _ => self.same_scalar(other),
        }
    }

    /// Whether the two values are equal, where they are null or numbers or of
    /// different sorts.
    fn same_scalar(&self, other: &Json) -> (r: bool)
        requires
            !(self is Bool && other is Bool),
            !(self is Str && other is Str),
            !(self is Array && other is Array),
            !(self is Object && other is Object),
        ensures
            r == json_same(self@, other@),
    {
        if self.is_null() || other.is_null() {
            return self.is_null() && other.is_null();
        }
        match (self, other) {
            (Json::Number(a), Json::Number(b)) => match (a, b) {
                (JsonNumber::PosInt(x), JsonNumber::PosInt(y)) => *x == *y,
                (JsonNumber::NegInt(x), JsonNumber::NegInt(y)) => *x == *y,
                (JsonNumber::PosInt(x), JsonNumber::NegInt(y)) => *x as i128 == *y as i128,
                (JsonNumber::NegInt(x), JsonNumber::PosInt(y)) => *x as i128 == *y as i128,
                (JsonNumber::Float(x), JsonNumber::Float(y)) => x.equals(y),
                _ => false,
            },
            _ => false,
        }
    }

    /// Whether the value stands for null.
    pub fn is_null(&self) -> (r: bool)
        ensures
            r == (self@ is Null),
    {
        match self {
            Json::Null => true,
            Json::Number(JsonNumber::Float(f)) => !f.is_finite(),
            _ => false,
        }
    }

    /// The boolean, where the value is one.
    pub fn as_bool(&self) -> (r: Option<bool>)
        ensures
            r == match self@ {
                JsonView::Bool(b) => Some(b),
                _ => None,
            },
    {
        match self {
            Json::Bool(b) => Some(*b),
            _ => None,
        }
    }

    /// The integer, where the value is one that fits in 64 signed bits.
    pub fn as_i64(&self) -> (r: Option<i64>)
        ensures
            match r {
                Some(i) => self@ == JsonView::Int(i as int),
                None => !(self@ is Int) || self@->Int_0 > i64::MAX,
            },
    {
        match self {
            Json::Number(JsonNumber::PosInt(u)) => if *u <= i64::MAX as u64 {
                Some(*u as i64)
            } else {
                None
            },
            Json::Number(JsonNumber::NegInt(i)) => Some(*i),
            _ => None,
        }
    }

    /// The number as a float, where the value is a number.
    pub fn as_real(&self) -> (r: Option<Real>)
        ensures
            match (self, r) {
                (Json::Number(JsonNumber::PosInt(u)), Some(x)) => x.text@ == floats::float_of_int(
                    *u as int,
                ),
                (Json::Number(JsonNumber::NegInt(i)), Some(x)) => x.text@ == floats::float_of_int(
                    *i as int,
                ),
                (Json::Number(JsonNumber::Float(f)), Some(x)) => x == *f && self@ is Float,
                (_, Some(_)) => false,
                (_, None) => !(self@ is Int || self@ is Float),
            },
    {
        match self {
            Json::Number(JsonNumber::PosInt(u)) => Some(Real::from_int(*u as i128)),
            Json::Number(JsonNumber::NegInt(i)) => Some(Real::from_int(*i as i128)),
            Json::Number(JsonNumber::Float(f)) => if f.is_finite() {
                Some(f.copy())
            } else {
                None
            },
            _ => None,
        }
    }

    /// The text, where the value is a string.
    pub fn as_str(&self) -> (r: Option<&str>)
        ensures
            match r {
                Some(s) => self@ == JsonView::Str(s@),
                None => !(self@ is Str),
            },
    {
        match self {
            Json::Str(s) => Some(s.as_str()),
            _ => None,
        }
    }
}

} // verus!

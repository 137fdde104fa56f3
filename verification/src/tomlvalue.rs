//! TOML values, read by the toml crate.

use crate::floats;
use crate::floats::Real;
use crate::names;
use crate::names::NameMap;
use crate::text;
use crate::text::str_eq;
use vstd::prelude::*;
use vstd::utf8;

verus! {

broadcast use crate::text::group_views;

/// A TOML value with the text that writes it.
#[derive(Debug, PartialEq, Eq)]
pub struct TomlValue {
    pub text: String,
    pub data: TomlData,
}

/// What sort of value it is. The entries of a table are sorted by key. A
/// date or time is told apart by its text alone.
#[derive(Debug, PartialEq, Eq)]
pub enum TomlData {
    Str(String),
    Integer(i64),
    Float(Real),
    Boolean(bool),
    Datetime,
    Array(Vec<TomlValue>),
    Table(NameMap<TomlValue>),
}

/// What a TOML value stands for.
pub struct TomlView {
    pub text: Seq<char>,
    pub data: TomlDataView,
}

/// What sort of value it is.
pub enum TomlDataView {
    Str(Seq<char>),
    Integer(int),
    Float(Seq<char>),
    Boolean(bool),
    Datetime,
    Array(Seq<TomlView>),
    Table(Seq<(Seq<char>, TomlView)>),
}

impl View for TomlValue {
    type V = TomlView;

    open spec fn view(&self) -> TomlView {
        toml_view(*self)
    }
}

/// What a TOML value stands for.
pub open spec fn toml_view(t: TomlValue) -> TomlView
    decreases t,
{
    proof {
        broadcast use crate::names::lemma_value_decreases;

    }
    TomlView {
        text: t.text@,
        data: match t.data {
            TomlData::Str(s) => TomlDataView::Str(s@),
            TomlData::Integer(i) => TomlDataView::Integer(i as int),
            TomlData::Float(f) => TomlDataView::Float(f.text@),
            TomlData::Boolean(b) => TomlDataView::Boolean(b),
            TomlData::Datetime => TomlDataView::Datetime,
            TomlData::Array(v) => TomlDataView::Array(
                Seq::new(
                    v@.len(),
                    |i: int|
                        if 0 <= i < v@.len() {
                            toml_view(v@[i])
                        } else {
                            no_value()
                        },
                ),
            ),
            TomlData::Table(m) => TomlDataView::Table(
                Seq::new(
                    m@.len(),
                    |i: int|
                        if 0 <= i < m@.len() {
                            (m@[i].0@, toml_view(m@[i].1))
                        } else {
                            (Seq::empty(), no_value())
                        },
                ),
            ),
        },
    }
}

/// A value that stands where there is none.
pub open spec fn no_value() -> TomlView {
    TomlView { text: Seq::empty(), data: TomlDataView::Datetime }
}

/// Whether two values are equal: floats as numbers, dates and times by their
/// text, the rest part by part.
pub open spec fn toml_same(a: TomlView, b: TomlView) -> bool
    decreases a,
{
    match (a.data, b.data) {
        (TomlDataView::Float(x), TomlDataView::Float(y)) => floats::float_eq(
            floats::float_bits(x),
            floats::float_bits(y),
        ),
        (TomlDataView::Datetime, TomlDataView::Datetime) => a.text == b.text,
        (TomlDataView::Array(x), TomlDataView::Array(y)) => {
            &&& x.len() == y.len()
            &&& forall|i: int| 0 <= i < x.len() ==> toml_same(#[trigger] x[i], y[i])
        },
        (TomlDataView::Table(x), TomlDataView::Table(y)) => {
            &&& x.len() == y.len()
            &&& forall|i: int|
                0 <= i < x.len() ==> (#[trigger] x[i]).0 == y[i].0 && toml_same(x[i].1, y[i].1)
        },
        _ => a.data == b.data,
    }
}

/// The value as a reader sees it: a string without its quotes, anything else
/// as it is written.
pub open spec fn shown(v: TomlView) -> Seq<char> {
    match v.data {
        TomlDataView::Str(s) => s,
        _ => v.text,
    }
}

/// The toml crate's value tree.
#[verifier::external_type_specification]
#[verifier::external_body]
pub struct ExTomlValue(toml::Value);

/// One level of a value tree.
pub enum TomlShape {
    Str(String),
    Integer(i64),
    Float(Real),
    Boolean(bool),
    Datetime,
    Items(Vec<toml::Value>),
    Entries(Vec<(String, toml::Value)>),
}

/// What a value tree holds.
pub uninterp spec fn tree_contents(v: toml::Value) -> TomlView;

/// What the toml crate reads out of a document, where it is valid.
pub uninterp spec fn toml_document(text: Seq<char>) -> Option<TomlView>;

/// What one level stands for.
pub open spec fn shape_data(s: TomlShape) -> TomlDataView {
    match s {
        TomlShape::Str(t) => TomlDataView::Str(t@),
        TomlShape::Integer(i) => TomlDataView::Integer(i as int),
        TomlShape::Float(f) => TomlDataView::Float(f.text@),
        TomlShape::Boolean(b) => TomlDataView::Boolean(b),
        TomlShape::Datetime => TomlDataView::Datetime,
        TomlShape::Items(v) => TomlDataView::Array(Seq::new(v@.len(), |i: int| tree_contents(v@[i]))),
        TomlShape::Entries(m) => TomlDataView::Table(
            Seq::new(m@.len(), |i: int| (m@[i].0@, tree_contents(m@[i].1))),
        ),
    }
}

/// Matches on a `toml::Value`: the level returned stands for what the value
/// holds. The entries of a table come in the order of their keys, as the map
/// walks them; a float is handed over as std prints it.
#[verifier::external_body]
fn take_apart(v: toml::Value) -> (r: TomlShape)
    ensures
        shape_data(r) == tree_contents(v).data,
        r matches TomlShape::Entries(m) ==> names::ascending(m@),
{
    match v {
        toml::Value::String(s) => TomlShape::Str(s),
        toml::Value::Integer(i) => TomlShape::Integer(i),
        toml::Value::Float(f) => TomlShape::Float(Real { text: f.to_string() }),
        toml::Value::Boolean(b) => TomlShape::Boolean(b),
        toml::Value::Datetime(_) => TomlShape::Datetime,
        toml::Value::Array(items) => TomlShape::Items(items),
        toml::Value::Table(table) => TomlShape::Entries(table.into_iter().collect()),
    }
}

/// Calls `to_string` of a `toml::Value`, which writes the value inline. The
/// text is part of what the value holds.
#[verifier::external_body]
fn write_tree(v: &toml::Value) -> (r: String)
    ensures
        r@ == tree_contents(*v).text,
{
    v.to_string()
}

/// Calls `toml::from_str` for a `Value`. Whether the text is a document, and
/// what the document holds, is a function of the text alone.
#[verifier::external_body]
fn read_tree(text: &str) -> (r: Option<toml::Value>)
    ensures
        toml_document(text@) == match r {
            Some(v) => Some(tree_contents(v)),
            None => None,
        },
{
    toml::from_str(text).ok()
}

/// Calls `std::str::from_utf8`, which accepts exactly the valid UTF-8 texts
/// and hands over the text.
#[verifier::external_body]
fn text_of_bytes(bytes: &[u8]) -> (r: Option<String>)
    ensures
        match r {
            Some(s) => utf8::valid_utf8(bytes@) && s@ == utf8::decode_utf8(bytes@),
            None => !utf8::valid_utf8(bytes@),
        },
{
    std::str::from_utf8(bytes).ok().map(|s| s.to_string())
}

/// The document that the bytes hold, where they are UTF-8 and valid TOML.
pub open spec fn document(bytes: Seq<u8>) -> Option<TomlView> {
    if utf8::valid_utf8(bytes) {
        toml_document(utf8::decode_utf8(bytes))
    } else {
        None
    }
}

/// The value under `key`, where the value is a table that has it.
pub open spec fn member(v: TomlView, key: Seq<char>) -> Option<TomlView> {
    match v.data {
        TomlDataView::Table(m) => entry(m, key),
        _ => None,
    }
}

/// The value under `key`.
pub open spec fn entry(m: Seq<(Seq<char>, TomlView)>, key: Seq<char>) -> Option<TomlView>
    decreases m.len(),
{
    if m.len() == 0 {
        None
    } else if m[0].0 == key {
        Some(m[0].1)
    } else {
        entry(m.drop_first(), key)
    }
}

/// The entries of a table as they stand for.
pub open spec fn entries_view(s: Seq<(String, TomlValue)>) -> Seq<(Seq<char>, TomlView)> {
    Seq::new(s.len(), |i: int| (s[i].0@, s[i].1@))
}

/// Looking up among the entries is looking up among what they stand for.
pub proof fn lemma_entry(s: Seq<(String, TomlValue)>, key: Seq<char>)
    ensures
        entry(entries_view(s), key) == match names::lookup(s, key) {
            Some(v) => Some(v@),
            None => None,
        },
    decreases s.len(),
{
    if s.len() > 0 {
        lemma_entry(s.drop_first(), key);
        assert(entries_view(s).drop_first() =~= entries_view(s.drop_first()));
    }
}

impl TomlValue {
    /// The value that a tree of the toml crate holds.
    pub fn from_value(v: toml::Value) -> (r: TomlValue)
        ensures
            r@ == tree_contents(v),
        decreases tree_contents(v),
    {
        let ghost whole = tree_contents(v);
        let text = write_tree(&v);
        let data = match take_apart(v) {
            TomlShape::Str(t) => TomlData::Str(t),
            TomlShape::Integer(i) => TomlData::Integer(i),
            TomlShape::Float(f) => TomlData::Float(f),
            TomlShape::Boolean(b) => TomlData::Boolean(b),
            TomlShape::Datetime => TomlData::Datetime,
            TomlShape::Items(items) => {
                let ghost all = items@;
                let mut items = items;
                let mut out: Vec<TomlValue> = Vec::new();
                assert(all.skip(0) =~= all);
                while items.len() > 0
                    invariant
                        out@.len() <= all.len(),
                        items@ == all.skip(out@.len() as int),
                        forall|i: int|
                            0 <= i < out@.len() ==> (#[trigger] out@[i])@ == tree_contents(all[i]),
                        whole == tree_contents(v),
                        whole.data == TomlDataView::Array(
                            Seq::new(all.len(), |i: int| tree_contents(all[i])),
                        ),
                    decreases items@.len(),
                {
                    let item = items.remove(0);
                    proof {
                        let n = out@.len() as int;
                        assert(item == all[n]);
                        assert(whole.data->Array_0[n] == tree_contents(item));
                        assert(decreases_to!(whole => whole.data));
                        assert(decreases_to!(whole.data => whole.data->Array_0));
                        assert(decreases_to!(whole.data->Array_0 => whole.data->Array_0[n]));
                        assert(all.skip(n).remove(0) =~= all.skip(n + 1));
                    }
                    out.push(TomlValue::from_value(item));
                }
                TomlData::Array(out)
            },
            TomlShape::Entries(entries) => {
                let ghost all = entries@;
                let mut entries = entries;
                let mut out: NameMap<TomlValue> = NameMap::new();
                assert(all.skip(0) =~= all);
                while entries.len() > 0
                    invariant
                        names::ascending(all),
                        out@.len() <= all.len(),
                        entries@ == all.skip(out@.len() as int),
                        forall|i: int|
                            0 <= i < out@.len() ==> (#[trigger] out@[i]).0@ == all[i].0@
                                && out@[i].1@ == tree_contents(all[i].1),
                        whole == tree_contents(v),
                        whole.data == TomlDataView::Table(
                            Seq::new(all.len(), |i: int| (all[i].0@, tree_contents(all[i].1))),
                        ),
                    decreases entries@.len(),
                {
                    let (key, item) = entries.remove(0);
                    proof {
                        let n = out@.len() as int;
                        assert(item == all[n].1);
                        assert(whole.data->Table_0[n].1 == tree_contents(item));
                        assert(decreases_to!(whole => whole.data));
                        assert(decreases_to!(whole.data => whole.data->Table_0));
                        assert(decreases_to!(whole.data->Table_0 => whole.data->Table_0[n]));
                        assert(decreases_to!(whole.data->Table_0[n] => whole.data->Table_0[n].1));
                        assert(all.skip(n).remove(0) =~= all.skip(n + 1));
                    }
                    let value = TomlValue::from_value(item);
                    proof {
                        names::lemma_put_last(out@, key, value);
                    }
                    out.insert(key, value);
                }
                TomlData::Table(out)
            },
        };
        let r = TomlValue { text, data };
        proof {
            match whole.data {
                TomlDataView::Array(x) => {
                    assert(r@.data->Array_0 =~= x);
                },
                TomlDataView::Table(x) => {
                    assert(r@.data->Table_0 =~= x);
                },
                _ => {},
            }
        }
        r
    }

    /// Reads a TOML document out of its bytes.
    pub fn parse(bytes: &[u8]) -> (r: Option<TomlValue>)
        ensures
            document(bytes@) == match r {
                Some(v) => Some(v@),
                None => None,
            },
    {
        match text_of_bytes(bytes) {
            Some(text) => match read_tree(text.as_str()) {
                Some(v) => Some(TomlValue::from_value(v)),
                None => None,
            },
            None => None,
        }
    }

    /// The value under `key`, where this is a table that has it.
    pub fn get(&self, key: &str) -> (r: Option<&TomlValue>)
        ensures
            match r {
                Some(v) => member(self@, key@) == Some(v@),
                None => member(self@, key@) == None::<TomlView>,
            },
            r matches Some(v) ==> self.data is Table && names::lookup(self.data->Table_0@, key@)
                == Some(*v),
    {
        match &self.data {
            TomlData::Table(m) => {
                proof {
                    lemma_entry(m@, key@);
                    assert(self@.data->Table_0 =~= entries_view(m@));
                }
                m.get(key)
            },
            _ => None,
        }
    }

    /// The text, where the value is a string.
    pub fn as_str(&self) -> (r: Option<&str>)
        ensures
            match r {
                Some(s) => self@.data == TomlDataView::Str(s@),
                None => !(self@.data is Str),
            },
    {
        match &self.data {
            TomlData::Str(s) => Some(s.as_str()),
            _ => None,
        }
    }

    /// Whether the two values are equal.
    pub fn same(&self, other: &TomlValue) -> (r: bool)
        ensures
            r == toml_same(self@, other@),
        decreases *self,
    {
        match (&self.data, &other.data) {
            (TomlData::Str(a), TomlData::Str(b)) => str_eq(a.as_str(), b.as_str()),
            (TomlData::Integer(a), TomlData::Integer(b)) => *a == *b,
            (TomlData::Float(a), TomlData::Float(b)) => a.equals(b),
            (TomlData::Boolean(a), TomlData::Boolean(b)) => *a == *b,
            (TomlData::Datetime, TomlData::Datetime) => str_eq(
                self.text.as_str(),
                other.text.as_str(),
            ),
            (TomlData::Array(a), TomlData::Array(b)) => {
                if a.len() != b.len() {
                    return false;
                }
                let mut i: usize = 0;
                while i < a.len()
                    invariant
                        i <= a@.len(),
                        a@.len() == b@.len(),
                        forall|j: int| 0 <= j < i ==> toml_same((#[trigger] a@[j])@, b@[j]@),
                        self.data == TomlData::Array(*a),
                        other.data == TomlData::Array(*b),
                    decreases a@.len() - i,
                {
                    proof {
                        assert(decreases_to!(*self => self.data));
                        assert(decreases_to!(self.data => self.data->Array_0));
                        assert(decreases_to!(self.data->Array_0 => self.data->Array_0@));
                        assert(decreases_to!(self.data->Array_0@ => self.data->Array_0@[i as int]));
                    }
                    if !a[i].same(&b[i]) {
                        assert(!toml_same(
                            self@.data->Array_0[i as int],
                            other@.data->Array_0[i as int],
                        ));
                        return false;
                    }
                    i = i + 1;
                }
                assert forall|j: int| 0 <= j < a@.len() implies toml_same(
                    #[trigger] self@.data->Array_0[j],
                    other@.data->Array_0[j],
                ) by {
                    assert(toml_same(a@[j]@, b@[j]@));
                }
                true
            },
            (TomlData::Table(a), TomlData::Table(b)) => {
                let n = a.len();
                if n != b.len() {
                    return false;
                }
                let mut i: usize = 0;
                while i < n
                    invariant
                        i <= n,
                        n == a@.len(),
                        a@.len() == b@.len(),
                        forall|j: int|
                            0 <= j < i ==> (#[trigger] a@[j]).0@ == b@[j].0@ && toml_same(
                                a@[j].1@,
                                b@[j].1@,
                            ),
                        self.data == TomlData::Table(*a),
                        other.data == TomlData::Table(*b),
                    decreases n - i,
                {
                    proof {
                        names::lemma_value_decreases(*a, i as int);
                        assert(decreases_to!(*self => self.data));
                        assert(decreases_to!(self.data => self.data->Table_0));
                    }
                    if !(str_eq(a.name(i).as_str(), b.name(i).as_str()) && a.value(i).same(
                        b.value(i),
                    )) {
                        assert(!(self@.data->Table_0[i as int].0 == other@.data->Table_0[i as int].0
                            && toml_same(
                            self@.data->Table_0[i as int].1,
                            other@.data->Table_0[i as int].1,
                        )));
                        return false;
                    }
                    i = i + 1;
                }
                assert forall|j: int| 0 <= j < a@.len() implies (#[trigger] self@.data->Table_0[j]).0
                    == other@.data->Table_0[j].0 && toml_same(
                    self@.data->Table_0[j].1,
                    other@.data->Table_0[j].1,
                ) by {
                    assert(a@[j].0@ == b@[j].0@ && toml_same(a@[j].1@, b@[j].1@));
                }
                true
            },
            _ => false,
        }
    }
}

} // verus!

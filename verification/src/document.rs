//! Building JSON documents and reading members out of them.

use crate::json::Json;
use crate::json::JsonNumber;
use crate::json::JsonView;
use crate::names;
use crate::names::NameMap;
use crate::order::Ranked;
use crate::text;
use vstd::prelude::*;

verus! {

broadcast use crate::text::group_views;

/// What the entries of an object stand for.
pub open spec fn entries_view(s: Seq<(String, Json)>) -> Seq<(Seq<char>, JsonView)> {
    Seq::new(s.len(), |i: int| (s[i].0@, s[i].1@))
}

/// `s` with `value` under `name`, in the place the name's order gives it.
pub open spec fn placed(s: Seq<(Seq<char>, JsonView)>, name: Seq<char>, value: JsonView) -> Seq<
    (Seq<char>, JsonView),
>
    decreases s.len(),
{
    if s.len() == 0 || text::lex_lt(name, s[0].0) {
        seq![(name, value)] + s
    } else if s[0].0 == name {
        seq![(name, value)] + s.drop_first()
    } else {
        seq![s[0]] + placed(s.drop_first(), name, value)
    }
}

/// The fields in the order of their names, the last of each name.
pub open spec fn sorted_fields(fields: Seq<(Seq<char>, JsonView)>) -> Seq<(Seq<char>, JsonView)>
    decreases fields.len(),
{
    if fields.len() == 0 {
        Seq::empty()
    } else {
        placed(sorted_fields(fields.drop_last()), fields.last().0, fields.last().1)
    }
}

/// The object with these fields.
pub open spec fn object_of(fields: Seq<(Seq<char>, JsonView)>) -> JsonView {
    JsonView::Object(sorted_fields(fields))
}

/// The value under `name`.
pub open spec fn entry(m: Seq<(Seq<char>, JsonView)>, name: Seq<char>) -> Option<JsonView>
    decreases m.len(),
{
    if m.len() == 0 {
        None
    } else if m[0].0 == name {
        Some(m[0].1)
    } else {
        entry(m.drop_first(), name)
    }
}

/// The value under `name`, where the value is an object that has it.
pub open spec fn member(v: JsonView, name: Seq<char>) -> Option<JsonView> {
    match v {
        JsonView::Object(m) => entry(m, name),
        _ => None,
    }
}

/// The text under `name`, where the value is an object that has one there.
pub open spec fn text_member(v: JsonView, name: Seq<char>) -> Option<Seq<char>> {
    match member(v, name) {
        Some(JsonView::Str(s)) => Some(s),
        _ => None,
    }
}

proof fn lemma_put_placed(s: Seq<(String, Json)>, name: String, value: Json)
    ensures
        entries_view(names::put(s, name, value)) == placed(entries_view(s), name@, value@),
    decreases s.len(),
{
    let v = entries_view(s);
    let p = entries_view(names::put(s, name, value));
    if s.len() == 0 || <String as Ranked>::goes_before(name@, s[0].0@) {
        assert(p =~= seq![(name@, value@)] + v);
    } else if s[0].0@ == name@ {
        assert(p =~= seq![(name@, value@)] + v.drop_first());
    } else {
        let d = s.drop_first();
        lemma_put_placed(d, name, value);
        assert(entries_view(d) =~= v.drop_first());
        assert(p =~= seq![v[0]] + entries_view(names::put(d, name, value)));
    }
}

proof fn lemma_entry(s: Seq<(String, Json)>, name: Seq<char>)
    ensures
        entry(entries_view(s), name) == match names::lookup(s, name) {
            Some(v) => Some(v@),
            None => None,
        },
    decreases s.len(),
{
    if s.len() > 0 {
        lemma_entry(s.drop_first(), name);
        assert(entries_view(s).drop_first() =~= entries_view(s.drop_first()));
    }
}

/// A field of an object.
pub fn field(name: &str, value: Json) -> (r: (String, Json))
    ensures
        r@ == (name@, value@),
{
    (name.to_owned(), value)
}

impl Json {
    /// The object with these fields.
    pub fn object(fields: Vec<(String, Json)>) -> (r: Json)
        ensures
            r@ == object_of(text::views(fields@)),
            r is Object,
    {
        let ghost all = fields@;
        let ghost want = text::views(all);
        let mut rest = fields;
        let mut m: NameMap<Json> = NameMap::new();
        let ghost mut done: int = 0;
        proof {
            assert(want.take(0) =~= Seq::empty());
            assert(entries_view(m@) =~= sorted_fields(want.take(0)));
            assert(all.skip(0) =~= all);
        }
        while rest.len() > 0
            invariant
                0 <= done <= all.len(),
                want == text::views(all),
                rest@ == all.skip(done),
                entries_view(m@) == sorted_fields(want.take(done)),
            decreases rest@.len(),
        {
            let (name, value) = rest.remove(0);
            proof {
                assert((name, value) == all[done]);
                assert(want[done] == (name@, value@));
                let t = want.take(done + 1);
                assert(t.drop_last() =~= want.take(done));
                assert(t.last() == want[done]);
                lemma_put_placed(m@, name, value);
                assert(all.skip(done).remove(0) =~= all.skip(done + 1));
                done = done + 1;
            }
            m.insert(name, value);
        }
        assert(want.take(done) =~= want);
        let r = Json::Object(m);
        assert(r@->Object_0 =~= entries_view(m@));
        r
    }

    /// The array with these items.
    pub fn array(items: Vec<Json>) -> (r: Json)
        ensures
            r@ == JsonView::Array(text::views(items@)),
    {
        let r = Json::Array(items);
        assert(r@->Array_0 =~= text::views(items@));
        r
    }

    /// The value under `name`, where the value is an object that has it.
    pub fn get(&self, name: &str) -> (r: Option<&Json>)
        ensures
            match r {
                Some(v) => member(self@, name@) == Some(v@),
                None => member(self@, name@) is None,
            },
    {
        match self {
            Json::Object(m) => {
                proof {
                    lemma_entry(m@, name@);
                    assert(self@->Object_0 =~= entries_view(m@));
                }
                m.get(name)
            },
            _ => None,
        }
    }

    /// The text under `name`, where the value is an object that has one there.
    pub fn get_str(&self, name: &str) -> (r: Option<&str>)
        ensures
            match r {
                Some(s) => text_member(self@, name@) == Some(s@),
                None => text_member(self@, name@) is None,
            },
    {
        match self.get(name) {
            Some(v) => v.as_str(),
            None => None,
        }
    }

    /// The integer, where the value is one that fits in 64 unsigned bits.
    pub fn as_u64(&self) -> (r: Option<u64>)
        ensures
            match r {
                Some(u) => self@ == JsonView::Int(u as int),
                None => !(self@ is Int) || self@->Int_0 < 0,
            },
    {
        match self {
            Json::Number(JsonNumber::PosInt(u)) => Some(*u),
            Json::Number(JsonNumber::NegInt(i)) => if *i >= 0 {
                Some(*i as u64)
            } else {
                None
            },
            _ => None,
        }
    }

    /// The items, where the value is an array.
    pub fn as_array(&self) -> (r: Option<&Vec<Json>>)
        ensures
            match r {
                Some(v) => self@ == JsonView::Array(text::views(v@)),
                None => !(self@ is Array),
            },
    {
        match self {
            Json::Array(v) => {
                assert(self@->Array_0 =~= text::views(v@));
                Some(v)
            },
            _ => None,
        }
    }

    /// The entries, where the value is an object.
    pub fn as_object(&self) -> (r: Option<&NameMap<Json>>)
        ensures
            match r {
                Some(m) => self@ == JsonView::Object(entries_view(m@)),
                None => !(self@ is Object),
            },
    {
        match self {
            Json::Object(m) => {
                assert(self@->Object_0 =~= entries_view(m@));
                Some(m)
            },
            _ => None,
        }
    }
}

} // verus!

//! Maps from names, or pairs of names, to values, walked in the order of the
//! keys.

use crate::order::Alike;
use crate::order::Ranked;
use crate::text;
use crate::text::str_eq;
use vstd::prelude::*;

verus! {

/// A sorted type whose order tells any two values apart.
pub trait Key: Ranked + Alike {
    proof fn lemma_total(a: Self::V, b: Self::V)
        ensures
            Self::goes_before(a, b) || Self::goes_before(b, a) || a == b,
    ;
}

impl Key for String {
    proof fn lemma_total(a: Seq<char>, b: Seq<char>) {
        text::lemma_lex_total(a, b);
    }
}

impl Ranked for (String, String) {
    open spec fn goes_before(a: (Seq<char>, Seq<char>), b: (Seq<char>, Seq<char>)) -> bool {
        text::lex_lt(a.0, b.0) || a.0 == b.0 && text::lex_lt(a.1, b.1)
    }

    proof fn lemma_order(
        a: (Seq<char>, Seq<char>),
        b: (Seq<char>, Seq<char>),
        c: (Seq<char>, Seq<char>),
    ) {
        <String as Ranked>::lemma_order(a.0, b.0, c.0);
        <String as Ranked>::lemma_order(a.1, b.1, c.1);
        text::lemma_lex_irreflexive(a.0);
        text::lemma_lex_total(a.0, b.0);
        text::lemma_lex_total(b.0, c.0);
        if text::lex_lt(b.0, a.0) && text::lex_lt(c.0, b.0) {
            text::lemma_lex_transitive(c.0, b.0, a.0);
        }
        if text::lex_lt(a.0, c.0) && text::lex_lt(c.0, a.0) {
            text::lemma_lex_transitive(a.0, c.0, a.0);
        }
    }

    fn before(&self, other: &(String, String)) -> (r: bool) {
        self.0.before(&other.0) || (self.0.same(&other.0) && self.1.before(&other.1))
    }
}

impl Alike for (String, String) {
    fn same(&self, other: &(String, String)) -> (r: bool) {
        self.0.same(&other.0) && self.1.same(&other.1)
    }
}

impl Key for (String, String) {
    proof fn lemma_total(a: (Seq<char>, Seq<char>), b: (Seq<char>, Seq<char>)) {
        text::lemma_lex_total(a.0, b.0);
        text::lemma_lex_total(a.1, b.1);
    }
}

/// Entries sorted by key, each key once.
#[derive(Debug, PartialEq, Eq)]
pub struct KeyMap<K: Key, T> {
    entries: Vec<(K, T)>,
}

/// Values by name.
pub type NameMap<T> = KeyMap<String, T>;

/// Values by a pair of names.
pub type PairMap<T> = KeyMap<(String, String), T>;

impl<K: Key, T> View for KeyMap<K, T> {
    type V = Seq<(K, T)>;

    closed spec fn view(&self) -> Seq<(K, T)> {
        self.entries@
    }
}

/// The names ascend strictly.
pub open spec fn ascending<K: Key, T>(s: Seq<(K, T)>) -> bool {
    forall|i: int, j: int| 0 <= i < j < s.len() ==> K::goes_before(s[i].0@, s[j].0@)
}

/// The value under `name`, if there is one.
pub open spec fn lookup<K: Key, T>(s: Seq<(K, T)>, name: K::V) -> Option<T>
    decreases s.len(),
{
    if s.len() == 0 {
        None
    } else if s[0].0@ == name {
        Some(s[0].1)
    } else {
        lookup(s.drop_first(), name)
    }
}

/// `s` with `value` under `name`, in the place the name's order gives it.
pub open spec fn put<K: Key, T>(s: Seq<(K, T)>, name: K, value: T) -> Seq<(K, T)>
    decreases s.len(),
{
    if s.len() == 0 || K::goes_before(name@, s[0].0@) {
        seq![(name, value)] + s
    } else if s[0].0@ == name@ {
        seq![(name, value)] + s.drop_first()
    } else {
        seq![s[0]] + put(s.drop_first(), name, value)
    }
}

/// After `put`, the name holds the new value and every other name what it
/// held before.
pub proof fn lemma_lookup_put<K: Key, T>(s: Seq<(K, T)>, name: K, value: T, other: K::V)
    ensures
        lookup(put(s, name, value), other) == if other == name@ {
            Some(value)
        } else {
            lookup(s, other)
        },
    decreases s.len(),
{
    let p = put(s, name, value);
    if s.len() == 0 || K::goes_before(name@, s[0].0@) {
        assert(p.drop_first() =~= s);
    } else if s[0].0@ == name@ {
        assert(p.drop_first() =~= s.drop_first());
    } else {
        assert(p.drop_first() =~= put(s.drop_first(), name, value));
        lemma_lookup_put(s.drop_first(), name, value, other);
    }
}

/// What holds of every entry's name also holds after `put`, given that it
/// holds of the new name.
proof fn lemma_put_names<K: Key, T>(s: Seq<(K, T)>, name: K, value: T, low: K::V)
    requires
        forall|i: int| 0 <= i < s.len() ==> K::goes_before(low, (#[trigger] s[i]).0@),
        K::goes_before(low, name@),
    ensures
        forall|i: int|
            0 <= i < put(s, name, value).len() ==> K::goes_before(
                low,
                (#[trigger] put(s, name, value)[i]).0@,
            ),
    decreases s.len(),
{
    if s.len() > 0 && !K::goes_before(name@, s[0].0@) && s[0].0@ != name@ {
        let d = s.drop_first();
        assert forall|i: int| 0 <= i < d.len() implies K::goes_before(low, (#[trigger] d[i]).0@) by {
            assert(d[i] == s[i + 1]);
        }
        lemma_put_names(d, name, value, low);
        let p = put(s, name, value);
        assert forall|i: int| 0 <= i < p.len() implies K::goes_before(low, (#[trigger] p[i]).0@) by {
            if i > 0 {
                assert(p[i] == put(d, name, value)[i - 1]);
            }
        }
    }
}

/// `put` keeps the names in order.
pub proof fn lemma_put_ascending<K: Key, T>(s: Seq<(K, T)>, name: K, value: T)
    requires
        ascending(s),
    ensures
        ascending(put(s, name, value)),
    decreases s.len(),
{
    let p = put(s, name, value);
    if s.len() == 0 {
    } else if K::goes_before(name@, s[0].0@) {
        assert forall|i: int, j: int| 0 <= i < j < p.len() implies K::goes_before(
            p[i].0@,
            p[j].0@,
        ) by {
            assert(p[j] == s[j - 1]);
            if i > 0 {
                assert(p[i] == s[i - 1]);
            } else if j > 1 {
                K::lemma_order(name@, s[0].0@, s[j - 1].0@);
            }
        }
    } else if s[0].0@ == name@ {
        assert forall|i: int, j: int| 0 <= i < j < p.len() implies K::goes_before(
            p[i].0@,
            p[j].0@,
        ) by {
            assert(p[j] == s[j]);
            assert(p[i].0@ == s[i].0@);
        }
    } else {
        let d = s.drop_first();
        assert(ascending(d));
        lemma_put_ascending(d, name, value);
        K::lemma_total(name@, s[0].0@);
        assert forall|i: int| 0 <= i < d.len() implies K::goes_before(
            s[0].0@,
            (#[trigger] d[i]).0@,
        ) by {
            assert(d[i] == s[i + 1]);
        }
        lemma_put_names(d, name, value, s[0].0@);
        let q = put(d, name, value);
        assert forall|i: int, j: int| 0 <= i < j < p.len() implies K::goes_before(
            p[i].0@,
            p[j].0@,
        ) by {
            assert(p[j] == q[j - 1]);
            if i > 0 {
                assert(p[i] == q[i - 1]);
            }
        }
    }
}

/// After `put`, an entry is the new one or one that was there.
pub proof fn lemma_put_entries<K: Key, T>(s: Seq<(K, T)>, name: K, value: T, i: int)
    requires
        0 <= i < put(s, name, value).len(),
    ensures
        put(s, name, value)[i] == (name, value) || s.contains(put(s, name, value)[i]),
    decreases s.len(),
{
    let p = put(s, name, value);
    if s.len() == 0 || K::goes_before(name@, s[0].0@) {
        if i > 0 {
            assert(p[i] == s[i - 1]);
        }
    } else if s[0].0@ == name@ {
        if i > 0 {
            assert(p[i] == s[i]);
        }
    } else {
        if i > 0 {
            let d = s.drop_first();
            lemma_put_entries(d, name, value, i - 1);
            assert(p[i] == put(d, name, value)[i - 1]);
            if d.contains(p[i]) {
                let k = d.index_of(p[i]);
                assert(s[k + 1] == p[i]);
            }
        } else {
            assert(p[0] == s[0]);
        }
    }
}

/// A name that follows all others goes to the end.
pub proof fn lemma_put_last<K: Key, T>(s: Seq<(K, T)>, name: K, value: T)
    requires
        forall|i: int| 0 <= i < s.len() ==> K::goes_before((#[trigger] s[i]).0@, name@),
    ensures
        put(s, name, value) == s.push((name, value)),
{
    assert forall|j: int| 0 <= j < s.len() implies !K::goes_before(name@, (#[trigger] s[j]).0@)
        && s[j].0@ != name@ by {
        K::lemma_order(name@, name@, name@);
        if K::goes_before(name@, s[j].0@) {
            K::lemma_order(name@, s[j].0@, name@);
        }
    }
    lemma_put_at(s, name, value, s.len() as int);
    assert(s.insert(s.len() as int, (name, value)) =~= s.push((name, value)));
}

proof fn lemma_put_at<K: Key, T>(s: Seq<(K, T)>, name: K, value: T, i: int)
    requires
        0 <= i <= s.len(),
        forall|j: int| 0 <= j < i ==> !K::goes_before(name@, (#[trigger] s[j]).0@) && s[j].0@ != name@,
        i < s.len() ==> K::goes_before(name@, s[i].0@) || s[i].0@ == name@,
    ensures
        i < s.len() && !K::goes_before(name@, s[i].0@) ==> put(s, name, value) == s.update(
            i,
            (name, value),
        ),
        i == s.len() || K::goes_before(name@, s[i].0@) ==> put(s, name, value) == s.insert(
            i,
            (name, value),
        ),
    decreases s.len(),
{
    if s.len() == 0 {
        assert(put(s, name, value) =~= s.insert(i, (name, value)));
    } else if i == 0 {
        assert(seq![(name, value)] + s =~= s.insert(0, (name, value)));
        assert(seq![(name, value)] + s.drop_first() =~= s.update(0, (name, value)));
    } else {
        let d = s.drop_first();
        assert forall|j: int| 0 <= j < i - 1 implies !K::goes_before(name@, (#[trigger] d[j]).0@)
            && d[j].0@ != name@ by {
            assert(d[j] == s[j + 1]);
        }
        lemma_put_at(d, name, value, i - 1);
        assert(!K::goes_before(name@, s[0].0@) && s[0].0@ != name@);
        if i < s.len() {
            assert(d[i - 1] == s[i]);
            assert(seq![s[0]] + d.update(i - 1, (name, value)) =~= s.update(i, (name, value)));
        }
        assert(seq![s[0]] + d.insert(i - 1, (name, value)) =~= s.insert(i, (name, value)));
    }
}

proof fn lemma_lookup_at<K: Key, T>(s: Seq<(K, T)>, name: K::V, i: int)
    requires
        0 <= i <= s.len(),
        forall|j: int| 0 <= j < i ==> (#[trigger] s[j]).0@ != name,
        i < s.len() ==> s[i].0@ == name,
    ensures
        lookup(s, name) == if i < s.len() {
            Some(s[i].1)
        } else {
            None
        },
    decreases s.len(),
{
    if i > 0 {
        let d = s.drop_first();
        assert forall|j: int| 0 <= j < i - 1 implies (#[trigger] d[j]).0@ != name by {
            assert(d[j] == s[j + 1]);
        }
        assert(s[0].0@ != name);
        lemma_lookup_at(d, name, i - 1);
    }
}

/// Looking up in one entry more.
pub proof fn lemma_lookup_take<K: Key, T>(s: Seq<(K, T)>, i: int, name: K::V)
    requires
        ascending(s),
        0 <= i < s.len(),
    ensures
        lookup(s.take(i + 1), name) == if s[i].0@ == name {
            Some(s[i].1)
        } else {
            lookup(s.take(i), name)
        },
    decreases i,
{
    let t = s.take(i + 1);
    if i == 0 {
        assert(t.drop_first() =~= Seq::empty());
        assert(s.take(0) =~= Seq::empty());
    } else {
        let d = s.drop_first();
        assert(ascending(d));
        lemma_lookup_take(d, i - 1, name);
        assert(t.drop_first() =~= d.take(i));
        assert(s.take(i).drop_first() =~= d.take(i - 1));
        assert(t[0] == s[0] && s.take(i)[0] == s[0]);
        assert(K::goes_before(s[0].0@, s[i].0@));
        K::lemma_order(s[0].0@, s[0].0@, s[0].0@);
    }
}

/// An entry that is there is found under its name.
pub proof fn lemma_lookup_entry<K: Key, T>(s: Seq<(K, T)>, i: int)
    requires
        ascending(s),
        0 <= i < s.len(),
    ensures
        lookup(s, s[i].0@) == Some(s[i].1),
{
    assert forall|j: int| 0 <= j < i implies (#[trigger] s[j]).0@ != s[i].0@ by {
        K::lemma_order(s[i].0@, s[i].0@, s[i].0@);
    }
    lemma_lookup_at(s, s[i].0@, i);
}

/// Two entries have different names.
pub proof fn lemma_names_differ<K: Key, T>(s: Seq<(K, T)>, i: int, k: int)
    requires
        ascending(s),
        0 <= i < s.len(),
        0 <= k < s.len(),
        i != k,
    ensures
        s[i].0@ != s[k].0@,
{
    K::lemma_order(s[i].0@, s[k].0@, s[i].0@);
}

/// `s` without the entry under `name`.
pub open spec fn without<K: Key, T>(s: Seq<(K, T)>, name: K::V) -> Seq<(K, T)>
    decreases s.len(),
{
    if s.len() == 0 {
        s
    } else if s[0].0@ == name {
        s.drop_first()
    } else {
        seq![s[0]] + without(s.drop_first(), name)
    }
}

proof fn lemma_without_at<K: Key, T>(s: Seq<(K, T)>, name: K::V, i: int)
    requires
        0 <= i <= s.len(),
        forall|j: int| 0 <= j < i ==> (#[trigger] s[j]).0@ != name,
        i < s.len() ==> s[i].0@ == name,
    ensures
        without(s, name) == if i < s.len() {
            s.remove(i)
        } else {
            s
        },
    decreases s.len(),
{
    if i == 0 {
        if s.len() > 0 {
            assert(s.drop_first() =~= s.remove(0));
        }
    } else {
        let d = s.drop_first();
        assert forall|j: int| 0 <= j < i - 1 implies (#[trigger] d[j]).0@ != name by {
            assert(d[j] == s[j + 1]);
        }
        assert(s[0].0@ != name);
        if i < s.len() {
            assert(d[i - 1] == s[i]);
        }
        lemma_without_at(d, name, i - 1);
        if i < s.len() {
            assert(seq![s[0]] + d.remove(i - 1) =~= s.remove(i));
        } else {
            assert(seq![s[0]] + d =~= s);
        }
    }
}

/// Without its entry a name holds nothing, and every other name what it held.
pub proof fn lemma_lookup_without<K: Key, T>(s: Seq<(K, T)>, name: K::V, other: K::V)
    requires
        ascending(s),
    ensures
        lookup(without(s, name), other) == if other == name {
            None
        } else {
            lookup(s, other)
        },
    decreases s.len(),
{
    if s.len() > 0 {
        let d = s.drop_first();
        assert(ascending(d));
        if s[0].0@ == name {
            if other == name {
                assert forall|j: int| 0 <= j < d.len() implies (#[trigger] d[j]).0@ != name by {
                    assert(d[j] == s[j + 1]);
                    K::lemma_order(name, name, name);
                }
                lemma_lookup_at(d, name, d.len() as int);
            }
        } else {
            lemma_lookup_without(d, name, other);
            let w = without(s, name);
            assert(w.drop_first() =~= without(d, name));
        }
    }
}

/// A map is larger than the values it holds.
pub broadcast proof fn lemma_value_decreases<K: Key, T>(m: KeyMap<K, T>, i: int)
    requires
        0 <= i < m@.len(),
    ensures
        decreases_to!(m => (#[trigger] m@[i]).1),
{
    assert(decreases_to!(m => m.entries));
    assert(decreases_to!(m.entries => m.entries@));
    assert(decreases_to!(m.entries@ => m.entries@[i]));
    assert(decreases_to!(m.entries@[i] => m.entries@[i].1));
}

impl<K: Key, T> KeyMap<K, T> {
    #[verifier::type_invariant]
    spec fn sorted(self) -> bool {
        ascending(self.entries@)
    }

    pub fn new() -> (r: Self)
        ensures
            r@ == Seq::<(K, T)>::empty(),
    {
        KeyMap { entries: Vec::new() }
    }

    /// How many entries there are.
    pub fn len(&self) -> (r: usize)
        ensures
            r == self@.len(),
            ascending(self@),
    {
        proof {
            use_type_invariant(self);
        }
        self.entries.len()
    }

    /// Whether there are no entries.
    pub fn is_empty(&self) -> (r: bool)
        ensures
            r == (self@.len() == 0),
    {
        self.entries.len() == 0
    }

    /// The name of the entry at `i`.
    pub fn name(&self, i: usize) -> (r: &K)
        requires
            i < self@.len(),
        ensures
            *r == self@[i as int].0,
    {
        &self.entries[i].0
    }

    /// The value of the entry at `i`.
    pub fn value(&self, i: usize) -> (r: &T)
        requires
            i < self@.len(),
        ensures
            *r == self@[i as int].1,
    {
        &self.entries[i].1
    }

    /// Puts `value` under `name`, in place of what was there.
    pub fn insert(&mut self, name: K, value: T)
        ensures
            final(self)@ == put(old(self)@, name, value),
            ascending(final(self)@),
    {
        proof {
            use_type_invariant(&*self);
        }
        let mut entries: Vec<(K, T)> = Vec::new();
        std::mem::swap(&mut entries, &mut self.entries);
        let ghost before = entries@;
        let mut i: usize = 0;
        while i < entries.len() && entries[i].0.before(&name)
            invariant
                i <= entries@.len(),
                forall|j: int|
                    0 <= j < i ==> !K::goes_before(name@, (#[trigger] entries@[j]).0@)
                        && entries@[j].0@ != name@,
            decreases entries@.len() - i,
        {
            proof {
                K::lemma_order(name@, name@, name@);
                if K::goes_before(name@, entries@[i as int].0@) {
                    K::lemma_order(name@, entries@[i as int].0@, name@);
                }
            }
            i = i + 1;
        }
        proof {
            if i < entries@.len() {
                K::lemma_total(entries@[i as int].0@, name@);
                K::lemma_order(name@, name@, name@);
            }
            lemma_put_at(before, name, value, i as int);
            lemma_put_ascending(before, name, value);
        }
        if i < entries.len() && entries[i].0.same(&name) {
            entries.set(i, (name, value));
        } else {
            entries.insert(i, (name, value));
        }
        self.entries = entries;
    }
}

impl<T> KeyMap<String, T> {
    /// The value under `name`, if there is one.
    pub fn get(&self, name: &str) -> (r: Option<&T>)
        ensures
            match r {
                Some(v) => lookup(self@, name@) == Some(*v),
                None => lookup(self@, name@) == None::<T>,
            },
    {
        let mut i: usize = 0;
        while i < self.entries.len()
            invariant
                i <= self.entries@.len(),
                forall|j: int| 0 <= j < i ==> (#[trigger] self.entries@[j]).0@ != name@,
            decreases self.entries@.len() - i,
        {
            if str_eq(self.entries[i].0.as_str(), name) {
                proof {
                    lemma_lookup_at(self.entries@, name@, i as int);
                }
                return Some(&self.entries[i].1);
            }
            i = i + 1;
        }
        proof {
            lemma_lookup_at(self.entries@, name@, i as int);
        }
        None
    }
}

impl<T> KeyMap<String, T> {
    /// Takes the entry under `name` out.
    pub fn take(&mut self, name: &str) -> (r: Option<T>)
        ensures
            r == lookup(old(self)@, name@),
            final(self)@ == without(old(self)@, name@),
            ascending(old(self)@),
            ascending(final(self)@),
    {
        proof {
            use_type_invariant(&*self);
        }
        let mut entries: Vec<(String, T)> = Vec::new();
        std::mem::swap(&mut entries, &mut self.entries);
        let ghost before = entries@;
        let mut i: usize = 0;
        while i < entries.len()
            invariant
                i <= entries@.len(),
                entries@ == before,
                ascending(before),
                before == old(self)@,
                self.entries@.len() == 0,
                forall|j: int| 0 <= j < i ==> (#[trigger] before[j]).0@ != name@,
            decreases entries@.len() - i,
        {
            if str_eq(entries[i].0.as_str(), name) {
                proof {
                    lemma_without_at(before, name@, i as int);
                    lemma_lookup_at(before, name@, i as int);
                }
                let (_, value) = entries.remove(i);
                self.entries = entries;
                return Some(value);
            }
            i = i + 1;
        }
        proof {
            lemma_without_at(before, name@, i as int);
            lemma_lookup_at(before, name@, i as int);
        }
        self.entries = entries;
        None
    }
}

impl<T> KeyMap<(String, String), T> {
    /// The value under the pair, if there is one.
    pub fn get_pair(&self, first: &str, second: &str) -> (r: Option<&T>)
        ensures
            match r {
                Some(v) => lookup(self@, (first@, second@)) == Some(*v),
                None => lookup(self@, (first@, second@)) == None::<T>,
            },
    {
        let mut i: usize = 0;
        while i < self.entries.len()
            invariant
                i <= self.entries@.len(),
                forall|j: int| 0 <= j < i ==> (#[trigger] self.entries@[j]).0@ != (first@, second@),
            decreases self.entries@.len() - i,
        {
            if str_eq(self.entries[i].0.0.as_str(), first) && str_eq(
                self.entries[i].0.1.as_str(),
                second,
            ) {
                proof {
                    lemma_lookup_at(self.entries@, (first@, second@), i as int);
                }
                return Some(&self.entries[i].1);
            }
            i = i + 1;
        }
        proof {
            lemma_lookup_at(self.entries@, (first@, second@), i as int);
        }
        None
    }
}

impl<K: Key, T> Default for KeyMap<K, T> {
    fn default() -> (r: Self)
        ensures
            r@ == Seq::<(K, T)>::empty(),
    {
        KeyMap::new()
    }
}

} // verus!

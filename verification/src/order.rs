//! Stable sorting and the removal of repeated neighbours.

use crate::text;
use crate::text::str_eq;
use crate::text::str_lt;
use vstd::prelude::*;

verus! {

broadcast use crate::text::group_views;

/// A type whose values are sorted by what they stand for.
pub trait Ranked: View + Sized {
    /// Whether `a` goes strictly before `b`.
    spec fn goes_before(a: Self::V, b: Self::V) -> bool;

    /// The relation is a strict weak order.
    proof fn lemma_order(a: Self::V, b: Self::V, c: Self::V)
        ensures
            !Self::goes_before(a, a),
            Self::goes_before(a, b) && Self::goes_before(b, c) ==> Self::goes_before(a, c),
            Self::goes_before(a, c) ==> Self::goes_before(a, b) || Self::goes_before(b, c),
    ;

    fn before(&self, other: &Self) -> (r: bool)
        ensures
            r == Self::goes_before(self@, other@),
    ;
}

/// A type whose values can be told apart.
pub trait Alike: View + Sized {
    fn same(&self, other: &Self) -> (r: bool)
        ensures
            r == (self@ == other@),
    ;
}

impl Ranked for String {
    open spec fn goes_before(a: Seq<char>, b: Seq<char>) -> bool {
        text::lex_lt(a, b)
    }

    proof fn lemma_order(a: Seq<char>, b: Seq<char>, c: Seq<char>) {
        text::lemma_lex_irreflexive(a);
        if text::lex_lt(a, b) && text::lex_lt(b, c) {
            text::lemma_lex_transitive(a, b, c);
        }
        if text::lex_lt(a, c) && !text::lex_lt(a, b) {
            text::lemma_lex_total(a, b);
            if text::lex_lt(b, a) {
                text::lemma_lex_transitive(b, a, c);
            }
        }
    }

    fn before(&self, other: &String) -> (r: bool) {
        str_lt(self.as_str(), other.as_str())
    }
}

impl Alike for String {
    fn same(&self, other: &String) -> (r: bool) {
        str_eq(self.as_str(), other.as_str())
    }
}

/// `s` with `x` put behind the last element it does not go before.
pub open spec fn inserted<T: Ranked>(s: Seq<T::V>, x: T::V) -> Seq<T::V>
    decreases s.len(),
{
    if s.len() > 0 && T::goes_before(x, s.last()) {
        inserted::<T>(s.drop_last(), x).push(s.last())
    } else {
        s.push(x)
    }
}

/// The elements of `s` in order, equals in the order they have in `s`.
pub open spec fn sorted<T: Ranked>(s: Seq<T::V>) -> Seq<T::V>
    decreases s.len(),
{
    if s.len() == 0 {
        Seq::empty()
    } else {
        inserted::<T>(sorted::<T>(s.drop_last()), s.last())
    }
}

/// No element goes before an earlier one.
pub open spec fn in_order<T: Ranked>(s: Seq<T::V>) -> bool {
    forall|i: int, j: int| 0 <= i < j < s.len() ==> !T::goes_before(s[j], s[i])
}

proof fn lemma_inserted<T: Ranked>(s: Seq<T::V>, x: T::V, p: int)
    requires
        0 <= p <= s.len(),
        forall|j: int| p <= j < s.len() ==> T::goes_before(x, s[j]),
        p == 0 || !T::goes_before(x, s[p - 1]),
    ensures
        inserted::<T>(s, x) == s.insert(p, x),
    decreases s.len(),
{
    if p < s.len() {
        assert forall|j: int| p <= j < s.drop_last().len() implies T::goes_before(
            x,
            s.drop_last()[j],
        ) by {
            assert(s.drop_last()[j] == s[j]);
        }
        lemma_inserted::<T>(s.drop_last(), x, p);
        assert(s.drop_last().insert(p, x).push(s.last()) =~= s.insert(p, x));
    } else {
        assert(s.push(x) =~= s.insert(p, x));
    }
}

/// Inserting adds the one element.
pub proof fn lemma_inserted_multiset<T: Ranked>(s: Seq<T::V>, x: T::V)
    ensures
        inserted::<T>(s, x).to_multiset() == s.to_multiset().insert(x),
        inserted::<T>(s, x).len() == s.len() + 1,
    decreases s.len(),
{
    broadcast use vstd::seq_lib::group_to_multiset_ensures;

    if s.len() > 0 && T::goes_before(x, s.last()) {
        lemma_inserted_multiset::<T>(s.drop_last(), x);
        assert(s =~= s.drop_last().push(s.last()));
        assert(s.to_multiset().insert(x) =~= s.drop_last().to_multiset().insert(x).insert(
            s.last(),
        ));
    }
}

proof fn lemma_inserted_in_order<T: Ranked>(s: Seq<T::V>, x: T::V)
    requires
        in_order::<T>(s),
    ensures
        in_order::<T>(inserted::<T>(s, x)),
    decreases s.len(),
{
    let r = inserted::<T>(s, x);
    if s.len() > 0 && T::goes_before(x, s.last()) {
        let d = s.drop_last();
        assert(in_order::<T>(d));
        lemma_inserted_in_order::<T>(d, x);
        lemma_inserted_multiset::<T>(d, x);
        let rd = inserted::<T>(d, x);
        assert forall|i: int, j: int| 0 <= i < j < r.len() implies !T::goes_before(r[j], r[i]) by {
            if j < rd.len() {
                assert(r[j] == rd[j] && r[i] == rd[i]);
            } else {
                assert(r[i] == rd[i] && r[j] == s.last());
                vstd::seq_lib::to_multiset_contains(rd, rd[i]);
                vstd::seq_lib::to_multiset_contains(d, rd[i]);
                if rd[i] == x {
                    T::lemma_order(x, s.last(), x);
                } else {
                    let k = choose|k: int| 0 <= k < d.len() && d[k] == rd[i];
                    assert(!T::goes_before(s[s.len() - 1], s[k]));
                }
            }
        }
    } else {
        assert forall|i: int, j: int| 0 <= i < j < r.len() implies !T::goes_before(r[j], r[i]) by {
            if j == s.len() {
                if T::goes_before(x, s[i]) {
                    T::lemma_order(x, s.last(), s[i]);
                }
            }
        }
    }
}

/// Sorting permutes, and leaves no element before one that it should follow.
pub proof fn lemma_sorted<T: Ranked>(s: Seq<T::V>)
    ensures
        in_order::<T>(sorted::<T>(s)),
        sorted::<T>(s).to_multiset() == s.to_multiset(),
        sorted::<T>(s).len() == s.len(),
    decreases s.len(),
{
    broadcast use vstd::seq_lib::group_to_multiset_ensures;

    if s.len() > 0 {
        lemma_sorted::<T>(s.drop_last());
        lemma_inserted_in_order::<T>(sorted::<T>(s.drop_last()), s.last());
        lemma_inserted_multiset::<T>(sorted::<T>(s.drop_last()), s.last());
        assert(s =~= s.drop_last().push(s.last()));
    } else {
        assert(s =~= Seq::<T::V>::empty());
    }
}

/// Sorts by insertion; equal elements keep their order.
pub fn sort<T: Ranked>(v: Vec<T>) -> (r: Vec<T>)
    ensures
        text::views(r@) == sorted::<T>(text::views(v@)),
{
    let ghost all = v@;
    let mut v = v;
    let mut out: Vec<T> = Vec::new();
    let ghost mut k: int = 0;
    assert(all.skip(0) =~= all);
    assert(text::views(all).take(0) =~= Seq::empty());
    assert(text::views(out@) =~= Seq::empty());
    while v.len() > 0
        invariant
            0 <= k <= all.len(),
            v@ == all.skip(k),
            text::views(out@) == sorted::<T>(text::views(all).take(k)),
        decreases v@.len(),
    {
        let x = v.remove(0);
        let mut p: usize = out.len();
        while p > 0 && x.before(&out[p - 1])
            invariant
                p <= out@.len(),
                forall|j: int| p <= j < out@.len() ==> T::goes_before(x@, #[trigger] text::views(out@)[j]),
            decreases p,
        {
            p = p - 1;
        }
        proof {
            let t = text::views(all).take(k + 1);
            assert(t.drop_last() =~= text::views(all).take(k));
            assert(t.last() == x@);
            lemma_inserted::<T>(text::views(out@), x@, p as int);
            assert(text::views(out@.insert(p as int, x)) =~= text::views(out@).insert(p as int, x@));
            assert(all.skip(k).remove(0) =~= all.skip(k + 1));
        }
        out.insert(p, x);
        proof {
            k = k + 1;
        }
    }
    assert(text::views(all).take(k) =~= text::views(all));
    out
}

/// `s` without the elements equal to the one just before them.
pub open spec fn deduped<V>(s: Seq<V>) -> Seq<V>
    decreases s.len(),
{
    if s.len() <= 1 {
        s
    } else if s.last() == s[s.len() - 2] {
        deduped(s.drop_last())
    } else {
        deduped(s.drop_last()).push(s.last())
    }
}

/// Every element is among those that are left.
pub proof fn lemma_deduped_keeps<V>(s: Seq<V>, x: V)
    requires
        s.contains(x),
    ensures
        deduped(s).contains(x),
    decreases s.len(),
{
    if s.len() > 1 {
        let d = s.drop_last();
        let k = s.index_of(x);
        if k < s.len() - 1 {
            assert(d[k] == x);
            lemma_deduped_keeps(d, x);
        } else if s.last() == s[s.len() - 2] {
            assert(d[s.len() - 2] == x);
            lemma_deduped_keeps(d, x);
        }
        if s.last() != s[s.len() - 2] {
            let e = deduped(d);
            if k < s.len() - 1 {
                let m = e.index_of(x);
                assert(e.push(s.last())[m] == x);
            } else {
                assert(e.push(s.last())[e.len() as int] == x);
            }
        }
    }
}

/// Removes the elements equal to the one just before them.
pub fn dedup<T: Alike>(v: Vec<T>) -> (r: Vec<T>)
    ensures
        text::views(r@) == deduped(text::views(v@)),
{
    let ghost all = v@;
    let mut v = v;
    let mut out: Vec<T> = Vec::new();
    let ghost mut k: int = 0;
    assert(all.skip(0) =~= all);
    assert(text::views(all).take(0) =~= Seq::empty());
    assert(text::views(out@) =~= Seq::empty());
    while v.len() > 0
        invariant
            0 <= k <= all.len(),
            v@ == all.skip(k),
            text::views(out@) == deduped(text::views(all).take(k)),
            k > 0 ==> out@.len() > 0 && text::views(out@).last() == text::views(all)[k - 1],
            k == 0 ==> out@.len() == 0,
        decreases v@.len(),
    {
        let x = v.remove(0);
        proof {
            let t = text::views(all).take(k + 1);
            assert(t.drop_last() =~= text::views(all).take(k));
            assert(t.last() == x@);
            assert(all.skip(k).remove(0) =~= all.skip(k + 1));
            assert(k == 0 ==> t =~= seq![x@]);
        }
        if out.len() == 0 || !out[out.len() - 1].same(&x) {
            out.push(x);
        }
        proof {
            k = k + 1;
        }
    }
    assert(text::views(all).take(k) =~= text::views(all));
    out
}

/// The distinct texts of `s`, in order.
pub open spec fn distinct(s: Seq<Seq<char>>) -> Seq<Seq<char>> {
    deduped(sorted::<String>(s))
}

/// The distinct texts, in order.
pub fn sort_distinct(v: Vec<String>) -> (r: Vec<String>)
    ensures
        text::views(r@) == distinct(text::views(v@)),
{
    dedup(sort(v))
}

proof fn lemma_deduped(s: Seq<Seq<char>>)
    requires
        in_order::<String>(s),
    ensures
        forall|i: int, j: int|
            0 <= i < j < deduped(s).len() ==> text::lex_lt(deduped(s)[i], deduped(s)[j]),
        forall|x: Seq<char>| deduped(s).contains(x) <==> s.contains(x),
        s.len() > 0 ==> deduped(s).len() > 0 && deduped(s).last() == s.last(),
    decreases s.len(),
{
    if s.len() <= 1 {
    } else {
        let d = s.drop_last();
        assert(in_order::<String>(d));
        lemma_deduped(d);
        let r = deduped(s);
        let rd = deduped(d);
        assert(s =~= d.push(s.last()));
        assert(d.last() == s[s.len() - 2]);
        if s.last() == d.last() {
            assert forall|x: Seq<char>| rd.contains(x) <==> s.contains(x) by {
                if s.contains(x) {
                    let k = s.index_of(x);
                    if k == s.len() - 1 {
                        assert(d[d.len() - 1] == x);
                    } else {
                        assert(d[k] == x);
                    }
                    assert(d.contains(x));
                }
                if d.contains(x) {
                    let k = d.index_of(x);
                    assert(s[k] == x);
                }
            }
        } else {
            assert(!<String as Ranked>::goes_before(s[s.len() - 1], s[s.len() - 2]));
            text::lemma_lex_total(s.last(), d.last());
            assert(text::lex_lt(d.last(), s.last()));
            assert forall|i: int, j: int| 0 <= i < j < r.len() implies text::lex_lt(r[i], r[j]) by {
                if j == rd.len() {
                    if i < rd.len() - 1 {
                        assert(text::lex_lt(rd[i], rd[rd.len() - 1]));
                        text::lemma_lex_transitive(rd[i], d.last(), s.last());
                    }
                } else {
                    assert(text::lex_lt(rd[i], rd[j]));
                }
            }
            assert forall|x: Seq<char>| r.contains(x) <==> s.contains(x) by {
                if s.contains(x) {
                    let k = s.index_of(x);
                    if k == s.len() - 1 {
                        assert(r[r.len() - 1] == x);
                    } else {
                        assert(d[k] == x);
                        assert(d.contains(x));
                        assert(rd.contains(x));
                        let m = rd.index_of(x);
                        assert(r[m] == x);
                    }
                }
                if r.contains(x) {
                    let k = r.index_of(x);
                    if k < rd.len() {
                        assert(rd[k] == x);
                        assert(d.contains(x));
                        let m = d.index_of(x);
                        assert(s[m] == x);
                    } else {
                        assert(s[s.len() - 1] == x);
                    }
                }
            }
        }
    }
}

/// `distinct` keeps the same texts, each once, in ascending order.
pub proof fn lemma_distinct(s: Seq<Seq<char>>)
    ensures
        forall|i: int, j: int|
            0 <= i < j < distinct(s).len() ==> text::lex_lt(distinct(s)[i], distinct(s)[j]),
        forall|x: Seq<char>| distinct(s).contains(x) <==> s.contains(x),
{
    lemma_sorted::<String>(s);
    let t = sorted::<String>(s);
    lemma_deduped(t);
    assert forall|x: Seq<char>| t.contains(x) <==> s.contains(x) by {
        vstd::seq_lib::to_multiset_contains(t, x);
        vstd::seq_lib::to_multiset_contains(s, x);
    }
}

} // verus!

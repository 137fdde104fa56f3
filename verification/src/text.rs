//! Text as sequences of characters: the string operations the rest of the
//! library is written with, each with the sequence it denotes.

use vstd::prelude::*;

verus! {

/// The view of every element of a sequence.
pub open spec fn views<T: View>(s: Seq<T>) -> Seq<T::V> {
    Seq::new(s.len(), |i: int| s[i]@)
}

pub broadcast proof fn lemma_views_push<T: View>(s: Seq<T>, x: T)
    ensures
        #[trigger] views(s.push(x)) == views(s).push(x@),
{
    assert(views(s.push(x)) =~= views(s).push(x@));
}

pub broadcast proof fn lemma_views_empty<T: View>()
    ensures
        #[trigger] views(Seq::<T>::empty()) == Seq::<T::V>::empty(),
{
    assert(views(Seq::<T>::empty()) =~= Seq::<T::V>::empty());
}

pub broadcast proof fn lemma_views_add<T: View>(s: Seq<T>, t: Seq<T>)
    ensures
        #[trigger] views(s + t) == views(s) + views(t),
{
    assert(views(s + t) =~= views(s) + views(t));
}

pub broadcast group group_views {
    lemma_views_push,
    lemma_views_empty,
    lemma_views_add,
}

/// The concatenation of `f(0)`, `f(1)`, ..., `f(n - 1)`.
pub open spec fn each<T>(n: nat, f: spec_fn(int) -> Seq<T>) -> Seq<T>
    decreases n,
{
    if n == 0 {
        Seq::empty()
    } else {
        each((n - 1) as nat, f) + f(n - 1)
    }
}

/// What is in the concatenation is in one of its parts.
pub proof fn lemma_in_each<T>(n: nat, f: spec_fn(int) -> Seq<T>, k: int) -> (i: int)
    requires
        0 <= k < each(n, f).len(),
    ensures
        0 <= i < n,
        f(i).contains(each(n, f)[k]),
    decreases n,
{
    let m = (n - 1) as nat;
    let head = each(m, f);
    if k < head.len() {
        assert(each(n, f)[k] == head[k]);
        lemma_in_each(m, f, k)
    } else {
        assert(each(n, f)[k] == f(n - 1)[k - head.len()]);
        n - 1
    }
}

/// What is in one part is in the concatenation.
pub proof fn lemma_each_has<T>(n: nat, f: spec_fn(int) -> Seq<T>, i: int, x: T)
    requires
        0 <= i < n,
        f(i).contains(x),
    ensures
        each(n, f).contains(x),
    decreases n,
{
    let m = (n - 1) as nat;
    let head = each(m, f);
    if i == n - 1 {
        let j = f(i).index_of(x);
        assert(each(n, f)[head.len() + j] == x);
    } else {
        lemma_each_has(m, f, i, x);
        let j = head.index_of(x);
        assert(each(n, f)[j] == x);
    }
}

/// A concatenation is empty exactly where all its parts are.
pub proof fn lemma_each_empty<T>(n: nat, f: spec_fn(int) -> Seq<T>)
    ensures
        each(n, f).len() == 0 <==> forall|i: int| 0 <= i < n ==> (#[trigger] f(i)).len() == 0,
    decreases n,
{
    if n > 0 {
        lemma_each_empty((n - 1) as nat, f);
    }
}

/// Nothing, or the one thing.
pub open spec fn only_if<T>(b: bool, x: T) -> Seq<T> {
    if b {
        seq![x]
    } else {
        Seq::empty()
    }
}

/// The view of an optional text.
pub open spec fn opt_text(s: Option<String>) -> Option<Seq<char>> {
    match s {
        Some(t) => Some(t@),
        None => None,
    }
}

/// The characters of a text.
pub fn chars_of(s: &str) -> (r: Vec<char>)
    ensures
        r@ == s@,
{
    let mut out: Vec<char> = Vec::new();
    for c in it: s.chars()
        invariant
            out@ == s@.take(it.index() as int),
            it.seq() == s@,
    {
        out.push(c);
    }
    out
}

/// Whether two texts are the same.
pub fn str_eq(a: &str, b: &str) -> (r: bool)
    ensures
        r == (a@ == b@),
{
    a.to_owned() == b.to_owned()
}

/// The 2 parts, one after the other.
pub fn cat2(p1: &str, p2: &str) -> (r: String)
    ensures
        r@ == p1@ + p2@,
{
    let mut s = p1.to_owned();
    s.append(p2);
    s
}

/// The 3 parts, one after the other.
pub fn cat3(p1: &str, p2: &str, p3: &str) -> (r: String)
    ensures
        r@ == p1@ + p2@ + p3@,
{
    let mut s = p1.to_owned();
    s.append(p2);
    s.append(p3);
    s
}

/// The 4 parts, one after the other.
pub fn cat4(p1: &str, p2: &str, p3: &str, p4: &str) -> (r: String)
    ensures
        r@ == p1@ + p2@ + p3@ + p4@,
{
    let mut s = p1.to_owned();
    s.append(p2);
    s.append(p3);
    s.append(p4);
    s
}

/// The 5 parts, one after the other.
pub fn cat5(p1: &str, p2: &str, p3: &str, p4: &str, p5: &str) -> (r: String)
    ensures
        r@ == p1@ + p2@ + p3@ + p4@ + p5@,
{
    let mut s = p1.to_owned();
    s.append(p2);
    s.append(p3);
    s.append(p4);
    s.append(p5);
    s
}

/// The 6 parts, one after the other.
pub fn cat6(p1: &str, p2: &str, p3: &str, p4: &str, p5: &str, p6: &str) -> (r: String)
    ensures
        r@ == p1@ + p2@ + p3@ + p4@ + p5@ + p6@,
{
    let mut s = p1.to_owned();
    s.append(p2);
    s.append(p3);
    s.append(p4);
    s.append(p5);
    s.append(p6);
    s
}

/// The 7 parts, one after the other.
pub fn cat7(p1: &str, p2: &str, p3: &str, p4: &str, p5: &str, p6: &str, p7: &str) -> (r: String)
    ensures
        r@ == p1@ + p2@ + p3@ + p4@ + p5@ + p6@ + p7@,
{
    let mut s = p1.to_owned();
    s.append(p2);
    s.append(p3);
    s.append(p4);
    s.append(p5);
    s.append(p6);
    s.append(p7);
    s
}

/// The 8 parts, one after the other.
#[allow(clippy::too_many_arguments)]
pub fn cat8(
    p1: &str,
    p2: &str,
    p3: &str,
    p4: &str,
    p5: &str,
    p6: &str,
    p7: &str,
    p8: &str,
) -> (r: String)
    ensures
        r@ == p1@ + p2@ + p3@ + p4@ + p5@ + p6@ + p7@ + p8@,
{
    let mut s = p1.to_owned();
    s.append(p2);
    s.append(p3);
    s.append(p4);
    s.append(p5);
    s.append(p6);
    s.append(p7);
    s.append(p8);
    s
}

/// The 9 parts, one after the other.
#[allow(clippy::too_many_arguments)]
pub fn cat9(
    p1: &str,
    p2: &str,
    p3: &str,
    p4: &str,
    p5: &str,
    p6: &str,
    p7: &str,
    p8: &str,
    p9: &str,
) -> (r: String)
    ensures
        r@ == p1@ + p2@ + p3@ + p4@ + p5@ + p6@ + p7@ + p8@ + p9@,
{
    let mut s = p1.to_owned();
    s.append(p2);
    s.append(p3);
    s.append(p4);
    s.append(p5);
    s.append(p6);
    s.append(p7);
    s.append(p8);
    s.append(p9);
    s
}

/// The 10 parts, one after the other.
#[allow(clippy::too_many_arguments)]
pub fn cat10(
    p1: &str,
    p2: &str,
    p3: &str,
    p4: &str,
    p5: &str,
    p6: &str,
    p7: &str,
    p8: &str,
    p9: &str,
    p10: &str,
) -> (r: String)
    ensures
        r@ == p1@ + p2@ + p3@ + p4@ + p5@ + p6@ + p7@ + p8@ + p9@ + p10@,
{
    let mut s = p1.to_owned();
    s.append(p2);
    s.append(p3);
    s.append(p4);
    s.append(p5);
    s.append(p6);
    s.append(p7);
    s.append(p8);
    s.append(p9);
    s.append(p10);
    s
}

/// The 11 parts, one after the other.
#[allow(clippy::too_many_arguments)]
pub fn cat11(
    p1: &str,
    p2: &str,
    p3: &str,
    p4: &str,
    p5: &str,
    p6: &str,
    p7: &str,
    p8: &str,
    p9: &str,
    p10: &str,
    p11: &str,
) -> (r: String)
    ensures
        r@ == p1@ + p2@ + p3@ + p4@ + p5@ + p6@ + p7@ + p8@ + p9@ + p10@ + p11@,
{
    let mut s = p1.to_owned();
    s.append(p2);
    s.append(p3);
    s.append(p4);
    s.append(p5);
    s.append(p6);
    s.append(p7);
    s.append(p8);
    s.append(p9);
    s.append(p10);
    s.append(p11);
    s
}

/// Whether `a` comes before `b`: the order of the first character in which
/// they differ, a text before its extensions.
pub open spec fn lex_lt(a: Seq<char>, b: Seq<char>) -> bool
    decreases a.len(),
{
    if b.len() == 0 {
        false
    } else if a.len() == 0 {
        true
    } else if a[0] != b[0] {
        a[0] < b[0]
    } else {
        lex_lt(a.drop_first(), b.drop_first())
    }
}

pub proof fn lemma_lex_irreflexive(a: Seq<char>)
    ensures
        !lex_lt(a, a),
    decreases a.len(),
{
    if a.len() > 0 {
        lemma_lex_irreflexive(a.drop_first());
    }
}

pub proof fn lemma_lex_transitive(a: Seq<char>, b: Seq<char>, c: Seq<char>)
    requires
        lex_lt(a, b),
        lex_lt(b, c),
    ensures
        lex_lt(a, c),
    decreases a.len(),
{
    if a.len() > 0 && a[0] == b[0] && b[0] == c[0] {
        lemma_lex_transitive(a.drop_first(), b.drop_first(), c.drop_first());
    }
}

pub proof fn lemma_lex_total(a: Seq<char>, b: Seq<char>)
    ensures
        lex_lt(a, b) || lex_lt(b, a) || a == b,
    decreases a.len(),
{
    if a.len() > 0 && b.len() > 0 {
        if a[0] == b[0] {
            lemma_lex_total(a.drop_first(), b.drop_first());
            if a.drop_first() == b.drop_first() {
                assert(a =~= seq![a[0]] + a.drop_first());
                assert(b =~= seq![b[0]] + b.drop_first());
            }
        }
    } else if a.len() == 0 && b.len() == 0 {
        assert(a =~= b);
    }
}

/// Whether `a` comes before `b`.
pub fn str_lt(a: &str, b: &str) -> (r: bool)
    ensures
        r == lex_lt(a@, b@),
{
    let x = chars_of(a);
    let y = chars_of(b);
    let mut i: usize = 0;
    assert(x@.skip(0) =~= x@);
    assert(y@.skip(0) =~= y@);
    while i < x.len() && i < y.len() && x[i] == y[i]
        invariant
            i <= x@.len(),
            i <= y@.len(),
            x@ == a@,
            y@ == b@,
            lex_lt(a@, b@) == lex_lt(x@.skip(i as int), y@.skip(i as int)),
        decreases x@.len() - i,
    {
        assert(x@.skip(i as int).drop_first() =~= x@.skip(i + 1));
        assert(y@.skip(i as int).drop_first() =~= y@.skip(i + 1));
        i = i + 1;
    }
    assert(i < x@.len() ==> x@.skip(i as int)[0] == x@[i as int]);
    assert(i < y@.len() ==> y@.skip(i as int)[0] == y@[i as int]);
    if i >= y.len() {
        false
    } else if i >= x.len() {
        true
    } else {
        x[i] < y[i]
    }
}

/// Whether `word` is one of `list`.
pub open spec fn listed(list: Seq<&'static str>, word: Seq<char>) -> bool {
    exists|i: int| 0 <= i < list.len() && (#[trigger] list[i])@ == word
}

/// Whether `word` is one of `list`.
pub fn is_listed(list: &[&'static str], word: &str) -> (r: bool)
    ensures
        r == listed(list@, word@),
{
    let mut i: usize = 0;
    while i < list.len()
        invariant
            i <= list@.len(),
            forall|j: int| 0 <= j < i ==> (#[trigger] list@[j])@ != word@,
        decreases list@.len() - i,
    {
        if str_eq(list[i], word) {
            return true;
        }
        i = i + 1;
    }
    false
}

/// Whether `word` is one of the texts.
pub fn has(list: &Vec<String>, word: &str) -> (r: bool)
    ensures
        r == views(list@).contains(word@),
{
    let mut i: usize = 0;
    while i < list.len()
        invariant
            i <= list@.len(),
            forall|j: int| 0 <= j < i ==> (#[trigger] views(list@)[j]) != word@,
        decreases list@.len() - i,
    {
        if str_eq(list[i].as_str(), word) {
            assert(views(list@)[i as int] == word@);
            return true;
        }
        i = i + 1;
    }
    false
}

/// The texts with `sep` between each two.
pub open spec fn joined(parts: Seq<Seq<char>>, sep: Seq<char>) -> Seq<char>
    decreases parts.len(),
{
    if parts.len() == 0 {
        Seq::empty()
    } else if parts.len() == 1 {
        parts[0]
    } else {
        joined(parts.drop_last(), sep) + sep + parts.last()
    }
}

/// The texts with `sep` between each two.
pub fn join(parts: &Vec<String>, sep: &str) -> (r: String)
    ensures
        r@ == joined(views(parts@), sep@),
{
    let mut out = String::new();
    let mut i: usize = 0;
    proof {
        assert(views(parts@).take(0) =~= Seq::empty());
    }
    while i < parts.len()
        invariant
            i <= parts@.len(),
            out@ == joined(views(parts@).take(i as int), sep@),
        decreases parts@.len() - i,
    {
        proof {
            let t = views(parts@).take(i + 1);
            assert(t.drop_last() =~= views(parts@).take(i as int));
            assert(t.last() == parts@[i as int]@);
            assert(i == 0 ==> out@ + parts@[0]@ =~= parts@[0]@);
        }
        if i > 0 {
            out.append(sep);
        }
        out.append(parts[i].as_str());
        i = i + 1;
    }
    assert(views(parts@).take(parts@.len() as int) =~= views(parts@));
    out
}

/// The pieces of `s` between the occurrences of `sep`; one piece more than
/// there are occurrences.
pub open spec fn split_at_each(s: Seq<char>, sep: char) -> Seq<Seq<char>>
    decreases s.len(),
{
    if s.len() == 0 {
        seq![Seq::empty()]
    } else {
        let rest = split_at_each(s.drop_last(), sep);
        if s.last() == sep {
            rest.push(Seq::empty())
        } else {
            rest.drop_last().push(rest.last().push(s.last()))
        }
    }
}

pub proof fn lemma_split_nonempty(s: Seq<char>, sep: char)
    ensures
        split_at_each(s, sep).len() >= 1,
    decreases s.len(),
{
    if s.len() > 0 {
        lemma_split_nonempty(s.drop_last(), sep);
    }
}

/// The part of `s` from the character at `from` up to the one at `to`.
pub fn cut(s: &str, from: usize, to: usize) -> (r: String)
    requires
        from <= to <= s@.len(),
    ensures
        r@ == s@.subrange(from as int, to as int),
{
    s.substring_char(from, to).to_owned()
}

/// The pieces of `s` between the occurrences of `sep`.
pub fn split(s: &str, sep: char) -> (r: Vec<String>)
    ensures
        views(r@) == split_at_each(s@, sep),
        r@.len() >= 1,
{
    broadcast use group_views;

    let chars = chars_of(s);
    let mut out: Vec<String> = Vec::new();
    let mut start: usize = 0;
    let mut i: usize = 0;
    assert(s@.take(0) =~= Seq::<char>::empty());
    assert(s@.subrange(0, 0) =~= Seq::<char>::empty());
    assert(split_at_each(s@.take(0), sep) =~= views(out@).push(s@.subrange(0, 0)));
    while i < chars.len()
        invariant
            chars@ == s@,
            start <= i <= s@.len(),
            split_at_each(s@.take(i as int), sep) == views(out@).push(
                s@.subrange(start as int, i as int),
            ),
        decreases s@.len() - i,
    {
        proof {
            let t = s@.take(i + 1);
            assert(t.drop_last() =~= s@.take(i as int));
            assert(t.last() == s@[i as int]);
            let p = views(out@).push(s@.subrange(start as int, i as int));
            assert(p.drop_last() =~= views(out@));
            assert(s@.subrange(start as int, i as int).push(s@[i as int]) =~= s@.subrange(
                start as int,
                i + 1,
            ));
            assert(s@.subrange(i + 1, i + 1) =~= Seq::<char>::empty());
        }
        if chars[i] == sep {
            out.push(cut(s, start, i));
            start = i + 1;
        }
        i = i + 1;
    }
    assert(s@.take(s@.len() as int) =~= s@);
    out.push(cut(s, start, chars.len()));
    out
}

/// Joining the pieces of a split gives the text back.
pub proof fn lemma_join_split(s: Seq<char>, sep: char)
    ensures
        joined(split_at_each(s, sep), seq![sep]) == s,
    decreases s.len(),
{
    if s.len() == 0 {
        assert(s =~= Seq::<char>::empty());
    } else {
        let d = s.drop_last();
        let rest = split_at_each(d, sep);
        lemma_join_split(d, sep);
        lemma_split_nonempty(d, sep);
        if s.last() == sep {
            let t = rest.push(Seq::<char>::empty());
            assert(t.drop_last() =~= rest);
            assert(joined(t, seq![sep]) =~= d + seq![sep]);
            assert(d + seq![sep] =~= s);
        } else {
            let t = rest.drop_last().push(rest.last().push(s.last()));
            assert(t.drop_last() =~= rest.drop_last());
            assert(joined(t, seq![sep]) =~= joined(rest, seq![sep]).push(s.last()));
            assert(d.push(s.last()) =~= s);
        }
    }
}

/// A piece of a split holds no separator.
pub proof fn lemma_split_pieces(s: Seq<char>, sep: char)
    ensures
        forall|i: int|
            0 <= i < split_at_each(s, sep).len() ==> !(#[trigger] split_at_each(s, sep)[i]).contains(
                sep,
            ),
    decreases s.len(),
{
    if s.len() > 0 {
        let rest = split_at_each(s.drop_last(), sep);
        lemma_split_pieces(s.drop_last(), sep);
        lemma_split_nonempty(s.drop_last(), sep);
        let t = split_at_each(s, sep);
        assert forall|i: int| 0 <= i < t.len() implies !(#[trigger] t[i]).contains(sep) by {
            if s.last() != sep && i == t.len() - 1 {
                let p = rest.last();
                assert(!p.contains(sep));
                let q = p.push(s.last());
                assert(t[i] == q);
                if q.contains(sep) {
                    let k = q.index_of(sep);
                    assert(p[k] == sep);
                }
            } else if i < rest.len() {
                assert(t[i] == rest[i]);
            } else {
                assert(t[i] =~= Seq::<char>::empty());
            }
        }
    }
}

proof fn lemma_split_extend(s: Seq<char>, p: Seq<char>, sep: char)
    requires
        !p.contains(sep),
    ensures
        split_at_each(s + p, sep) == split_at_each(s, sep).drop_last().push(
            split_at_each(s, sep).last() + p,
        ),
    decreases p.len(),
{
    let rest = split_at_each(s, sep);
    lemma_split_nonempty(s, sep);
    if p.len() == 0 {
        assert(s + p =~= s);
        assert(rest.last() + p =~= rest.last());
        assert(rest.drop_last().push(rest.last()) =~= rest);
    } else {
        let q = p.drop_last();
        assert forall|i: int| 0 <= i < q.len() implies q[i] != sep by {
            assert(p[i] == q[i]);
        }
        lemma_split_extend(s, q, sep);
        assert((s + p).drop_last() =~= s + q);
        assert((s + p).last() == p.last());
        assert(p[p.len() - 1] == p.last());
        let t = rest.drop_last().push(rest.last() + q);
        assert(t.drop_last() =~= rest.drop_last());
        assert((rest.last() + q).push(p.last()) =~= rest.last() + p);
    }
}

/// Splitting joined texts that hold no separator gives the texts back.
pub proof fn lemma_split_join(parts: Seq<Seq<char>>, sep: char)
    requires
        parts.len() >= 1,
        forall|i: int| 0 <= i < parts.len() ==> !(#[trigger] parts[i]).contains(sep),
    ensures
        split_at_each(joined(parts, seq![sep]), sep) == parts,
    decreases parts.len(),
{
    let e = Seq::<char>::empty();
    if parts.len() == 1 {
        lemma_split_extend(e, parts[0], sep);
        assert(e + parts[0] =~= parts[0]);
        assert(seq![e].drop_last().push(seq![e].last() + parts[0]) =~= parts);
    } else {
        let d = parts.drop_last();
        assert forall|i: int| 0 <= i < d.len() implies !(#[trigger] d[i]).contains(sep) by {
            assert(d[i] == parts[i]);
        }
        lemma_split_join(d, sep);
        let j = joined(d, seq![sep]);
        let k = j + seq![sep];
        assert(k.drop_last() =~= j);
        assert(k.last() == sep);
        assert(split_at_each(k, sep) == d.push(e));
        assert(!parts[parts.len() - 1].contains(sep));
        lemma_split_extend(k, parts.last(), sep);
        assert(d.push(e).drop_last() =~= d);
        assert(e + parts.last() =~= parts.last());
        assert(d.push(parts.last()) =~= parts);
    }
}

/// The digit, as a character.
pub open spec fn digit(d: nat) -> char {
    if d == 0 {
        '0'
    } else if d == 1 {
        '1'
    } else if d == 2 {
        '2'
    } else if d == 3 {
        '3'
    } else if d == 4 {
        '4'
    } else if d == 5 {
        '5'
    } else if d == 6 {
        '6'
    } else if d == 7 {
        '7'
    } else if d == 8 {
        '8'
    } else {
        '9'
    }
}

/// The number in decimal.
pub open spec fn decimal(n: nat) -> Seq<char>
    decreases n,
{
    if n < 10 {
        seq![digit(n)]
    } else {
        decimal(n / 10).push(digit(n % 10))
    }
}

/// Adds one decimal digit.
pub fn append_digit(s: &mut String, d: u64)
    requires
        d < 10,
    ensures
        final(s)@ == old(s)@.push(digit(d as nat)),
{
    proof {
        reveal_strlit("0");
        reveal_strlit("1");
        reveal_strlit("2");
        reveal_strlit("3");
        reveal_strlit("4");
        reveal_strlit("5");
        reveal_strlit("6");
        reveal_strlit("7");
        reveal_strlit("8");
        reveal_strlit("9");
    }
    let t = if d == 0 {
        "0"
    } else if d == 1 {
        "1"
    } else if d == 2 {
        "2"
    } else if d == 3 {
        "3"
    } else if d == 4 {
        "4"
    } else if d == 5 {
        "5"
    } else if d == 6 {
        "6"
    } else if d == 7 {
        "7"
    } else if d == 8 {
        "8"
    } else {
        "9"
    };
    s.append(t);
    assert(s@ =~= old(s)@.push(digit(d as nat)));
}

/// The number in decimal.
pub fn decimal_of(n: u64) -> (r: String)
    ensures
        r@ == decimal(n as nat),
    decreases n,
{
    if n < 10 {
        let mut s = String::new();
        append_digit(&mut s, n);
        assert(s@ =~= seq![digit(n as nat)]);
        s
    } else {
        let mut s = decimal_of(n / 10);
        append_digit(&mut s, n % 10);
        s
    }
}

/// The number in decimal, with a zero in front where it has one digit.
pub open spec fn two_digits(n: nat) -> Seq<char> {
    if n < 10 {
        "0"@ + decimal(n)
    } else {
        decimal(n)
    }
}

/// The number in decimal, with a zero in front where it has one digit.
pub fn two_digits_of(n: u64) -> (r: String)
    ensures
        r@ == two_digits(n as nat),
{
    let d = decimal_of(n);
    if n < 10 {
        cat2("0", d.as_str())
    } else {
        d
    }
}

/// What a decimal digit counts.
pub open spec fn digit_value(c: char) -> int {
    c as int - '0' as int
}

/// Whether the character is a decimal digit.
pub open spec fn is_digit(c: char) -> bool {
    '0' <= c <= '9'
}

/// The number that a text of digits denotes.
pub open spec fn digits_value(s: Seq<char>) -> int
    decreases s.len(),
{
    if s.len() == 0 {
        0
    } else {
        digits_value(s.drop_last()) * 10 + digit_value(s.last())
    }
}

/// The digits of a number: what follows a leading plus sign, where there is
/// one.
pub open spec fn unsigned_part(s: Seq<char>) -> Seq<char> {
    if s.len() > 0 && s[0] == '+' {
        s.drop_first()
    } else {
        s
    }
}

/// The number that a text denotes: an optional plus sign, then digits only.
pub open spec fn number(s: Seq<char>) -> Option<int> {
    let d = unsigned_part(s);
    if d.len() > 0 && forall|i: int| 0 <= i < d.len() ==> is_digit(#[trigger] d[i]) {
        Some(digits_value(d))
    } else {
        None
    }
}

proof fn lemma_digits_value_grows(s: Seq<char>, i: int)
    requires
        0 <= i <= s.len(),
        forall|j: int| 0 <= j < s.len() ==> is_digit(#[trigger] s[j]),
    ensures
        0 <= digits_value(s.take(i)) <= digits_value(s),
    decreases s.len(),
{
    if i == s.len() {
        assert(s.take(i) =~= s);
    }
    if s.len() > 0 {
        let d = s.drop_last();
        assert forall|j: int| 0 <= j < d.len() implies is_digit(#[trigger] d[j]) by {
            assert(d[j] == s[j]);
        }
        assert(is_digit(s[s.len() - 1]));
        if i < s.len() {
            lemma_digits_value_grows(d, i);
            assert(d.take(i) =~= s.take(i));
        } else {
            lemma_digits_value_grows(d, d.len() as int);
            assert(d.take(d.len() as int) =~= d);
        }
    }
}

/// The number that a text denotes, where it is at most `max`.
pub fn parse_number(s: &str, max: u64) -> (r: Option<u64>)
    requires
        max <= 1_000_000_000_000_000_000,
    ensures
        r == match number(s@) {
            Some(n) => if n <= max {
                Some(n as u64)
            } else {
                None
            },
            None => None,
        },
        r matches Some(v) ==> number(s@) == Some(v as int),
{
    let chars = chars_of(s);
    let start: usize = if chars.len() > 0 && chars[0] == '+' {
        1
    } else {
        0
    };
    let ghost d = unsigned_part(s@);
    assert(d =~= s@.skip(start as int));
    if start >= chars.len() {
        return None;
    }
    let mut value: u64 = 0;
    let mut small = true;
    let mut i: usize = start;
    assert(d.take(0) =~= Seq::empty());
    while i < chars.len()
        invariant
            chars@ == s@,
            d == s@.skip(start as int),
            d == unsigned_part(s@),
            start <= i <= chars@.len(),
            max <= 1_000_000_000_000_000_000,
            forall|j: int| 0 <= j < i - start ==> is_digit(#[trigger] d[j]),
            small ==> value <= max && value == digits_value(d.take(i - start)),
            !small ==> digits_value(d.take(i - start)) > max,
        decreases chars@.len() - i,
    {
        let c = chars[i];
        assert(d[i - start] == c);
        if !('0' <= c && c <= '9') {
            assert(!is_digit(d[i - start]));
            return None;
        }
        proof {
            let k = i - start;
            assert(d.take(k + 1).drop_last() =~= d.take(k));
            assert(d.take(k + 1).last() == c);
            assert forall|j: int| 0 <= j < k + 1 implies is_digit(#[trigger] d.take(k + 1)[j]) by {
                assert(d.take(k + 1)[j] == d[j]);
            }
            lemma_digits_value_grows(d.take(k + 1), k);
            assert(d.take(k + 1).take(k) =~= d.take(k));
        }
        if small {
            value = value * 10 + (c as u64 - '0' as u64);
            if value > max {
                small = false;
            }
        }
        i = i + 1;
    }
    assert(d.take(d.len() as int) =~= d);
    if small {
        Some(value)
    } else {
        None
    }
}

/// Whether the character is white space, by Unicode's `White_Space` property.
pub open spec fn is_space(c: char) -> bool {
    let u = c as u32;
    9 <= u <= 13 || u == 32 || u == 0x85 || u == 0xa0 || u == 0x1680 || 0x2000 <= u <= 0x200a || u
        == 0x2028 || u == 0x2029 || u == 0x202f || u == 0x205f || u == 0x3000
}

/// Whether the character is white space.
pub fn is_white(c: char) -> (r: bool)
    ensures
        r == is_space(c),
{
    let u = c as u32;
    (9 <= u && u <= 13) || u == 32 || u == 0x85 || u == 0xa0 || u == 0x1680 || (0x2000 <= u && u
        <= 0x200a) || u == 0x2028 || u == 0x2029 || u == 0x202f || u == 0x205f || u == 0x3000
}

/// The words of a text: its longest runs without white space. `open` tells
/// whether the last word of the result may still grow.
pub open spec fn words_open(s: Seq<char>) -> (Seq<Seq<char>>, bool)
    decreases s.len(),
{
    if s.len() == 0 {
        (Seq::empty(), false)
    } else {
        let (rest, grows) = words_open(s.drop_last());
        if is_space(s.last()) {
            (rest, false)
        } else if grows {
            (rest.drop_last().push(rest.last().push(s.last())), true)
        } else {
            (rest.push(seq![s.last()]), true)
        }
    }
}

/// The words of a text.
pub open spec fn words(s: Seq<char>) -> Seq<Seq<char>> {
    words_open(s).0
}

/// The words of a text.
pub fn split_words(s: &str) -> (r: Vec<String>)
    ensures
        views(r@) == words(s@),
{
    broadcast use group_views;

    let chars = chars_of(s);
    let mut out: Vec<String> = Vec::new();
    let mut start: usize = 0;
    let mut grows = false;
    let mut i: usize = 0;
    assert(s@.take(0) =~= Seq::<char>::empty());
    assert(words_open(s@.take(0)).0 =~= views(out@));
    while i < chars.len()
        invariant
            chars@ == s@,
            start <= i <= s@.len(),
            grows ==> start < i,
            words_open(s@.take(i as int)).1 == grows,
            words_open(s@.take(i as int)).0 == if grows {
                views(out@).push(s@.subrange(start as int, i as int))
            } else {
                views(out@)
            },
        decreases s@.len() - i,
    {
        proof {
            let t = s@.take(i + 1);
            assert(t.drop_last() =~= s@.take(i as int));
            assert(t.last() == s@[i as int]);
            let w = views(out@).push(s@.subrange(start as int, i as int));
            assert(w.drop_last() =~= views(out@));
            assert(s@.subrange(start as int, i as int).push(s@[i as int]) =~= s@.subrange(
                start as int,
                i + 1,
            ));
            assert(s@.subrange(i as int, i + 1) =~= seq![s@[i as int]]);
        }
        if is_white(chars[i]) {
            if grows {
                out.push(cut(s, start, i));
            }
            grows = false;
        } else {
            if !grows {
                start = i;
            }
            grows = true;
        }
        i = i + 1;
    }
    assert(s@.take(s@.len() as int) =~= s@);
    if grows {
        out.push(cut(s, start, chars.len()));
    }
    out
}

} // verus!

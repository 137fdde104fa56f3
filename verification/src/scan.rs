//! Looking into text: prefixes, trimming, finding a piece, lines.

use crate::text;
use crate::text::chars_of;
use crate::text::cut;
use crate::text::is_white;
use vstd::prelude::*;

verus! {

broadcast use crate::text::group_views;

/// `s` begins with `p`.
pub open spec fn prefixed(s: Seq<char>, p: Seq<char>) -> bool {
    s.len() >= p.len() && s.take(p.len() as int) == p
}

/// `s` ends with `p`.
pub open spec fn suffixed(s: Seq<char>, p: Seq<char>) -> bool {
    s.len() >= p.len() && s.skip(s.len() - p.len()) == p
}

/// `p` stands in `s` at `i`.
pub open spec fn stands_at(s: Seq<char>, p: Seq<char>, i: int) -> bool {
    0 <= i && i + p.len() <= s.len() && s.subrange(i, i + p.len()) == p
}

fn matches_at(s: &Vec<char>, p: &Vec<char>, i: usize) -> (r: bool)
    requires
        i + p@.len() <= s@.len(),
    ensures
        r == stands_at(s@, p@, i as int),
{
    let end = s.len();
    let mut j: usize = 0;
    while j < p.len()
        invariant
            j <= p@.len(),
            i + p@.len() <= s@.len() == end,
            forall|k: int| 0 <= k < j ==> s@[i + k] == #[trigger] p@[k],
        decreases p@.len() - j,
    {
        if s[i + j] != p[j] {
            assert(s@.subrange(i as int, i + p@.len())[j as int] != p@[j as int]);
            return false;
        }
        j = j + 1;
    }
    assert(s@.subrange(i as int, i + p@.len()) =~= p@);
    true
}

/// Whether `s` begins with `p`.
pub fn starts_with(s: &str, p: &str) -> (r: bool)
    ensures
        r == prefixed(s@, p@),
{
    let a = chars_of(s);
    let b = chars_of(p);
    proof {
        if b@.len() <= a@.len() {
            assert(a@.subrange(0, b@.len() as int) =~= a@.take(b@.len() as int));
        }
    }
    b.len() <= a.len() && matches_at(&a, &b, 0)
}

/// Whether `s` ends with `p`.
pub fn ends_with(s: &str, p: &str) -> (r: bool)
    ensures
        r == suffixed(s@, p@),
{
    let a = chars_of(s);
    let b = chars_of(p);
    proof {
        if b@.len() <= a@.len() {
            let k = a@.len() - b@.len();
            assert(a@.subrange(k, k + b@.len()) =~= a@.skip(k));
        }
    }
    b.len() <= a.len() && matches_at(&a, &b, a.len() - b.len())
}

/// Whether `c` occurs in `s`.
pub fn has_char(s: &str, c: char) -> (r: bool)
    ensures
        r == s@.contains(c),
{
    let a = chars_of(s);
    let mut i: usize = 0;
    while i < a.len()
        invariant
            a@ == s@,
            i <= a@.len(),
            forall|j: int| 0 <= j < i ==> s@[j] != c,
        decreases a@.len() - i,
    {
        if a[i] == c {
            assert(s@[i as int] == c);
            return true;
        }
        i = i + 1;
    }
    false
}

/// The first place from `from` on at which `p` stands in `s`.
pub open spec fn found_from(s: Seq<char>, p: Seq<char>, from: int) -> Option<int>
    decreases s.len() + 1 - from,
{
    if from < 0 || from + p.len() > s.len() {
        None
    } else if stands_at(s, p, from) {
        Some(from)
    } else {
        found_from(s, p, from + 1)
    }
}

/// The last place up to `to` at which `p` stands in `s`.
pub open spec fn found_up_to(s: Seq<char>, p: Seq<char>, to: int) -> Option<int>
    decreases to + 1,
{
    if to < 0 {
        None
    } else if stands_at(s, p, to) {
        Some(to)
    } else {
        found_up_to(s, p, to - 1)
    }
}

/// What a search finds is a place of the piece.
pub proof fn lemma_found(s: Seq<char>, p: Seq<char>, from: int)
    ensures
        found_from(s, p, from) matches Some(i) ==> from <= i && stands_at(s, p, i),
    decreases s.len() + 1 - from,
{
    if 0 <= from && from + p.len() <= s.len() && !stands_at(s, p, from) {
        lemma_found(s, p, from + 1);
    }
}

/// The first place of `p` in `s`.
pub fn find(s: &str, p: &str) -> (r: Option<usize>)
    ensures
        match r {
            Some(i) => found_from(s@, p@, 0) == Some(i as int) && i + p@.len() <= s@.len(),
            None => found_from(s@, p@, 0) is None,
        },
{
    let a = chars_of(s);
    let b = chars_of(p);
    let mut i: usize = 0;
    while b.len() <= a.len() && i <= a.len() - b.len()
        invariant
            a@ == s@,
            b@ == p@,
            b@.len() <= a@.len() ==> i <= a@.len() - b@.len() + 1,
            found_from(s@, p@, 0) == found_from(s@, p@, i as int),
        decreases a@.len() + 1 - i,
    {
        if matches_at(&a, &b, i) {
            return Some(i);
        }
        if i == a.len() - b.len() {
            assert(found_from(s@, p@, i + 1) is None);
            return None;
        }
        i = i + 1;
    }
    None
}

/// The last place of `p` in `s`.
pub fn rfind(s: &str, p: &str) -> (r: Option<usize>)
    ensures
        match r {
            Some(i) => found_up_to(s@, p@, s@.len() as int) == Some(i as int) && i + p@.len()
                <= s@.len(),
            None => found_up_to(s@, p@, s@.len() as int) is None,
        },
{
    let a = chars_of(s);
    let b = chars_of(p);
    let mut i: usize = a.len();
    loop
        invariant
            a@ == s@,
            b@ == p@,
            i <= a@.len(),
            found_up_to(s@, p@, s@.len() as int) == found_up_to(s@, p@, i as int),
        decreases i,
    {
        if b.len() <= a.len() - i && matches_at(&a, &b, i) {
            return Some(i);
        }
        if i == 0 {
            assert(found_up_to(s@, p@, -1) is None);
            return None;
        }
        i = i - 1;
    }
}

/// `s` cut at each place of `sep`, from the left.
pub open spec fn split_text(s: Seq<char>, sep: Seq<char>) -> Seq<Seq<char>>
    decreases s.len(),
    when sep.len() > 0
    via split_text_decreases
{
    match found_from(s, sep, 0) {
        Some(i) => seq![s.take(i)] + split_text(s.skip(i + sep.len()), sep),
        None => seq![s],
    }
}

#[via_fn]
proof fn split_text_decreases(s: Seq<char>, sep: Seq<char>) {
    lemma_found(s, sep, 0);
}

/// Cuts `s` at each place of `sep`, from the left.
pub fn split_on(s: &str, sep: &str) -> (r: Vec<String>)
    requires
        sep@.len() > 0,
    ensures
        text::views(r@) == split_text(s@, sep@),
{
    let mut out: Vec<String> = Vec::new();
    let mut rest: String = s.to_owned();
    let k = sep.unicode_len();
    assert(text::views(out@) + split_text(s@, sep@) =~= split_text(s@, sep@));
    loop
        invariant
            sep@.len() == k > 0,
            split_text(s@, sep@) == text::views(out@) + split_text(rest@, sep@),
        decreases rest@.len(),
    {
        match find(rest.as_str(), sep) {
            Some(i) => {
                let n = rest.as_str().unicode_len();
                let piece = cut(rest.as_str(), 0, i);
                let tail = cut(rest.as_str(), i + k, n);
                proof {
                    assert(rest@.subrange(0, i as int) =~= rest@.take(i as int));
                    assert(rest@.subrange(i + k, n as int) =~= rest@.skip(i + k));
                    assert(text::views(out@) + (seq![piece@] + split_text(tail@, sep@))
                        =~= text::views(out@).push(piece@) + split_text(tail@, sep@));
                }
                out.push(piece);
                rest = tail;
            },
            None => {
                out.push(rest);
                return out;
            },
        }
    }
}

/// `s` without the white space at its end.
pub open spec fn trimmed_end(s: Seq<char>) -> Seq<char>
    decreases s.len(),
{
    if s.len() > 0 && text::is_space(s.last()) {
        trimmed_end(s.drop_last())
    } else {
        s
    }
}

/// `s` without the white space at its beginning.
pub open spec fn trimmed_start(s: Seq<char>) -> Seq<char>
    decreases s.len(),
{
    if s.len() > 0 && text::is_space(s[0]) {
        trimmed_start(s.drop_first())
    } else {
        s
    }
}

/// `s` without the white space at either end.
pub open spec fn trimmed(s: Seq<char>) -> Seq<char> {
    trimmed_start(trimmed_end(s))
}

/// `s` without the white space at its end.
pub fn trim_end(s: &str) -> (r: String)
    ensures
        r@ == trimmed_end(s@),
{
    let a = chars_of(s);
    let mut n: usize = a.len();
    assert(s@.take(n as int) =~= s@);
    while n > 0 && is_white(a[n - 1])
        invariant
            a@ == s@,
            n <= a@.len(),
            trimmed_end(s@) == trimmed_end(s@.take(n as int)),
        decreases n,
    {
        assert(s@.take(n as int).drop_last() =~= s@.take(n - 1));
        n = n - 1;
    }
    assert(s@.subrange(0, n as int) =~= s@.take(n as int));
    cut(s, 0, n)
}

/// `s` without the white space at its beginning.
pub fn trim_start(s: &str) -> (r: String)
    ensures
        r@ == trimmed_start(s@),
{
    let a = chars_of(s);
    let mut n: usize = 0;
    assert(s@.skip(0) =~= s@);
    while n < a.len() && is_white(a[n])
        invariant
            a@ == s@,
            n <= a@.len(),
            trimmed_start(s@) == trimmed_start(s@.skip(n as int)),
        decreases a@.len() - n,
    {
        assert(s@.skip(n as int).drop_first() =~= s@.skip(n + 1));
        n = n + 1;
    }
    assert(s@.subrange(n as int, s@.len() as int) =~= s@.skip(n as int));
    cut(s, n, a.len())
}

/// `s` without the white space at either end.
pub fn trim(s: &str) -> (r: String)
    ensures
        r@ == trimmed(s@),
{
    let end = trim_end(s);
    trim_start(end.as_str())
}

/// `s` without the copies of `c` at its end.
pub open spec fn without_trailing(s: Seq<char>, c: char) -> Seq<char>
    decreases s.len(),
{
    if s.len() > 0 && s.last() == c {
        without_trailing(s.drop_last(), c)
    } else {
        s
    }
}

/// `s` without the copies of `c` at its end.
pub fn trim_trailing(s: &str, c: char) -> (r: String)
    ensures
        r@ == without_trailing(s@, c),
{
    let a = chars_of(s);
    let mut n: usize = a.len();
    assert(s@.take(n as int) =~= s@);
    while n > 0 && a[n - 1] == c
        invariant
            a@ == s@,
            n <= a@.len(),
            without_trailing(s@, c) == without_trailing(s@.take(n as int), c),
        decreases n,
    {
        assert(s@.take(n as int).drop_last() =~= s@.take(n - 1));
        n = n - 1;
    }
    assert(s@.subrange(0, n as int) =~= s@.take(n as int));
    cut(s, 0, n)
}

/// `s` without the copies of `p` at its end.
pub open spec fn without_suffixes(s: Seq<char>, p: Seq<char>) -> Seq<char>
    decreases s.len(),
{
    if p.len() > 0 && suffixed(s, p) {
        without_suffixes(s.take(s.len() - p.len()), p)
    } else {
        s
    }
}

/// `s` without the copies of `p` at its end.
pub fn trim_suffixes(s: &str, p: &str) -> (r: String)
    requires
        p@.len() > 0,
    ensures
        r@ == without_suffixes(s@, p@),
{
    let k = p.unicode_len();
    let mut rest: String = s.to_owned();
    while ends_with(rest.as_str(), p)
        invariant
            k == p@.len() > 0,
            without_suffixes(s@, p@) == without_suffixes(rest@, p@),
        decreases rest@.len(),
    {
        let n = rest.as_str().unicode_len();
        assert(rest@.subrange(0, n - k) =~= rest@.take(n - k));
        rest = cut(rest.as_str(), 0, n - k);
    }
    rest
}

/// A letter of the Latin alphabet in lower case, anything else as it is.
pub open spec fn lower(c: char) -> int {
    if 'A' <= c <= 'Z' {
        c as int + 32
    } else {
        c as int
    }
}

/// The same text but for the case of Latin letters.
pub open spec fn same_word(a: Seq<char>, b: Seq<char>) -> bool {
    a.len() == b.len() && forall|i: int| 0 <= i < a.len() ==> lower(#[trigger] a[i]) == lower(b[i])
}

fn lower_of(c: char) -> (r: u32)
    ensures
        r == lower(c),
{
    if 'A' <= c && c <= 'Z' {
        c as u32 + 32
    } else {
        c as u32
    }
}

/// Whether the texts are the same but for the case of Latin letters.
pub fn eq_ignore_case(a: &str, b: &str) -> (r: bool)
    ensures
        r == same_word(a@, b@),
{
    let x = chars_of(a);
    let y = chars_of(b);
    if x.len() != y.len() {
        return false;
    }
    let mut i: usize = 0;
    while i < x.len()
        invariant
            x@ == a@,
            y@ == b@,
            x@.len() == y@.len(),
            i <= x@.len(),
            forall|j: int| 0 <= j < i ==> lower(#[trigger] x@[j]) == lower(y@[j]),
        decreases x@.len() - i,
    {
        if lower_of(x[i]) != lower_of(y[i]) {
            return false;
        }
        i = i + 1;
    }
    true
}

/// Whether white space occurs in `s`.
pub open spec fn has_space(s: Seq<char>) -> bool {
    exists|i: int| 0 <= i < s.len() && text::is_space(#[trigger] s[i])
}

/// Whether white space occurs in `s`.
pub fn contains_white(s: &str) -> (r: bool)
    ensures
        r == has_space(s@),
{
    let a = chars_of(s);
    let mut i: usize = 0;
    while i < a.len()
        invariant
            a@ == s@,
            i <= a@.len(),
            forall|j: int| 0 <= j < i ==> !text::is_space(#[trigger] s@[j]),
        decreases a@.len() - i,
    {
        if is_white(a[i]) {
            assert(text::is_space(s@[i as int]));
            return true;
        }
        i = i + 1;
    }
    false
}

/// A line that a newline ends, without the carriage return before it.
pub open spec fn line_content(s: Seq<char>) -> Seq<char> {
    if s.len() > 0 && s.last() == '\r' {
        s.drop_last()
    } else {
        s
    }
}

/// The lines of a text. The last one may lack its newline.
pub open spec fn lines_of(s: Seq<char>) -> Seq<Seq<char>> {
    let pieces = text::split_at_each(s, '\n');
    let ended = Seq::new((pieces.len() - 1) as nat, |i: int| line_content(pieces[i]));
    if pieces.last().len() == 0 {
        ended
    } else {
        ended.push(pieces.last())
    }
}

/// The lines of a text.
pub fn lines(s: &str) -> (r: Vec<String>)
    ensures
        text::views(r@) == lines_of(s@),
{
    let pieces = text::split(s, '\n');
    let mut out: Vec<String> = Vec::new();
    let mut i: usize = 0;
    let ghost want = text::split_at_each(s@, '\n');
    while i < pieces.len() - 1
        invariant
            text::views(pieces@) == want,
            pieces@.len() >= 1,
            i + 1 <= pieces@.len(),
            text::views(out@) == Seq::new(i as nat, |k: int| line_content(want[k])),
        decreases pieces@.len() - i,
    {
        let piece = pieces[i].as_str();
        assert(text::views(pieces@)[i as int] == piece@);
        let n = piece.unicode_len();
        if n > 0 && piece.get_char(n - 1) == '\r' {
            assert(piece@.subrange(0, n - 1) =~= piece@.drop_last());
            out.push(cut(piece, 0, n - 1));
        } else {
            out.push(piece.to_owned());
        }
        i = i + 1;
        assert(text::views(out@) =~= Seq::new(i as nat, |k: int| line_content(want[k])));
    }
    let last = pieces[pieces.len() - 1].as_str();
    assert(text::views(pieces@).last() == last@);
    if last.unicode_len() > 0 {
        out.push(last.to_owned());
    }
    out
}

/// `s` with every `c` written as `by`.
pub open spec fn replaced(s: Seq<char>, c: char, by: Seq<char>) -> Seq<char>
    decreases s.len(),
{
    if s.len() == 0 {
        Seq::empty()
    } else {
        replaced(s.drop_last(), c, by) + if s.last() == c {
            by
        } else {
            seq![s.last()]
        }
    }
}

/// `s` with every `c` written as `by`.
pub fn replace(s: &str, c: char, by: &str) -> (r: String)
    ensures
        r@ == replaced(s@, c, by@),
{
    let a = chars_of(s);
    let mut out = String::new();
    let mut i: usize = 0;
    assert(s@.take(0) =~= Seq::<char>::empty());
    while i < a.len()
        invariant
            a@ == s@,
            i <= a@.len(),
            out@ == replaced(s@.take(i as int), c, by@),
        decreases a@.len() - i,
    {
        let ghost t = s@.take(i + 1);
        assert(t.drop_last() =~= s@.take(i as int));
        assert(t.last() == s@[i as int]);
        if a[i] == c {
            out.append(by);
        } else {
            let one = cut(s, i, i + 1);
            assert(one@ =~= seq![s@[i as int]]);
            out.append(one.as_str());
        }
        i = i + 1;
    }
    assert(s@.take(s@.len() as int) =~= s@);
    out
}

/// An integer in decimal, with a minus sign where it is negative.
pub open spec fn integer(n: int) -> Seq<char> {
    if n < 0 {
        "-"@ + text::decimal((-n) as nat)
    } else {
        text::decimal(n as nat)
    }
}

/// An integer in decimal.
pub fn integer_of(n: i64) -> (r: String)
    ensures
        r@ == integer(n as int),
{
    if n < 0 {
        let m: u64 = (-(n as i128)) as u64;
        text::cat2("-", text::decimal_of(m).as_str())
    } else {
        text::decimal_of(n as u64)
    }
}

/// The text that `String::from_utf8_lossy` reads out of bytes.
pub uninterp spec fn lossy_text(bytes: Seq<u8>) -> Seq<char>;

/// Calls `String::from_utf8_lossy`, which puts U+FFFD in place of what is
/// not UTF-8. The result is a function of the bytes alone; of valid UTF-8
/// it is the text.
#[verifier::external_body]
pub(crate) fn lossy(bytes: &[u8]) -> (r: String)
    ensures
        r@ == lossy_text(bytes@),
        vstd::utf8::valid_utf8(bytes@) ==> r@ == vstd::utf8::decode_utf8(bytes@),
{
    String::from_utf8_lossy(bytes).to_string()
}

/// The text that `str::to_lowercase` makes of a text.
pub uninterp spec fn lowercase_text(s: Seq<char>) -> Seq<char>;

/// Calls `str::to_lowercase`, which lowers letters by Unicode's rules. The
/// result is a function of the text alone.
#[verifier::external_body]
pub(crate) fn lowercase(s: &str) -> (r: String)
    ensures
        r@ == lowercase_text(s@),
{
    s.to_lowercase()
}

} // verus!

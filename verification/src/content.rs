//! Unit content hashing for plan and apply.
//!
//! Two hashes decide "changed" cheaply before any semantic comparison:
//! - `manifest_hash`: sha256 of the manifest file bytes.
//! - `files_hash`: sha256 over the unit's non-manifest repo inputs — command
//!   tokens that resolve to files (the `uv run units/foo.py` script), the
//!   unit's bound entity files, and `zones.toml` when any of the unit's key
//!   expressions referenced a zone.

use crate::expand::ExpandedKey;
use crate::expand::ExpandedView;
use crate::manifest::UnitInputs;
use crate::order;
use crate::repo::House;
use crate::repo::LoadedUnit;
use crate::text;
use crate::text::str_eq;
use sha2::Digest;
use vstd::prelude::*;
use vstd::utf8;

verus! {

broadcast use crate::text::group_views;

/// The SHA-256 digest of a text of bytes.
pub uninterp spec fn sha256(bytes: Seq<u8>) -> Seq<u8>;

/// Calls `sha2::Sha256::digest`. The digest is a function of the bytes alone,
/// and has 32 bytes.
#[verifier::external_body]
fn digest(bytes: &[u8]) -> (r: Vec<u8>)
    ensures
        r@ == sha256(bytes@),
        r@.len() == 32,
{
    sha2::Sha256::digest(bytes).to_vec()
}

/// A hexadecimal digit.
pub open spec fn hex_digit(d: int) -> char {
    if d < 10 {
        text::digit(d as nat)
    } else if d == 10 {
        'a'
    } else if d == 11 {
        'b'
    } else if d == 12 {
        'c'
    } else if d == 13 {
        'd'
    } else if d == 14 {
        'e'
    } else {
        'f'
    }
}

/// The first `n` bytes, two hexadecimal digits each.
pub open spec fn hex(bytes: Seq<u8>, n: nat) -> Seq<char> {
    text::each(
        n,
        |i: int| seq![hex_digit(bytes[i] as int / 16), hex_digit(bytes[i] as int % 16)],
    )
}

fn append_hex(s: &mut String, d: u8)
    requires
        d < 16,
    ensures
        final(s)@ == old(s)@.push(hex_digit(d as int)),
{
    proof {
        reveal_strlit("a");
        reveal_strlit("b");
        reveal_strlit("c");
        reveal_strlit("d");
        reveal_strlit("e");
        reveal_strlit("f");
    }
    if d < 10 {
        text::append_digit(s, d as u64);
    } else {
        let t = if d == 10 {
            "a"
        } else if d == 11 {
            "b"
        } else if d == 12 {
            "c"
        } else if d == 13 {
            "d"
        } else if d == 14 {
            "e"
        } else {
            "f"
        };
        s.append(t);
        assert(s@ =~= old(s)@.push(hex_digit(d as int)));
    }
}

/// The digest of the bytes in lower-case hexadecimal.
pub open spec fn hash_of(bytes: Seq<u8>) -> Seq<char> {
    hex(sha256(bytes), sha256(bytes).len())
}

/// The digest of the bytes in lower-case hexadecimal.
pub fn sha256_hex(bytes: &[u8]) -> (r: String)
    ensures
        r@ == hash_of(bytes@),
        r@.len() == 64,
{
    let d = digest(bytes);
    let mut out = String::new();
    for i in 0..d.len()
        invariant
            out@ == hex(d@, i as nat),
            out@.len() == 2 * i,
    {
        append_hex(&mut out, d[i] / 16);
        append_hex(&mut out, d[i] % 16);
        assert(out@ =~= hex(d@, i as nat) + seq![
            hex_digit(d@[i as int] as int / 16),
            hex_digit(d@[i as int] as int % 16),
        ]);
    }
    out
}

pub fn manifest_hash(manifest_bytes: &[u8]) -> (r: String)
    ensures
        r@ == hash_of(manifest_bytes@),
{
    sha256_hex(manifest_bytes)
}

/// Whether one of the unit's keys expanded through a zone.
pub open spec fn zone_used(unit: Seq<char>, expanded: Seq<ExpandedView>) -> bool {
    exists|i: int|
        0 <= i < expanded.len() && (#[trigger] expanded[i]).unit == unit && expanded[i].zone is Some
}

/// Whether any of the unit's bus expressions expanded through a zone.
pub fn uses_zone(unit: &str, expanded: &Vec<ExpandedKey>) -> (r: bool)
    ensures
        r == zone_used(unit@, text::views(expanded@)),
{
    let ghost keys = text::views(expanded@);
    for i in 0..expanded.len()
        invariant
            keys == text::views(expanded@),
            forall|k: int|
                0 <= k < i ==> !((#[trigger] keys[k]).unit == unit@ && keys[k].zone is Some),
    {
        assert(keys[i as int] == expanded@[i as int]@);
        if str_eq(expanded[i].unit.as_str(), unit) && expanded[i].zone.is_some() {
            return true;
        }
    }
    false
}

/// The words of a unit's command.
pub fn command_tokens(unit: &LoadedUnit) -> (r: Vec<String>)
    ensures
        text::views(r@) == text::words(unit.manifest.runtime.command@),
{
    text::split_words(unit.manifest.runtime.command.as_str())
}

/// The paths of every manifest and then every entity file of a house.
pub open spec fn all_paths(h: House) -> Seq<Seq<char>> {
    Seq::new(h.units@.len(), |i: int| h.units@[i].path@) + Seq::new(
        h.entities@.len(),
        |i: int| h.entities@[i].path@,
    )
}

/// The paths of those of the first `n` entity files that the unit binds.
pub open spec fn own_paths(h: House, unit: Seq<char>, n: nat) -> Seq<Seq<char>> {
    text::each(n, |i: int| text::only_if(h.entities@[i].owner@ == unit, h.entities@[i].path@))
}

/// Those of the first `n` words that name files.
pub open spec fn file_tokens(words: Seq<Seq<char>>, is_file: Seq<bool>, n: nat) -> Seq<Seq<char>> {
    text::each(n, |i: int| text::only_if(is_file[i], words[i]))
}

/// The non-manifest inputs of a unit, in the order they are hashed. A
/// house-wide unit reads every manifest, every entity file and the zones: all
/// of them must be able to mark it changed.
pub open spec fn inputs_of(
    u: LoadedUnit,
    h: House,
    unit_uses_zone: bool,
    is_file: Seq<bool>,
) -> Seq<Seq<char>> {
    let words = text::words(u.manifest.runtime.command@);
    file_tokens(words, is_file, words.len()) + if u.manifest.unit.inputs == Some(
        UnitInputs::House,
    ) {
        order::sorted::<String>(all_paths(h)).push("zones.toml"@)
    } else {
        own_paths(h, u.manifest.unit.name@, h.entities@.len()) + text::only_if(
            unit_uses_zone,
            "zones.toml"@,
        )
    }
}

fn every_path(house: &House) -> (r: Vec<String>)
    ensures
        text::views(r@) == all_paths(*house),
{
    let mut out: Vec<String> = Vec::new();
    for i in 0..house.units.len()
        invariant
            out@.len() == i,
            forall|k: int| 0 <= k < i ==> (#[trigger] out@[k])@ == all_paths(*house)[k],
    {
        out.push(house.units[i].path.clone());
    }
    for i in 0..house.entities.len()
        invariant
            out@.len() == house.units@.len() + i,
            forall|k: int|
                0 <= k < house.units@.len() + i ==> (#[trigger] out@[k])@ == all_paths(*house)[k],
    {
        out.push(house.entities[i].path.clone());
    }
    assert(text::views(out@) =~= all_paths(*house));
    out
}

/// The house-relative paths of the unit's non-manifest inputs. `is_file` says
/// of each word of the command whether it resolves to a file; one that does
/// not (program names on PATH, flags) contributes nothing.
pub fn input_paths(
    unit: &LoadedUnit,
    house: &House,
    unit_uses_zone: bool,
    is_file: &Vec<bool>,
) -> (r: Vec<String>)
    requires
        is_file@.len() == text::words(unit.manifest.runtime.command@).len(),
    ensures
        text::views(r@) == inputs_of(*unit, *house, unit_uses_zone, is_file@),
{
    let words = command_tokens(unit);
    let ghost all = text::views(words@);
    let mut out: Vec<String> = Vec::new();
    for i in 0..words.len()
        invariant
            all == text::views(words@),
            is_file@.len() == words@.len(),
            text::views(out@) == file_tokens(all, is_file@, i as nat),
    {
        assert(all[i as int] == words@[i as int]@);
        if is_file[i] {
            out.push(words[i].clone());
        }
    }
    let ghost tokens = text::views(out@);
    let house_wide = match unit.manifest.unit.inputs {
        Some(scope) => scope == UnitInputs::House,
        None => false,
    };
    if house_wide {
        let mut paths = order::sort(every_path(house));
        let ghost sorted = text::views(paths@);
        out.append(&mut paths);
        assert(text::views(out@) =~= tokens + sorted);
        out.push("zones.toml".to_owned());
    } else {
        for i in 0..house.entities.len()
            invariant
                text::views(out@) == tokens + own_paths(
                    *house,
                    unit.manifest.unit.name@,
                    i as nat,
                ),
        {
            let e = &house.entities[i];
            if str_eq(e.owner.as_str(), unit.manifest.unit.name.as_str()) {
                out.push(e.path.clone());
            }
        }
        if unit_uses_zone {
            out.push("zones.toml".to_owned());
        }
    }
    out
}

/// What one file contributes to the hash.
pub open spec fn contribution(path: Seq<char>, file: Option<Seq<u8>>) -> Seq<u8> {
    match file {
        Some(bytes) => utf8::encode_utf8(path) + seq![0u8] + bytes + seq![0u8],
        None => Seq::empty(),
    }
}

/// The bytes of a file, where it is there.
pub open spec fn bytes_of(file: Option<Vec<u8>>) -> Option<Seq<u8>> {
    match file {
        Some(bytes) => Some(bytes@),
        None => None,
    }
}

/// What the hash is taken over: each path and its file's bytes, a zero byte
/// after either, over the first `n` files. A file that is not there
/// contributes nothing.
pub open spec fn hashed_bytes(
    paths: Seq<Seq<char>>,
    files: Seq<Option<Vec<u8>>>,
    n: nat,
) -> Seq<u8> {
    text::each(n, |i: int| contribution(paths[i], bytes_of(files[i])))
}

/// Hashes the unit's non-manifest inputs: `files` holds what was read at each
/// of the paths. Paths are house-root-relative and fed into the hash
/// alongside the content, so a rename is a change even with identical bytes.
pub fn files_hash(paths: &Vec<String>, files: &Vec<Option<Vec<u8>>>) -> (r: String)
    requires
        paths@.len() == files@.len(),
    ensures
        r@ == hash_of(hashed_bytes(text::views(paths@), files@, files@.len())),
{
    let ghost ps = text::views(paths@);
    let mut fed: Vec<u8> = Vec::new();
    for i in 0..files.len()
        invariant
            ps == text::views(paths@),
            paths@.len() == files@.len(),
            fed@ == hashed_bytes(ps, files@, i as nat),
    {
        assert(ps[i as int] == paths@[i as int]@);
        if let Some(bytes) = &files[i] {
            fed.extend_from_slice(paths[i].as_str().as_bytes());
            fed.push(0);
            fed.extend_from_slice(bytes.as_slice());
            fed.push(0);
            assert(fed@ =~= hashed_bytes(ps, files@, i as nat) + (utf8::encode_utf8(ps[i as int])
                + seq![0u8] + bytes@ + seq![0u8]));
        }
    }
    sha256_hex(fed.as_slice())
}

proof fn lemma_contributions_differ(
    path: Seq<char>,
    file: Option<Seq<u8>>,
    other_path: Seq<char>,
    other: Option<Seq<u8>>,
)
    requires
        file != other && path == other_path || file == other && file is Some && path != other_path,
    ensures
        contribution(path, file) != contribution(other_path, other),
{
    let a = contribution(path, file);
    let b = contribution(other_path, other);
    let p = utf8::encode_utf8(path);
    let q = utf8::encode_utf8(other_path);
    utf8::encode_utf8_decode_utf8(path);
    utf8::encode_utf8_decode_utf8(other_path);
    if a == b && file is Some && other is Some {
        let x = file->Some_0;
        let y = other->Some_0;
        assert(a.len() == p.len() + x.len() + 2);
        assert(b.len() == q.len() + y.len() + 2);
        assert(a.take(p.len() as int) =~= p);
        assert(b.take(q.len() as int) =~= q);
        assert(a.subrange(p.len() as int + 1, a.len() - 1) =~= x);
        assert(b.subrange(q.len() as int + 1, b.len() - 1) =~= y);
    }
}

/// Where the parts of `g` are those of `f` but for some that are `b` in place
/// of a shorter `a`, they are the longer ones together.
proof fn lemma_parts_lengths(
    n: nat,
    f: spec_fn(int) -> Seq<u8>,
    g: spec_fn(int) -> Seq<u8>,
    a: Seq<u8>,
    b: Seq<u8>,
)
    requires
        forall|k: int| 0 <= k < n ==> #[trigger] f(k) == g(k) || f(k) == a && g(k) == b,
        a.len() <= b.len(),
    ensures
        text::each(n, f).len() <= text::each(n, g).len(),
        a.len() < b.len() && (exists|k: int| 0 <= k < n && #[trigger] f(k) != g(k))
            ==> text::each(n, f).len() < text::each(n, g).len(),
    decreases n,
{
    if n > 0 {
        lemma_parts_lengths((n - 1) as nat, f, g, a, b);
        assert(f(n - 1) == g(n - 1) || f(n - 1) == a && g(n - 1) == b);
    }
}

proof fn lemma_alike_parts(n: nat, f: spec_fn(int) -> Seq<u8>, g: spec_fn(int) -> Seq<u8>)
    requires
        forall|k: int| 0 <= k < n ==> (#[trigger] f(k)).len() == g(k).len(),
        text::each(n, f) == text::each(n, g),
    ensures
        forall|k: int| 0 <= k < n ==> #[trigger] f(k) == g(k),
    decreases n,
{
    if n > 0 {
        let m = (n - 1) as nat;
        let a = text::each(n, f);
        assert(f(n - 1).len() == g(n - 1).len());
        let cut = a.len() - f(n - 1).len();
        assert(a.take(cut) =~= text::each(m, f));
        assert(a.take(cut) =~= text::each(m, g));
        assert(a.skip(cut) =~= f(n - 1));
        assert(a.skip(cut) =~= g(n - 1));
        lemma_alike_parts(m, f, g);
    }
}

proof fn lemma_parts_differ(
    n: nat,
    f: spec_fn(int) -> Seq<u8>,
    g: spec_fn(int) -> Seq<u8>,
    a: Seq<u8>,
    b: Seq<u8>,
    i: int,
)
    requires
        forall|k: int| 0 <= k < n ==> #[trigger] f(k) == g(k) || f(k) == a && g(k) == b,
        a != b,
        0 <= i < n,
        f(i) == a,
        g(i) == b,
    ensures
        text::each(n, f) != text::each(n, g),
{
    if a.len() < b.len() {
        lemma_parts_lengths(n, f, g, a, b);
    } else if b.len() < a.len() {
        lemma_parts_lengths(n, g, f, b, a);
    } else if text::each(n, f) == text::each(n, g) {
        lemma_alike_parts(n, f, g);
    }
}

/// Renaming a file changes what is hashed, even with identical bytes: every
/// entry that lists it, however often it is listed.
pub proof fn law_a_rename_changes_what_is_hashed(
    paths: Seq<Seq<char>>,
    renamed: Seq<Seq<char>>,
    files: Seq<Option<Vec<u8>>>,
    from: Seq<char>,
    to: Seq<char>,
    bytes: Seq<u8>,
)
    requires
        paths.len() == files.len(),
        renamed.len() == paths.len(),
        from != to,
        paths.contains(from),
        forall|k: int|
            0 <= k < paths.len() && paths[k] == from ==> bytes_of(#[trigger] files[k]) == Some(bytes),
        forall|k: int|
            0 <= k < paths.len() ==> #[trigger] renamed[k] == if paths[k] == from {
                to
            } else {
                paths[k]
            },
    ensures
        hashed_bytes(renamed, files, files.len()) != hashed_bytes(paths, files, files.len()),
{
    let f = |i: int| contribution(paths[i], bytes_of(files[i]));
    let g = |i: int| contribution(renamed[i], bytes_of(files[i]));
    let a = contribution(from, Some(bytes));
    let b = contribution(to, Some(bytes));
    lemma_contributions_differ(from, Some(bytes), to, Some(bytes));
    assert forall|k: int| 0 <= k < files.len() implies #[trigger] f(k) == g(k) || f(k) == a && g(k)
        == b by {
        assert(paths[k] == from ==> bytes_of(files[k]) == Some(bytes));
        assert(renamed[k] == if paths[k] == from {
            to
        } else {
            paths[k]
        });
    }
    let i = paths.index_of(from);
    assert(renamed[i] == to);
    assert(bytes_of(files[i]) == Some(bytes));
    lemma_parts_differ(files.len(), f, g, a, b, i);
}

/// Editing a file changes what is hashed, and so does one that appears or
/// goes: every entry that lists it, however often it is listed.
pub proof fn law_an_edit_changes_what_is_hashed(
    paths: Seq<Seq<char>>,
    files: Seq<Option<Vec<u8>>>,
    edited: Seq<Option<Vec<u8>>>,
    path: Seq<char>,
    was: Option<Seq<u8>>,
    is_now: Option<Seq<u8>>,
)
    requires
        paths.len() == files.len(),
        edited.len() == files.len(),
        was != is_now,
        paths.contains(path),
        forall|k: int|
            0 <= k < paths.len() ==> if #[trigger] paths[k] == path {
                bytes_of(files[k]) == was && bytes_of(edited[k]) == is_now
            } else {
                bytes_of(edited[k]) == bytes_of(files[k])
            },
    ensures
        hashed_bytes(paths, edited, files.len()) != hashed_bytes(paths, files, files.len()),
{
    let f = |i: int| contribution(paths[i], bytes_of(files[i]));
    let g = |i: int| contribution(paths[i], bytes_of(edited[i]));
    let a = contribution(path, was);
    let b = contribution(path, is_now);
    lemma_contributions_differ(path, was, path, is_now);
    let i = paths.index_of(path);
    assert(paths[i] == path);
    assert forall|k: int| 0 <= k < files.len() implies #[trigger] f(k) == g(k) || f(k) == a && g(k)
        == b by {
        assert(paths[k] == path || paths[k] != path);
    }
    lemma_parts_differ(files.len(), f, g, a, b, i);
}

} // verus!

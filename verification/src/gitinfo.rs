//! Git facts about a house repo, decided from what git prints.
//!
//! The applied commit exists only when the house root is itself a git
//! worktree root: a nested fixture directory must not inherit an enclosing
//! repo's HEAD.

use crate::pending;
use crate::scan;
use crate::text;
use crate::text::cat2;
use crate::text::cut;
use crate::text::str_eq;
use vstd::prelude::*;

verus! {

broadcast use crate::text::group_views;

/// How many bytes UTF-8 takes for a character.
pub open spec fn char_width(c: char) -> int {
    let u = c as u32;
    if u < 0x80 {
        1
    } else if u < 0x800 {
        2
    } else if u < 0x10000 {
        3
    } else {
        4
    }
}

/// What follows the first `n` bytes, where a character begins there.
pub open spec fn after_bytes(s: Seq<char>, n: int) -> Option<Seq<char>>
    decreases s.len(),
{
    if n == 0 {
        Some(s)
    } else if n < 0 || s.len() == 0 {
        None
    } else {
        after_bytes(s.drop_first(), n - char_width(s[0]))
    }
}

/// Every path is under `plans/`.
pub open spec fn all_in_plans(paths: Seq<Seq<char>>) -> bool {
    forall|i: int| 0 <= i < paths.len() ==> scan::prefixed(#[trigger] paths[i], "plans/"@)
}

/// Whether a `status --porcelain` line's path is under `plans/`: after the
/// two status letters and a space, every side of ` -> `.
pub open spec fn in_plans(line: Seq<char>) -> bool {
    match after_bytes(line, 3) {
        Some(path) => all_in_plans(scan::split_text(path, " -> "@)),
        None => false,
    }
}

/// The path in a `status --porcelain` line.
fn path_of(line: &str) -> (r: Option<String>)
    ensures
        match r {
            Some(p) => after_bytes(line@, 3) == Some(p@),
            None => after_bytes(line@, 3) is None,
        },
{
    let chars = text::chars_of(line);
    let mut i: usize = 0;
    let mut left: i64 = 3;
    assert(line@.skip(0) =~= line@);
    while left > 0 && i < chars.len()
        invariant
            chars@ == line@,
            i <= chars@.len(),
            -4 < left <= 3,
            after_bytes(line@, 3) == after_bytes(line@.skip(i as int), left as int),
        decreases chars@.len() - i,
    {
        assert(line@.skip(i as int).drop_first() =~= line@.skip(i + 1));
        let u = chars[i] as u32;
        let width: i64 = if u < 0x80 {
            1
        } else if u < 0x800 {
            2
        } else if u < 0x10000 {
            3
        } else {
            4
        };
        left = left - width;
        i = i + 1;
    }
    if left == 0 {
        assert(line@.subrange(i as int, line@.len() as int) =~= line@.skip(i as int));
        Some(cut(line, i, chars.len()))
    } else {
        None
    }
}

/// Whether a `status --porcelain` line's path is under `plans/`. A rename
/// counts only when both sides are; paths git still quotes even with
/// quotePath off (a literal quote or newline in the name) never match and
/// so still count as dirty.
pub fn under_plans(line: &str) -> (r: bool)
    ensures
        r == in_plans(line@),
{
    match path_of(line) {
        Some(path) => {
            proof {
                reveal_strlit(" -> ");
            }
            let sides = scan::split_on(path.as_str(), " -> ");
            let ghost want = scan::split_text(path@, " -> "@);
            let mut i: usize = 0;
            while i < sides.len()
                invariant
                    text::views(sides@) == want,
                    want == scan::split_text(path@, " -> "@),
                    after_bytes(line@, 3) == Some(path@),
                    i <= sides@.len(),
                    forall|k: int| 0 <= k < i ==> scan::prefixed(#[trigger] want[k], "plans/"@),
                decreases sides@.len() - i,
            {
                assert(text::views(sides@)[i as int] == sides@[i as int]@);
                if !scan::starts_with(sides[i].as_str(), "plans/") {
                    assert(!scan::prefixed(want[i as int], "plans/"@));
                    return false;
                }
                i = i + 1;
            }
            true
        },
        None => false,
    }
}

/// Whether a worktree with this status has uncommitted changes that count.
pub open spec fn dirty(status: Seq<char>) -> bool {
    exists|i: int|
        0 <= i < scan::lines_of(status).len() && !in_plans(#[trigger] scan::lines_of(status)[i])
}

fn is_dirty(status: &str) -> (r: bool)
    ensures
        r == dirty(status@),
{
    let lines = scan::lines(status);
    let ghost want = scan::lines_of(status@);
    let mut i: usize = 0;
    while i < lines.len()
        invariant
            text::views(lines@) == want,
            want == scan::lines_of(status@),
            i <= lines@.len(),
            forall|k: int| 0 <= k < i ==> in_plans(#[trigger] want[k]),
        decreases lines@.len() - i,
    {
        assert(text::views(lines@)[i as int] == lines@[i as int]@);
        if !under_plans(lines[i].as_str()) {
            assert(!in_plans(scan::lines_of(status@)[i as int]));
            return true;
        }
        i = i + 1;
    }
    false
}

/// The repo's HEAD, suffixed `-dirty` when the worktree has uncommitted
/// changes. None when the root is not itself the top level of a git worktree
/// (not a repo, a nested directory, or a repo without commits).
///
/// `toplevel` and `root` are the canonical paths of the worktree's top level
/// and of the house, `head` is what `rev-parse HEAD` prints and `status` what
/// `status --porcelain` prints with path quoting off; each is None where it
/// could not be had.
///
/// Entries under `plans/` never count toward dirty: a saved pending plan is
/// a review artifact of the commit it was planned against and must not
/// invalidate itself.
pub fn head_commit(
    toplevel: Option<String>,
    root: Option<String>,
    head: Option<String>,
    status: Option<String>,
) -> (r: Option<String>)
    ensures
        text::opt_text(r) == match (toplevel, root, head, status) {
            (Some(t), Some(own), Some(h), Some(s)) => if t@ != own@ {
                None
            } else if dirty(s@) {
                Some(scan::trimmed(h@) + "-dirty"@)
            } else {
                Some(scan::trimmed(h@))
            },
            _ => None,
        },
{
    match (toplevel, root, head, status) {
        (Some(t), Some(own), Some(h), Some(s)) => {
            if !str_eq(t.as_str(), own.as_str()) {
                return None;
            }
            let commit = scan::trim(h.as_str());
            if is_dirty(s.as_str()) {
                Some(cat2(commit.as_str(), "-dirty"))
            } else {
                Some(commit)
            }
        },
        _ => None,
    }
}

/// A porcelain line: two status letters, a space, the path.
pub open spec fn porcelain(x: char, y: char, path: Seq<char>) -> Seq<char> {
    seq![x, y, ' '] + path
}

proof fn lemma_porcelain(x: char, y: char, path: Seq<char>)
    requires
        x as u32 <= 0x7f,
        y as u32 <= 0x7f,
    ensures
        after_bytes(porcelain(x, y, path), 3) == Some(path),
{
    let s = porcelain(x, y, path);
    let a = s.drop_first();
    let b = a.drop_first();
    assert(b.drop_first() =~= path);
    assert(a[0] == y && b[0] == ' ');
    assert(after_bytes(b, 1) == after_bytes(b.drop_first(), 0));
    assert(after_bytes(a, 2) == after_bytes(b, 1));
}

/// A change under `plans/` does not dirty the house, whatever its status
/// letters are.
pub proof fn law_a_plan_does_not_dirty(x: char, y: char, path: Seq<char>)
    requires
        x as u32 <= 0x7f,
        y as u32 <= 0x7f,
        scan::prefixed(path, "plans/"@),
        scan::found_from(path, " -> "@, 0) is None,
    ensures
        in_plans(porcelain(x, y, path)),
{
    lemma_porcelain(x, y, path);
    reveal_strlit(" -> ");
    assert(scan::split_text(path, " -> "@) == seq![path]);
}

/// A change anywhere else does.
pub proof fn law_any_other_change_dirties(x: char, y: char, path: Seq<char>)
    requires
        x as u32 <= 0x7f,
        y as u32 <= 0x7f,
        !scan::prefixed(path, "plans/"@),
        scan::found_from(path, " -> "@, 0) is None,
    ensures
        !in_plans(porcelain(x, y, path)),
{
    lemma_porcelain(x, y, path);
    reveal_strlit(" -> ");
    let sides = scan::split_text(path, " -> "@);
    assert(sides == seq![path]);
    assert(!scan::prefixed(sides[0], "plans/"@));
}

/// The file that a plan is saved in lies under `plans/`: saving a plan does
/// not invalidate it.
pub proof fn law_saved_plans_lie_under_plans(
    file: pending::PlanFile,
    plan_text: Seq<char>,
    tier: Seq<char>,
    actor: Seq<char>,
    base_commit: Seq<char>,
    secs: int,
)
    requires
        pending::saves(file, plan_text, tier, actor, base_commit, secs),
    ensures
        scan::prefixed(file.path@, "plans/"@),
{
    reveal_strlit("plans/");
    reveal_strlit("plans/pending/");
    assert(file.path@.take(6) =~= "plans/"@);
}

} // verus!

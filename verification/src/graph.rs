//! Who waits for whom: edges from an owner to the unit that depends on it,
//! the units no order can serve, and the order that serves the rest.

use crate::order;
use crate::order::sort;
use crate::order::sort_distinct;
use crate::order::Ranked;
use crate::text;
use crate::text::str_eq;
use vstd::prelude::*;

verus! {

broadcast use crate::text::group_views;

/// Whether an edge leads to `u` from a member of `s`.
pub open spec fn waits(
    edges: Seq<(Seq<char>, Seq<char>)>,
    u: Seq<char>,
    s: Set<Seq<char>>,
) -> bool {
    exists|i: int| 0 <= i < edges.len() && (#[trigger] edges[i]).1 == u && s.contains(edges[i].0)
}

/// Each member waits for a member: the set holds a cycle and what depends on
/// it.
pub open spec fn backed(edges: Seq<(Seq<char>, Seq<char>)>, s: Set<Seq<char>>) -> bool {
    forall|u: Seq<char>| #[trigger] s.contains(u) ==> waits(edges, u, s)
}

/// Whether no order can put everything that `u` waits for before it.
pub open spec fn stuck(edges: Seq<(Seq<char>, Seq<char>)>, u: Seq<char>) -> bool {
    exists|s: Set<Seq<char>>| #[trigger] s.contains(u) && backed(edges, s)
}

/// Both ends of the first `n` edges.
pub open spec fn ends(edges: Seq<(Seq<char>, Seq<char>)>, n: nat) -> Seq<Seq<char>> {
    text::each(n, |i: int| seq![edges[i].0, edges[i].1])
}

/// The ends of the edges, each once, in order.
pub open spec fn nodes(edges: Seq<(Seq<char>, Seq<char>)>) -> Seq<Seq<char>> {
    order::distinct(ends(edges, edges.len()))
}

/// Those of the first `n` nodes that no order can serve.
pub open spec fn stuck_nodes(edges: Seq<(Seq<char>, Seq<char>)>, n: nat) -> Seq<Seq<char>> {
    text::each(n, |i: int| text::only_if(stuck(edges, nodes(edges)[i]), nodes(edges)[i]))
}

proof fn lemma_end_is_node(edges: Seq<(Seq<char>, Seq<char>)>, i: int)
    requires
        0 <= i < edges.len(),
    ensures
        nodes(edges).contains(edges[i].0),
        nodes(edges).contains(edges[i].1),
{
    let f = |i: int| seq![edges[i].0, edges[i].1];
    assert(f(i)[0] == edges[i].0);
    assert(f(i)[1] == edges[i].1);
    text::lemma_each_has(edges.len(), f, i, edges[i].0);
    text::lemma_each_has(edges.len(), f, i, edges[i].1);
    order::lemma_distinct(ends(edges, edges.len()));
}

/// A unit that no order can serve is an end of some edge.
pub proof fn lemma_stuck_is_node(edges: Seq<(Seq<char>, Seq<char>)>, u: Seq<char>)
    requires
        stuck(edges, u),
    ensures
        nodes(edges).contains(u),
{
    let s = choose|s: Set<Seq<char>>| #[trigger] s.contains(u) && backed(edges, s);
    assert(waits(edges, u, s));
    let k = choose|k: int|
        0 <= k < edges.len() && (#[trigger] edges[k]).1 == u && s.contains(edges[k].0);
    lemma_end_is_node(edges, k);
}

/// The nodes marked as left.
spec fn left(nodes: Seq<Seq<char>>, marks: Seq<bool>) -> Set<Seq<char>> {
    Set::new(
        |u: Seq<char>|
            exists|i: int| 0 <= i < nodes.len() && i < marks.len() && #[trigger] nodes[i] == u && marks[i],
    )
}

spec fn marked(marks: Seq<bool>) -> nat
    decreases marks.len(),
{
    if marks.len() == 0 {
        0
    } else {
        marked(marks.drop_last()) + if marks.last() {
            1nat
        } else {
            0nat
        }
    }
}

proof fn lemma_unmark(marks: Seq<bool>, i: int)
    requires
        0 <= i < marks.len(),
        marks[i],
    ensures
        marked(marks.update(i, false)) + 1 == marked(marks),
    decreases marks.len(),
{
    let d = marks.drop_last();
    if i == marks.len() - 1 {
        assert(marks.update(i, false).drop_last() =~= d);
    } else {
        lemma_unmark(d, i);
        assert(marks.update(i, false).drop_last() =~= d.update(i, false));
    }
}

fn all_ends(edges: &Vec<(String, String)>) -> (r: Vec<String>)
    ensures
        text::views(r@) == nodes(text::views(edges@)),
{
    let ghost e = text::views(edges@);
    let mut out: Vec<String> = Vec::new();
    for i in 0..edges.len()
        invariant
            e == text::views(edges@),
            text::views(out@) == ends(e, i as nat),
    {
        out.push(edges[i].0.clone());
        out.push(edges[i].1.clone());
        assert(text::views(out@) =~= ends(e, i as nat) + seq![e[i as int].0, e[i as int].1]);
    }
    sort_distinct(out)
}

fn waits_for_left(
    edges: &Vec<(String, String)>,
    all: &Vec<String>,
    marks: &Vec<bool>,
    u: &String,
) -> (r: bool)
    requires
        all@.len() == marks@.len(),
    ensures
        r == waits(text::views(edges@), u@, left(text::views(all@), marks@)),
{
    let ghost e = text::views(edges@);
    let ghost s = left(text::views(all@), marks@);
    for i in 0..edges.len()
        invariant
            e == text::views(edges@),
            s == left(text::views(all@), marks@),
            all@.len() == marks@.len(),
            forall|k: int| 0 <= k < i ==> !((#[trigger] e[k]).1 == u@ && s.contains(e[k].0)),
    {
        assert(e[i as int] == edges@[i as int]@);
        if str_eq(edges[i].1.as_str(), u.as_str()) {
            for j in 0..all.len()
                invariant
                    i < edges@.len(),
                    e == text::views(edges@),
                    s == left(text::views(all@), marks@),
                    all@.len() == marks@.len(),
                    e[i as int].1 == u@,
                    forall|k: int|
                        0 <= k < j ==> !((#[trigger] text::views(all@)[k]) == e[i as int].0
                            && marks@[k]),
            {
                assert(text::views(all@)[j as int] == all@[j as int]@);
                if marks[j] && str_eq(all[j].as_str(), edges[i].0.as_str()) {
                    assert(s.contains(e[i as int].0));
                    return true;
                }
            }
            assert(!s.contains(e[i as int].0));
        }
    }
    false
}

/// The units that no order can serve: each waits, directly or through others,
/// on a cycle.
pub fn cycle_members(edges: &Vec<(String, String)>) -> (r: Vec<String>)
    ensures
        text::views(r@) == stuck_nodes(
            text::views(edges@),
            nodes(text::views(edges@)).len(),
        ),
{
    let ghost e = text::views(edges@);
    let all = all_ends(edges);
    let ghost ns = text::views(all@);
    let mut marks: Vec<bool> = Vec::new();
    for i in 0..all.len()
        invariant
            marks@.len() == i,
            forall|k: int| 0 <= k < i ==> #[trigger] marks@[k],
    {
        marks.push(true);
    }
    proof {
        assert forall|u: Seq<char>| stuck(e, u) implies left(ns, marks@).contains(u) by {
            lemma_stuck_is_node(e, u);
            let m = ns.index_of(u);
            assert(ns[m] == u && marks@[m]);
        }
    }
    let mut changed = true;
    while changed
        invariant
            e == text::views(edges@),
            ns == text::views(all@),
            ns == nodes(e),
            marks@.len() == all@.len(),
            forall|u: Seq<char>| stuck(e, u) ==> #[trigger] left(ns, marks@).contains(u),
            !changed ==> backed(e, left(ns, marks@)),
        decreases
                marked(marks@),
                if changed {
                    1int
                } else {
                    0int
                },
    {
        changed = false;
        let ghost start = marks@;
        for i in 0..all.len()
            invariant
                e == text::views(edges@),
                ns == text::views(all@),
                ns == nodes(e),
                marks@.len() == all@.len(),
                start.len() == all@.len(),
                forall|u: Seq<char>| stuck(e, u) ==> #[trigger] left(ns, marks@).contains(u),
                changed ==> marked(marks@) < marked(start),
                !changed ==> marks@ == start,
                !changed ==> forall|k: int|
                    0 <= k < i && marks@[k] ==> waits(e, #[trigger] ns[k], left(ns, marks@)),
        {
            assert(ns[i as int] == all@[i as int]@);
            if marks[i] && !waits_for_left(edges, &all, &marks, &all[i]) {
                let ghost old_marks = marks@;
                marks.set(i, false);
                changed = true;
                proof {
                    lemma_unmark(old_marks, i as int);
                    let before = left(ns, old_marks);
                    let after = left(ns, marks@);
                    assert forall|u: Seq<char>| stuck(e, u) implies #[trigger] after.contains(u) by {
                        assert(before.contains(u));
                        if u == ns[i as int] {
                            let s = choose|s: Set<Seq<char>>| #[trigger] s.contains(u) && backed(e, s);
                            assert(waits(e, u, s));
                            let k = choose|k: int|
                                0 <= k < e.len() && (#[trigger] e[k]).1 == u && s.contains(e[k].0);
                            assert(stuck(e, e[k].0)) by {
                                assert(s.contains(e[k].0));
                            }
                            assert(before.contains(e[k].0));
                            assert(waits(e, u, before));
                        } else {
                            let m = choose|m: int|
                                0 <= m < ns.len() && m < old_marks.len() && #[trigger] ns[m] == u
                                    && old_marks[m];
                            assert(marks@[m]);
                        }
                    }
                }
            }
        }
        proof {
            if !changed {
                let s = left(ns, marks@);
                assert forall|u: Seq<char>| #[trigger] s.contains(u) implies waits(e, u, s) by {
                    let m = choose|m: int|
                        0 <= m < ns.len() && m < marks@.len() && #[trigger] ns[m] == u && marks@[m];
                    assert(waits(e, ns[m], s));
                }
            }
        }
    }
    let ghost s = left(ns, marks@);
    proof {
        order::lemma_distinct(ends(e, e.len()));
    }
    let mut out: Vec<String> = Vec::new();
    for i in 0..all.len()
        invariant
            e == text::views(edges@),
            ns == text::views(all@),
            ns == nodes(e),
            s == left(ns, marks@),
            marks@.len() == all@.len(),
            forall|u: Seq<char>| stuck(e, u) ==> #[trigger] s.contains(u),
            backed(e, s),
            forall|i: int, j: int| 0 <= i < j < ns.len() ==> text::lex_lt(ns[i], ns[j]),
            text::views(out@) == stuck_nodes(e, i as nat),
    {
        proof {
            let u = ns[i as int];
            if marks@[i as int] {
                assert(s.contains(u));
                assert(stuck(e, u));
            }
            if stuck(e, u) {
                assert(s.contains(u));
                let m = choose|m: int|
                    0 <= m < ns.len() && m < marks@.len() && #[trigger] ns[m] == u && marks@[m];
                text::lemma_lex_irreflexive(u);
                assert(m == i);
            }
        }
        if marks[i] {
            out.push(all[i].clone());
        }
    }
    out
}

impl Ranked for (String, u8) {
    open spec fn goes_before(a: (Seq<char>, u8), b: (Seq<char>, u8)) -> bool {
        a.1 < b.1 || a.1 == b.1 && text::lex_lt(a.0, b.0)
    }

    proof fn lemma_order(a: (Seq<char>, u8), b: (Seq<char>, u8), c: (Seq<char>, u8)) {
        <String as Ranked>::lemma_order(a.0, b.0, c.0);
    }

    fn before(&self, other: &(String, u8)) -> (r: bool) {
        self.1 < other.1 || (self.1 == other.1 && self.0.before(&other.0))
    }
}

/// Whether the name is that of a member.
pub open spec fn is_member(set: Seq<(Seq<char>, u8)>, name: Seq<char>) -> bool {
    exists|j: int| 0 <= j < set.len() && (#[trigger] set[j]).0 == name
}

/// Whether an edge leads to `u` from another member.
pub open spec fn waits_in(
    edges: Seq<(Seq<char>, Seq<char>)>,
    set: Seq<(Seq<char>, u8)>,
    u: Seq<char>,
) -> bool {
    exists|i: int|
        0 <= i < edges.len() && (#[trigger] edges[i]).1 == u && edges[i].0 != u && is_member(
            set,
            edges[i].0,
        )
}

/// Those of the first `n` members that wait for no other (`waiting` false),
/// or that do (`waiting` true).
pub open spec fn members_that(
    edges: Seq<(Seq<char>, Seq<char>)>,
    set: Seq<(Seq<char>, u8)>,
    waiting: bool,
    n: nat,
) -> Seq<(Seq<char>, u8)> {
    text::each(n, |i: int| text::only_if(waits_in(edges, set, set[i].0) == waiting, set[i]))
}

/// Every member either waits or does not.
pub proof fn lemma_members_split(
    edges: Seq<(Seq<char>, Seq<char>)>,
    set: Seq<(Seq<char>, u8)>,
    n: nat,
)
    ensures
        members_that(edges, set, true, n).len() + members_that(edges, set, false, n).len() == n,
    decreases n,
{
    if n > 0 {
        lemma_members_split(edges, set, (n - 1) as nat);
    }
}

/// The members in an order that puts owners before their dependents: layer by
/// layer, each layer by kind and then name. Where no member is free of the
/// others, the rest stands as one layer.
pub open spec fn layered(
    edges: Seq<(Seq<char>, Seq<char>)>,
    set: Seq<(Seq<char>, u8)>,
) -> Seq<(Seq<char>, u8)>
    decreases set.len(),
{
    let free = members_that(edges, set, false, set.len());
    let rest = members_that(edges, set, true, set.len());
    proof {
        lemma_members_split(edges, set, set.len());
    }
    if free.len() == 0 {
        order::sorted::<(String, u8)>(set)
    } else {
        order::sorted::<(String, u8)>(free) + layered(edges, rest)
    }
}

fn has_member(set: &Vec<(String, u8)>, name: &String) -> (r: bool)
    ensures
        r == is_member(text::views(set@), name@),
{
    let ghost s = text::views(set@);
    for j in 0..set.len()
        invariant
            s == text::views(set@),
            forall|k: int| 0 <= k < j ==> (#[trigger] s[k]).0 != name@,
    {
        assert(s[j as int] == set@[j as int]@);
        if str_eq(set[j].0.as_str(), name.as_str()) {
            return true;
        }
    }
    false
}

fn member_waits(edges: &Vec<(String, String)>, set: &Vec<(String, u8)>, u: &String) -> (r: bool)
    ensures
        r == waits_in(text::views(edges@), text::views(set@), u@),
{
    let ghost e = text::views(edges@);
    for i in 0..edges.len()
        invariant
            e == text::views(edges@),
            forall|k: int|
                0 <= k < i ==> !((#[trigger] e[k]).1 == u@ && e[k].0 != u@ && is_member(
                    text::views(set@),
                    e[k].0,
                )),
    {
        assert(e[i as int] == edges@[i as int]@);
        if str_eq(edges[i].1.as_str(), u.as_str()) && !str_eq(edges[i].0.as_str(), u.as_str())
            && has_member(set, &edges[i].0) {
            return true;
        }
    }
    false
}

fn copy_members(set: &Vec<(String, u8)>) -> (r: Vec<(String, u8)>)
    ensures
        text::views(r@) == text::views(set@),
{
    let mut out: Vec<(String, u8)> = Vec::new();
    for i in 0..set.len()
        invariant
            out@.len() == i,
            forall|k: int| 0 <= k < i ==> (#[trigger] out@[k])@ == set@[k]@,
    {
        out.push((set[i].0.clone(), set[i].1));
    }
    assert(text::views(out@) =~= text::views(set@));
    out
}

/// Topological order over `set` — names with the rank of their kind — under
/// `edges` (owner before dependent), each layer sorted by kind and name. A
/// cyclic grant table is refused at check time (`grant-cycle`), so one cannot
/// reach a plan; a malformed table still degrades to sorted order rather than
/// looping.
pub fn ordered(set: &Vec<(String, u8)>, edges: &Vec<(String, String)>) -> (r: Vec<String>)
    ensures
        text::views(r@) == firsts(layered(text::views(edges@), text::views(set@))),
{
    let ghost e = text::views(edges@);
    let ghost whole = layered(e, text::views(set@));
    let mut remaining = copy_members(set);
    let mut out: Vec<String> = Vec::new();
    let ghost mut done: Seq<(Seq<char>, u8)> = Seq::empty();
    assert(done + layered(e, text::views(remaining@)) =~= whole);
    assert(text::views(out@) =~= firsts(done));
    while remaining.len() > 0
        invariant
            e == text::views(edges@),
            whole == done + layered(e, text::views(remaining@)),
            text::views(out@) == firsts(done),
        decreases remaining@.len(),
    {
        let ghost set = text::views(remaining@);
        let mut free: Vec<(String, u8)> = Vec::new();
        let mut rest: Vec<(String, u8)> = Vec::new();
        for i in 0..remaining.len()
            invariant
                e == text::views(edges@),
                set == text::views(remaining@),
                text::views(free@) == members_that(e, set, false, i as nat),
                text::views(rest@) == members_that(e, set, true, i as nat),
        {
            assert(set[i as int] == remaining@[i as int]@);
            if member_waits(edges, &remaining, &remaining[i].0) {
                rest.push((remaining[i].0.clone(), remaining[i].1));
            } else {
                free.push((remaining[i].0.clone(), remaining[i].1));
            }
        }
        proof {
            lemma_members_split(e, set, set.len());
        }
        if free.len() == 0 {
            free = remaining;
            rest = Vec::new();
            proof {
                assert(members_that(e, Seq::empty(), false, 0) =~= Seq::empty());
                assert(layered(e, text::views(rest@)) =~= Seq::empty());
            }
        }
        let layer = sort(free);
        let ghost ls = text::views(layer@);
        proof {
            assert(whole =~= (done + ls) + layered(e, text::views(rest@)));
        }
        for i in 0..layer.len()
            invariant
                ls == text::views(layer@),
                text::views(out@) == firsts(done + ls.take(i as int)),
        {
            proof {
                assert(ls[i as int] == layer@[i as int]@);
                assert(firsts(done + ls.take(i + 1)) =~= firsts(done + ls.take(i as int)).push(
                    ls[i as int].0,
                ));
            }
            out.push(layer[i].0.clone());
        }
        proof {
            assert(ls.take(ls.len() as int) =~= ls);
            done = done + ls;
        }
        remaining = rest;
    }
    proof {
        assert(members_that(e, Seq::empty(), false, 0) =~= Seq::empty());
        assert(layered(e, text::views(remaining@)) =~= Seq::empty());
        assert(done =~= whole);
    }
    out
}

/// The names of the members.
pub open spec fn firsts(s: Seq<(Seq<char>, u8)>) -> Seq<Seq<char>> {
    Seq::new(s.len(), |i: int| s[i].0)
}

proof fn lemma_members_multiset(
    edges: Seq<(Seq<char>, Seq<char>)>,
    set: Seq<(Seq<char>, u8)>,
    n: nat,
)
    requires
        n <= set.len(),
    ensures
        members_that(edges, set, true, n).to_multiset().add(
            members_that(edges, set, false, n).to_multiset(),
        ) == set.take(n as int).to_multiset(),
    decreases n,
{
    broadcast use vstd::seq_lib::group_to_multiset_ensures;
    broadcast use vstd::multiset::group_multiset_axioms;

    let yes = members_that(edges, set, true, n);
    let no = members_that(edges, set, false, n);
    if n == 0 {
        assert(set.take(0) =~= Seq::empty());
        assert(yes.to_multiset().add(no.to_multiset()) =~= set.take(0).to_multiset());
    } else {
        let m = (n - 1) as nat;
        let x = set[n - 1];
        lemma_members_multiset(edges, set, m);
        assert(set.take(n as int) =~= set.take(m as int).push(x));
        let yes_m = members_that(edges, set, true, m);
        let no_m = members_that(edges, set, false, m);
        if waits_in(edges, set, x.0) {
            assert(yes =~= yes_m.push(x));
            assert(no =~= no_m);
        } else {
            assert(no =~= no_m.push(x));
            assert(yes =~= yes_m);
        }
        assert(yes.to_multiset().add(no.to_multiset()) =~= yes_m.to_multiset().add(
            no_m.to_multiset(),
        ).insert(x));
    }
}

/// The walk visits every member exactly as often as it was given, and
/// nothing else.
pub proof fn law_ordered_permutes(
    edges: Seq<(Seq<char>, Seq<char>)>,
    set: Seq<(Seq<char>, u8)>,
)
    ensures
        layered(edges, set).to_multiset() == set.to_multiset(),
        layered(edges, set).len() == set.len(),
    decreases set.len(),
{
    broadcast use vstd::seq_lib::group_to_multiset_ensures;
    broadcast use vstd::multiset::group_multiset_axioms;

    let free = members_that(edges, set, false, set.len());
    let rest = members_that(edges, set, true, set.len());
    lemma_members_split(edges, set, set.len());
    if free.len() == 0 {
        order::lemma_sorted::<(String, u8)>(set);
    } else {
        order::lemma_sorted::<(String, u8)>(free);
        law_ordered_permutes(edges, rest);
        lemma_members_multiset(edges, set, set.len());
        assert(set.take(set.len() as int) =~= set);
        vstd::seq_lib::lemma_multiset_commutative(
            order::sorted::<(String, u8)>(free),
            layered(edges, rest),
        );
        assert(layered(edges, set).to_multiset() =~= set.to_multiset());
    }
}

proof fn lemma_member_that(
    edges: Seq<(Seq<char>, Seq<char>)>,
    set: Seq<(Seq<char>, u8)>,
    waiting: bool,
    x: (Seq<char>, u8),
)
    requires
        members_that(edges, set, waiting, set.len()).contains(x),
    ensures
        set.contains(x),
        waits_in(edges, set, x.0) == waiting,
{
    let f = |i: int| text::only_if(waits_in(edges, set, set[i].0) == waiting, set[i]);
    let k = members_that(edges, set, waiting, set.len()).index_of(x);
    let i = text::lemma_in_each(set.len(), f, k);
    assert(f(i).contains(x));
    assert(set[i] == x);
}

/// Members that wait for each other in a circle: some, each with an edge that
/// leads to it from another of them.
pub open spec fn tangled(
    edges: Seq<(Seq<char>, Seq<char>)>,
    set: Seq<(Seq<char>, u8)>,
    s: Set<Seq<char>>,
) -> bool {
    &&& exists|u: Seq<char>| s.contains(u)
    &&& forall|u: Seq<char>| #[trigger]
        s.contains(u) ==> is_member(set, u) && exists|k: int|
            0 <= k < edges.len() && (#[trigger] edges[k]).1 == u && edges[k].0 != u && s.contains(
                edges[k].0,
            )
}

/// Whether no members wait for each other in a circle.
pub open spec fn orderly(
    edges: Seq<(Seq<char>, Seq<char>)>,
    set: Seq<(Seq<char>, u8)>,
) -> bool {
    forall|s: Set<Seq<char>>| !#[trigger] tangled(edges, set, s)
}

/// Where no unit is stuck, no members wait for each other in a circle.
pub proof fn lemma_orderly(edges: Seq<(Seq<char>, Seq<char>)>, set: Seq<(Seq<char>, u8)>)
    requires
        forall|u: Seq<char>| !stuck(edges, u),
    ensures
        orderly(edges, set),
{
    assert forall|s: Set<Seq<char>>| !#[trigger] tangled(edges, set, s) by {
        if tangled(edges, set, s) {
            let u = choose|u: Seq<char>| s.contains(u);
            assert(s.contains(u) && backed(edges, s));
            assert(stuck(edges, u));
        }
    }
}

proof fn lemma_all_waiting_is_tangled(
    edges: Seq<(Seq<char>, Seq<char>)>,
    set: Seq<(Seq<char>, u8)>,
)
    requires
        set.len() > 0,
        members_that(edges, set, false, set.len()).len() == 0,
    ensures
        !orderly(edges, set),
{
    let free = members_that(edges, set, false, set.len());
    let s = Set::new(|u: Seq<char>| is_member(set, u));
    assert forall|u: Seq<char>| #[trigger] s.contains(u) implies exists|k: int|
        0 <= k < edges.len() && (#[trigger] edges[k]).1 == u && edges[k].0 != u && s.contains(
            edges[k].0,
        ) by {
        let m = choose|m: int| 0 <= m < set.len() && (#[trigger] set[m]).0 == u;
        if !waits_in(edges, set, u) {
            let f = |i: int| text::only_if(waits_in(edges, set, set[i].0) == false, set[i]);
            assert(f(m)[0] == set[m]);
            text::lemma_each_has(set.len(), f, m, set[m]);
            assert(free.len() > 0);
        }
        let k = choose|k: int|
            0 <= k < edges.len() && (#[trigger] edges[k]).1 == u && edges[k].0 != u && is_member(
                set,
                edges[k].0,
            );
        assert(s.contains(edges[k].0));
    }
    assert(is_member(set, set[0].0));
    assert(s.contains(set[0].0));
    assert(tangled(edges, set, s));
}

proof fn lemma_rest_is_orderly(
    edges: Seq<(Seq<char>, Seq<char>)>,
    set: Seq<(Seq<char>, u8)>,
)
    requires
        orderly(edges, set),
    ensures
        orderly(edges, members_that(edges, set, true, set.len())),
{
    let rest = members_that(edges, set, true, set.len());
    assert forall|s: Set<Seq<char>>| !#[trigger] tangled(edges, rest, s) by {
        if tangled(edges, rest, s) {
            assert forall|u: Seq<char>| #[trigger] s.contains(u) implies is_member(set, u) by {
                let m = choose|m: int| 0 <= m < rest.len() && (#[trigger] rest[m]).0 == u;
                lemma_member_that(edges, set, true, rest[m]);
                let w = set.index_of(rest[m]);
                assert(set[w].0 == u);
            }
            assert(tangled(edges, set, s));
        }
    }
}

/// Where no members wait for each other in a circle, the walk puts every
/// owner before the other members that depend on it.
pub proof fn law_owners_first(
    edges: Seq<(Seq<char>, Seq<char>)>,
    set: Seq<(Seq<char>, u8)>,
)
    requires
        orderly(edges, set),
    ensures
        forall|i: int, j: int, k: int|
            0 <= i < layered(edges, set).len() && 0 <= j < layered(edges, set).len() && 0 <= k
                < edges.len() && #[trigger] layered(edges, set)[i].0 == (#[trigger] edges[k]).0
                && #[trigger] layered(edges, set)[j].0 == edges[k].1 && edges[k].0 != edges[k].1
                ==> i < j,
    decreases set.len(),
{
    let free = members_that(edges, set, false, set.len());
    let rest = members_that(edges, set, true, set.len());
    let whole = layered(edges, set);
    lemma_members_split(edges, set, set.len());
    if set.len() == 0 {
        law_ordered_permutes(edges, set);
    } else if free.len() == 0 {
        lemma_all_waiting_is_tangled(edges, set);
    } else {
        let first = order::sorted::<(String, u8)>(free);
        let later = layered(edges, rest);
        order::lemma_sorted::<(String, u8)>(free);
        law_ordered_permutes(edges, rest);
        lemma_rest_is_orderly(edges, set);
        law_owners_first(edges, rest);
        law_ordered_permutes(edges, set);
        assert forall|i: int, j: int, k: int|
            0 <= i < whole.len() && 0 <= j < whole.len() && 0 <= k < edges.len()
                && #[trigger] whole[i].0 == (#[trigger] edges[k]).0 && #[trigger] whole[j].0
                == edges[k].1 && edges[k].0 != edges[k].1 implies i < j by {
            vstd::seq_lib::to_multiset_contains(whole, whole[i]);
            vstd::seq_lib::to_multiset_contains(set, whole[i]);
            let m = set.index_of(whole[i]);
            assert(set[m].0 == edges[k].0);
            assert(is_member(set, edges[k].0));
            assert(waits_in(edges, set, edges[k].1));
            if j < first.len() {
                assert(whole[j] == first[j]);
                vstd::seq_lib::to_multiset_contains(first, first[j]);
                vstd::seq_lib::to_multiset_contains(free, first[j]);
                lemma_member_that(edges, set, false, first[j]);
            } else if i >= first.len() {
                assert(whole[i] == later[i - first.len()]);
                assert(whole[j] == later[j - first.len()]);
            }
        }
    }
}

} // verus!

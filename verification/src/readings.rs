//! How texts are read: words, margins and places in them, and what the tools
//! of the house make of their arguments.

use crate::cli;
use crate::config;
use crate::config::StoredParam;
use crate::document;
use crate::json::JsonView;
use crate::manifest::CAPABILITIES;
use crate::mcp;
use crate::scan;
use crate::supervisor::unit;
use crate::text;
use vstd::prelude::*;

verus! {

proof fn lemma_growing_word(s: Seq<char>)
    ensures
        text::words_open(s).1 ==> text::words_open(s).0.len() > 0,
        text::words_open(s).1 <==> s.len() > 0 && !text::is_space(s.last()),
    decreases s.len(),
{
    if s.len() > 0 {
        lemma_growing_word(s.drop_last());
    }
}

proof fn lemma_words_apart(a: Seq<char>, space: char, b: Seq<char>)
    requires
        text::is_space(space),
    ensures
        text::words_open(a.push(space) + b).0 == text::words_open(a).0 + text::words_open(b).0,
        text::words_open(a.push(space) + b).1 == text::words_open(b).1,
    decreases b.len(),
{
    let s = a.push(space) + b;
    if b.len() == 0 {
        assert(s =~= a.push(space));
        assert(s.drop_last() =~= a);
        assert(text::words_open(s).0 =~= text::words_open(a).0 + text::words_open(b).0);
    } else {
        let d = b.drop_last();
        lemma_words_apart(a, space, d);
        lemma_growing_word(d);
        assert(s.drop_last() =~= a.push(space) + d);
        assert(s.last() == b.last());
        assert(text::words_open(s).0 =~= text::words_open(a).0 + text::words_open(b).0);
    }
}

/// The words of a text: none where it is empty; the text itself where it has
/// no white space; and the words before a white space, then those after it.
pub proof fn law_words_stand_between_white_space(a: Seq<char>, space: char, b: Seq<char>)
    ensures
        text::words(Seq::empty()).len() == 0,
        a.len() > 0 && (forall|i: int| 0 <= i < a.len() ==> !text::is_space(#[trigger] a[i]))
            ==> text::words(a) == seq![a],
        text::is_space(space) ==> text::words(a.push(space) + b) == text::words(a) + text::words(b),
{
    if text::is_space(space) {
        lemma_words_apart(a, space, b);
    }
    if a.len() > 0 && (forall|i: int| 0 <= i < a.len() ==> !text::is_space(#[trigger] a[i])) {
        lemma_one_word(a);
    }
}

proof fn lemma_one_word(a: Seq<char>)
    requires
        a.len() > 0,
        forall|i: int| 0 <= i < a.len() ==> !text::is_space(#[trigger] a[i]),
    ensures
        text::words_open(a) == (seq![a], true),
    decreases a.len(),
{
    let d = a.drop_last();
    assert(!text::is_space(a[a.len() - 1]));
    if d.len() > 0 {
        assert forall|i: int| 0 <= i < d.len() implies !text::is_space(#[trigger] d[i]) by {
            assert(d[i] == a[i]);
        }
        lemma_one_word(d);
        assert(d.push(a.last()) =~= a);
        assert(seq![d].drop_last().push(d.push(a.last())) =~= seq![a]);
    } else {
        assert(d =~= Seq::empty());
        assert(seq![a.last()] =~= a);
        assert(text::words_open(d) == (Seq::<Seq<char>>::empty(), false));
        assert(Seq::<Seq<char>>::empty().push(a) =~= seq![a]);
    }
}

/// Every character is white space.
pub open spec fn blank(s: Seq<char>) -> bool {
    forall|i: int| 0 <= i < s.len() ==> text::is_space(#[trigger] s[i])
}

proof fn lemma_trimmed_end(s: Seq<char>)
    ensures
        ({
            let t = scan::trimmed_end(s);
            &&& t.len() <= s.len()
            &&& t == s.take(t.len() as int)
            &&& blank(s.skip(t.len() as int))
            &&& t.len() > 0 ==> !text::is_space(t.last())
        }),
    decreases s.len(),
{
    let t = scan::trimmed_end(s);
    if s.len() > 0 && text::is_space(s.last()) {
        let d = s.drop_last();
        lemma_trimmed_end(d);
        assert(t =~= s.take(t.len() as int));
        assert forall|i: int| 0 <= i < s.skip(t.len() as int).len() implies text::is_space(
            #[trigger] s.skip(t.len() as int)[i],
        ) by {
            if i < d.len() - t.len() {
                assert(text::is_space(d.skip(t.len() as int)[i]));
            }
        }
    } else {
        assert(s =~= s.take(s.len() as int));
    }
}

proof fn lemma_trimmed_start(s: Seq<char>)
    ensures
        ({
            let t = scan::trimmed_start(s);
            &&& t.len() <= s.len()
            &&& t == s.skip(s.len() - t.len())
            &&& blank(s.take(s.len() - t.len()))
            &&& t.len() > 0 ==> !text::is_space(t[0]) && t.last() == s.last()
        }),
    decreases s.len(),
{
    let t = scan::trimmed_start(s);
    if s.len() > 0 && text::is_space(s[0]) {
        let d = s.drop_first();
        lemma_trimmed_start(d);
        assert(t =~= s.skip(s.len() - t.len()));
        let cut = s.take(s.len() - t.len());
        assert forall|i: int| 0 <= i < cut.len() implies text::is_space(#[trigger] cut[i]) by {
            if i > 0 {
                assert(text::is_space(d.take(d.len() - t.len())[i - 1]));
            }
        }
    } else {
        assert(s =~= s.skip(0));
    }
}

/// Trimming takes the white space off both ends of a text and nothing else.
pub proof fn law_trimming_takes_white_space_only(s: Seq<char>)
    ensures
        ({
            let t = scan::trimmed(s);
            &&& t.len() > 0 ==> !text::is_space(t[0]) && !text::is_space(t.last())
            &&& exists|a: Seq<char>, b: Seq<char>|
                s == #[trigger] (a + t + b) && blank(a) && blank(b)
        }),
{
    let e = scan::trimmed_end(s);
    let t = scan::trimmed(s);
    lemma_trimmed_end(s);
    lemma_trimmed_start(e);
    let a = e.take(e.len() - t.len());
    let b = s.skip(e.len() as int);
    assert(s =~= a + t + b);
}

/// A search from the front finds the first place from there on, one from the
/// back the last; neither finds any where there is none.
pub proof fn law_searches_find_the_nearest_place(s: Seq<char>, p: Seq<char>, from: int)
    requires
        0 <= from,
    ensures
        match scan::found_from(s, p, from) {
            Some(i) => from <= i && scan::stands_at(s, p, i) && forall|k: int|
                from <= k < i ==> !(#[trigger] scan::stands_at(s, p, k)),
            None => forall|k: int| from <= k ==> !(#[trigger] scan::stands_at(s, p, k)),
        },
    decreases s.len() + 1 - from,
{
    if from + p.len() <= s.len() && !scan::stands_at(s, p, from) {
        law_searches_find_the_nearest_place(s, p, from + 1);
    }
}

/// What is commanded under a key is reflected under its state twin: the same
/// key with `state` for `cmd`. Any key that commands nothing is its own
/// twin.
pub proof fn law_commands_have_a_state_twin(rest: Seq<char>, key: Seq<char>)
    ensures
        cli::state_twin("home/cmd/"@ + rest) == "home/state/"@ + rest,
        (forall|k: int| !(#[trigger] scan::stands_at(key, "home/cmd/"@, k))) ==> cli::state_twin(
            key,
        ) == key,
{
    let p = "home/cmd/"@;
    let k = p + rest;
    reveal_strlit("home/cmd/");
    assert(p.len() == 9);
    assert(k.subrange(0, 9) =~= p);
    assert(scan::stands_at(k, p, 0));
    assert(k.take(0) + "home/state/"@ + k.skip(9) =~= "home/state/"@ + rest);
    law_searches_find_the_nearest_place(key, p, 0);
}

/// The state tool reads what is under `home` and nothing else, and needs a
/// key.
pub proof fn law_the_state_tool_reads_the_house_only(args: JsonView)
    ensures
        match document::member(args, "key"@) {
            Some(JsonView::Str(key)) => if key == "home"@ || key.len() >= 5 && key.take(5)
                == "home/"@ {
                mcp::state_key_of(args) == Ok::<Seq<char>, Seq<char>>(key)
            } else {
                mcp::state_key_of(args) is Err
            },
            _ => mcp::state_key_of(args) is Err,
        },
{
    reveal_strlit("home/");
    reveal_strlit("home");
    assert("home/"@.len() == 5 && "home"@.len() == 4);
}

/// The history tool asks under `home/history` for the series that it is
/// given, never for another key, and only with parameters of their sort.
pub proof fn law_the_history_tool_asks_for_its_series(args: JsonView)
    ensures
        mcp::history_selector_of(args) matches Ok(selector) ==> {
            &&& document::member(args, "series"@) is Some
            &&& document::member(args, "series"@)->Some_0 is Str
            &&& ("home/history/"@ + document::member(args, "series"@)->Some_0->Str_0).is_prefix_of(
                selector,
            )
            &&& !document::member(args, "series"@)->Some_0->Str_0.contains('?')
            &&& document::member(args, "from"@) is Some ==> document::member(
                args,
                "from"@,
            )->Some_0 is Str
            &&& document::member(args, "to"@) is Some ==> document::member(args, "to"@)->Some_0
                is Str
            &&& document::member(args, "limit"@) matches Some(limit) ==> limit is Int && limit->Int_0
                >= 0
        },
{
    reveal_with_fuel(mcp::all_params, 4);
    if let Ok(selector) = mcp::history_selector_of(args) {
        let series = document::member(args, "series"@)->Some_0->Str_0;
        let head = "home/history/"@ + series;
        let parts = mcp::history_params(args);
        assert(parts[0] is Ok && parts[1] is Ok && parts[2] is Ok);
        assert(head =~= selector.subrange(0, head.len() as int));
    }
}

/// A unit has as many seconds of grace as its manifest says, or five.
pub proof fn law_grace_is_in_seconds(grace_s: Option<u32>)
    ensures
        grace_s matches Some(s) ==> unit::grace_of(grace_s) == s * 1000,
        grace_s is None ==> unit::grace_of(grace_s) == 5000,
{
}

/// A read hands out exactly the parameters that its filter keeps, each with
/// its value.
pub proof fn law_reads_hand_out_what_is_kept(
    entries: Seq<((String, String), StoredParam)>,
    keep: Seq<bool>,
    answer: (Seq<char>, Seq<char>, JsonView),
)
    ensures
        config::kept_values(entries, keep, entries.len()).contains(answer) <==> exists|i: int|
            0 <= i < entries.len() && keep[i] && (#[trigger] entries[i]).0.0@ == answer.0
                && entries[i].0.1@ == answer.1 && entries[i].1.value@ == answer.2,
{
    let all = config::kept_values(entries, keep, entries.len());
    let f = |i: int|
        text::only_if(keep[i], (entries[i].0.0@, entries[i].0.1@, entries[i].1.value@));
    if all.contains(answer) {
        let p = all.index_of(answer);
        let i = text::lemma_in_each(entries.len(), f, p);
        assert(f(i).contains(all[p]));
        assert(entries[i].0.0@ == answer.0);
    }
    if exists|i: int|
        0 <= i < entries.len() && keep[i] && (#[trigger] entries[i]).0.0@ == answer.0
            && entries[i].0.1@ == answer.1 && entries[i].1.value@ == answer.2 {
        let i = choose|i: int|
            0 <= i < entries.len() && keep[i] && (#[trigger] entries[i]).0.0@ == answer.0
                && entries[i].0.1@ == answer.1 && entries[i].1.value@ == answer.2;
        assert(f(i)[0] == answer);
        assert(f(i).contains(answer));
        text::lemma_each_has(entries.len(), f, i, answer);
    }
}

/// The log tool asks for the log of the unit that it names, with as many
/// lines as it says, where it says a number that is not negative.
pub proof fn law_the_log_tool_asks_for_its_unit(args: JsonView)
    ensures
        mcp::log_selector_of(args) is Ok <==> {
            &&& document::member(args, "unit"@) matches Some(JsonView::Str(unit)) && unit.len() > 0
            &&& document::member(args, "lines"@) matches Some(lines) ==> lines is Int
                && lines->Int_0 >= 0
        },
        mcp::log_selector_of(args) matches Ok(selector) ==> {
            let unit = document::member(args, "unit"@)->Some_0->Str_0;
            &&& ("home/meta/"@ + unit + "/log"@).is_prefix_of(selector)
            &&& document::member(args, "lines"@) is None ==> selector == "home/meta/"@ + unit
                + "/log"@
            &&& document::member(args, "lines"@) matches Some(lines) ==> selector == "home/meta/"@
                + unit + "/log?lines="@ + text::decimal(lines->Int_0 as nat)
        },
{
    reveal_strlit("/log");
    reveal_strlit("?lines=");
    reveal_strlit("/log?lines=");
    assert("/log"@ + "?lines="@ =~= "/log?lines="@);
    if let Ok(selector) = mcp::log_selector_of(args) {
        let unit = document::member(args, "unit"@)->Some_0->Str_0;
        let head = "home/meta/"@ + unit + "/log"@;
        assert(head =~= selector.subrange(0, head.len() as int));
        if let Some(lines) = document::member(args, "lines"@) {
            let n = text::decimal(lines->Int_0 as nat);
            assert(selector =~= "home/meta/"@ + unit + "/log?lines="@ + n);
        }
    }
}

/// There are six tools: to read the state, the history, the logs and the
/// events, and to explain a code and the schema.
pub proof fn law_there_are_six_tools(name: Seq<char>)
    ensures
        text::listed(mcp::TOOL_NAMES@, name) <==> name == "read_state"@ || name == "read_history"@
            || name == "read_logs"@ || name == "read_events"@ || name == "explain"@ || name
            == "schema"@,
{
    let all = mcp::TOOL_NAMES@;
    assert(all.len() == 6);
    assert(all[0]@ == "read_state"@ && all[1]@ == "read_history"@ && all[2]@ == "read_logs"@
        && all[3]@ == "read_events"@ && all[4]@ == "explain"@ && all[5]@ == "schema"@);
    if text::listed(all, name) {
        let i = choose|i: int| 0 <= i < all.len() && (#[trigger] all[i])@ == name;
        assert(i == 0 || i == 1 || i == 2 || i == 3 || i == 4 || i == 5);
    }
}

/// The capabilities that an entity can have.
pub proof fn law_there_are_twelve_capabilities(name: Seq<char>)
    ensures
        text::listed(CAPABILITIES@, name) <==> name == "binary_sensor"@ || name == "camera"@ || name
            == "climate"@ || name == "cover"@ || name == "light"@ || name == "lock"@ || name
            == "person"@ || name == "presence"@ || name == "router"@ || name == "sensor"@ || name
            == "switch"@ || name == "vpn"@,
{
    let all = CAPABILITIES@;
    assert(all.len() == 12);
    assert(all[0]@ == "binary_sensor"@ && all[1]@ == "camera"@ && all[2]@ == "climate"@ && all[3]@
        == "cover"@ && all[4]@ == "light"@ && all[5]@ == "lock"@);
    assert(all[6]@ == "person"@ && all[7]@ == "presence"@ && all[8]@ == "router"@ && all[9]@
        == "sensor"@ && all[10]@ == "switch"@ && all[11]@ == "vpn"@);
    if text::listed(all, name) {
        let i = choose|i: int| 0 <= i < all.len() && (#[trigger] all[i])@ == name;
        assert(i == 0 || i == 1 || i == 2 || i == 3 || i == 4 || i == 5 || i == 6 || i == 7 || i
            == 8 || i == 9 || i == 10 || i == 11);
    }
}

} // verus!

//! What the smaller operations answer: hosts, numbers, capabilities, hashed
//! inputs, loaded files, and the reports of an apply and of a refresh.

use crate::bus;
use crate::bus::HealthStatus;
use crate::cli;
use crate::config::StoredParam;
use crate::content;
use crate::floats;
use crate::json;
use crate::json::JsonView;
use crate::manifest;
use crate::manifest::UnitInputs;
use crate::manifest::UnitKind;
use crate::manifest::UnitManifest;
use crate::manifest::VOCABULARY;
use crate::mcp::http;
use crate::order;
use crate::plan;
use crate::plan::StepView;
use crate::plan::Tier;
use crate::repo;
use crate::repo::House;
use crate::repo::LoadedUnit;
use crate::repo::ReadFile;
use crate::restarts::alike;
use crate::scan;
use crate::supervisor::apply;
use crate::supervisor::serve;
use crate::text;
use crate::tomlvalue;
use crate::tomlvalue::TomlView;
use vstd::prelude::*;

verus! {

/// Floats are ordered as numbers are: of two of them exactly one is less, or
/// they are equal; a number that is not one is neither less than nor equal
/// to any; and what is less than the less is less.
pub proof fn law_floats_are_ordered(a: u64, b: u64, c: u64)
    ensures
        !floats::not_a_number(a) && !floats::not_a_number(b) ==> ({
            let lt = floats::float_lt(a, b);
            let gt = floats::float_lt(b, a);
            let eq = floats::float_eq(a, b);
            (lt || gt || eq) && !(lt && gt) && !(lt && eq) && !(gt && eq)
        }),
        floats::not_a_number(a) ==> !floats::float_lt(a, b) && !floats::float_lt(b, a)
            && !floats::float_eq(a, b),
        floats::float_lt(a, b) && floats::float_lt(b, c) ==> floats::float_lt(a, c),
        // What has its sign bit set is below zero, what has not is above.
        a > 0x8000_0000_0000_0000 && !floats::not_a_number(a) ==> floats::float_lt(a, 0),
        0 < a < 0x8000_0000_0000_0000 && !floats::not_a_number(a) ==> floats::float_lt(0, a),
        // Among those above zero the bits ascend with the number, among
        // those below they descend.
        a < b < 0x8000_0000_0000_0000 && !floats::not_a_number(b) ==> floats::float_lt(a, b),
        0x8000_0000_0000_0000 <= a < b && !floats::not_a_number(b) ==> floats::float_lt(b, a),
{
    assert(floats::magnitude(a) == if a < 0x8000_0000_0000_0000 {
        a as int
    } else {
        a - 0x8000_0000_0000_0000
    });
    assert(floats::magnitude(b) == if b < 0x8000_0000_0000_0000 {
        b as int
    } else {
        b - 0x8000_0000_0000_0000
    });
}

/// A number written in decimal is read back as itself.
pub proof fn law_decimals_read_back(n: nat)
    ensures
        text::number(text::decimal(n)) == Some(n as int),
        text::number(text::two_digits(n)) == Some(n as int),
{
    lemma_decimal(n);
    let d = text::decimal(n);
    assert(text::is_digit(d[0]));
    if n < 10 {
        reveal_strlit("0");
        let t = text::two_digits(n);
        assert(t =~= seq!['0', d[0]]);
        assert(d =~= seq![d[0]]);
        assert(t.drop_last() =~= seq!['0']);
        assert(seq!['0'].drop_last() =~= Seq::empty());
        assert(d.drop_last() =~= Seq::empty());
        reveal_with_fuel(text::digits_value, 3);
    }
}

proof fn lemma_decimal(n: nat)
    ensures
        text::decimal(n).len() > 0,
        forall|i: int|
            0 <= i < text::decimal(n).len() ==> text::is_digit(#[trigger] text::decimal(n)[i]),
        text::digits_value(text::decimal(n)) == n,
    decreases n,
{
    let d = text::decimal(n);
    if n < 10 {
        assert(d.drop_last() =~= Seq::empty());
        reveal_with_fuel(text::digits_value, 2);
    } else {
        lemma_decimal(n / 10);
        assert(d.drop_last() =~= text::decimal(n / 10));
        assert(text::digit_value(text::digit(n % 10)) == n % 10);
    }
}

/// The capabilities that take commands are climate, light, lock and switch.
pub proof fn law_four_capabilities_take_commands(name: Seq<char>)
    ensures
        manifest::takes_commands(name) <==> name == "climate"@ || name == "light"@ || name
            == "lock"@ || name == "switch"@,
{
    reveal_strlit("");
    reveal_strlit("setpoint");
    reveal_strlit("on");
    reveal_strlit("locked");
    reveal_strlit("binary_sensor");
    reveal_strlit("camera");
    reveal_strlit("climate");
    reveal_strlit("cover");
    reveal_strlit("light");
    reveal_strlit("lock");
    reveal_strlit("person");
    reveal_strlit("presence");
    reveal_strlit("router");
    reveal_strlit("sensor");
    reveal_strlit("switch");
    reveal_strlit("vpn");
    assert("binary_sensor"@.len() == 13 && "camera"@.len() == 6 && "climate"@.len() == 7
        && "cover"@.len() == 5 && "light"@.len() == 5 && "lock"@.len() == 4 && "person"@.len() == 6
        && "presence"@.len() == 8 && "router"@.len() == 6 && "sensor"@.len() == 6
        && "switch"@.len() == 6 && "vpn"@.len() == 3);
    assert("camera"@[0] == 'c' && "cover"@[0] == 'c' && "light"@[0] == 'l' && "person"@[0] == 'p'
        && "router"@[0] == 'r' && "sensor"@[1] == 'e' && "switch"@[1] == 'w' && "switch"@[0] == 's');
    assert(""@.len() == 0 && "setpoint"@.len() == 8 && "on"@.len() == 2 && "locked"@.len() == 6);
    assert(VOCABULARY@.len() == 12);
    reveal_with_fuel(manifest::row_from, 13);
}

/// The last place up to `to` is found: where one is, nothing later is.
proof fn lemma_last(s: Seq<char>, p: Seq<char>, to: int)
    ensures
        match scan::found_up_to(s, p, to) {
            Some(i) => 0 <= i <= to && scan::stands_at(s, p, i) && forall|k: int|
                i < k <= to ==> !(#[trigger] scan::stands_at(s, p, k)),
            None => forall|k: int| 0 <= k <= to ==> !(#[trigger] scan::stands_at(s, p, k)),
        },
    decreases to + 1,
{
    if to >= 0 && !scan::stands_at(s, p, to) {
        lemma_last(s, p, to - 1);
    }
}

/// No scheme is written in the value.
pub open spec fn no_scheme(value: Seq<char>) -> bool {
    forall|k: int| !(#[trigger] scan::stands_at(value, "://"@, k))
}

/// The host of a header value without a scheme. A bare host stands for
/// itself; a port after a colon is left out; and an address in brackets is
/// taken out of them, whatever follows.
pub proof fn law_hosts_are_without_ports_and_brackets(
    host: Seq<char>,
    port: Seq<char>,
    rest: Seq<char>,
)
    ensures
        !host.contains(':') && !host.contains('[') && no_scheme(host) ==> http::host_part(host)
            == host,
        !host.contains(':') && !host.contains('[') && !port.contains(':') && no_scheme(
            host + seq![':'] + port,
        ) && (forall|i: int| 0 <= i < port.len() ==> '0' <= #[trigger] port[i] <= '9')
            ==> http::host_part(host + seq![':'] + port) == host,
        !host.contains(']') && no_scheme(seq!['['] + host + seq![']'] + rest) ==> http::host_part(
            seq!['['] + host + seq![']'] + rest,
        ) == host,
{
    reveal_strlit("://");
    reveal_strlit(":");
    assert(":"@.len() == 1 && ":"@[0] == ':');
    if !host.contains(':') && !host.contains('[') && no_scheme(host) {
        lemma_last(host, "://"@, host.len() as int);
        lemma_last(host, ":"@, host.len() as int);
        if scan::found_up_to(host, ":"@, host.len() as int) is Some {
            let i = scan::found_up_to(host, ":"@, host.len() as int)->Some_0;
            assert(host.subrange(i, i + 1)[0] == ':');
            assert(host[i] == ':');
        }
    }
    let v = host + seq![':'] + port;
    if !host.contains(':') && !host.contains('[') && !port.contains(':') && no_scheme(v) && (forall|
        i: int,
    |
        0 <= i < port.len() ==> '0' <= #[trigger] port[i] <= '9') {
        let n = host.len() as int;
        lemma_last(v, "://"@, v.len() as int);
        lemma_last(v, ":"@, v.len() as int);
        assert(v.subrange(n, n + 1) =~= ":"@);
        assert(scan::stands_at(v, ":"@, n));
        let i = scan::found_up_to(v, ":"@, v.len() as int)->Some_0;
        assert(v.subrange(i, i + 1)[0] == ':');
        assert(v[i] == ':');
        if i > n {
            assert(port[i - n - 1] == ':');
        } else if i < n {
            assert(host[i] == ':');
        }
        assert(v.skip(n + 1) =~= port);
        assert(v.take(n) =~= host);
        assert(v[0] != '[') by {
            if n > 0 {
                assert(v[0] == host[0]);
            }
        }
    }
    let w = seq!['['] + host + seq![']'] + rest;
    if !host.contains(']') && no_scheme(w) {
        lemma_last(w, "://"@, w.len() as int);
        assert(w.skip(1) =~= host + seq![']'] + rest);
        lemma_up_to(host, ']', rest);
    }
}

proof fn lemma_up_to(host: Seq<char>, c: char, rest: Seq<char>)
    requires
        !host.contains(c),
    ensures
        http::up_to(host + seq![c] + rest, c) == host,
    decreases host.len(),
{
    let s = host + seq![c] + rest;
    if host.len() > 0 {
        assert(host[0] != c);
        let d = host.drop_first();
        assert(!d.contains(c)) by {
            if d.contains(c) {
                let i = d.index_of(c);
                assert(host[i + 1] == c);
            }
        }
        lemma_up_to(d, c, rest);
        assert(s.drop_first() =~= d + seq![c] + rest);
        assert(seq![host[0]] + d =~= host);
    } else {
        assert(s[0] == c);
    }
}

proof fn lemma_none_later(scheme: Seq<char>, p: Seq<char>, value: Seq<char>, i: int)
    requires
        p.len() == 3,
        p[0] == ':',
        p[1] == '/',
        p[2] == '/',
        scheme.len() < i,
        scan::stands_at(scheme + p + value, p, i),
    ensures
        scan::stands_at(value, p, i - scheme.len() - 3),
{
    let v = scheme + p + value;
    let n = scheme.len() as int;
    let k = i - n - 3;
    let piece = v.subrange(i, i + 3);
    assert(piece[0] == ':');
    assert(v[i] == ':');
    assert(v[n + 1] == p[1]);
    assert(v[n + 2] == p[2]);
    assert(k >= 0);
    assert(value.subrange(k, k + 3) =~= piece);
}

proof fn lemma_stands_after(scheme: Seq<char>, p: Seq<char>, value: Seq<char>)
    ensures
        scan::stands_at(scheme + p + value, p, scheme.len() as int),
{
    let v = scheme + p + value;
    let n = scheme.len() as int;
    assert(v.subrange(n, n + p.len()) =~= p);
}

proof fn lemma_scheme_found(scheme: Seq<char>, value: Seq<char>)
    requires
        no_scheme(value),
    ensures
        scan::found_up_to(
            scheme + "://"@ + value,
            "://"@,
            (scheme + "://"@ + value).len() as int,
        ) == Some(scheme.len() as int),
{
    let p = "://"@;
    let v = scheme + p + value;
    lemma_stands_after(scheme, p, value);
    lemma_last(v, p, v.len() as int);
    let found = scan::found_up_to(v, p, v.len() as int);
    assert(found is Some);
    let i = found->Some_0;
    if i > scheme.len() {
        assert(p.len() == 3 && p[0] == ':' && p[1] == '/' && p[2] == '/') by {
            reveal_strlit("://");
        }
        lemma_none_later(scheme, p, value, i);
        assert(!scan::stands_at(value, "://"@, i - scheme.len() - 3));
    }
}

/// A scheme in front of a value makes no difference to its host.
pub proof fn law_schemes_make_no_difference(scheme: Seq<char>, value: Seq<char>)
    requires
        no_scheme(value),
    ensures
        http::host_part(scheme + "://"@ + value) == http::host_part(value),
{
    let v = scheme + "://"@ + value;
    lemma_scheme_found(scheme, value);
    assert(http::after_scheme(v) == value) by {
        reveal_strlit("://");
        assert("://"@.len() == 3);
        assert(v.skip(scheme.len() as int + 3) =~= value);
    }
    assert(http::after_scheme(value) == value) by {
        lemma_last(value, "://"@, value.len() as int);
    }
}

/// What decides that a unit which is being started has come up, or will not:
/// its status, or the end of the wait where the status decides nothing.
pub proof fn law_starts_are_decided(status: Option<HealthStatus>, over: bool)
    ensures
        ({
            let r = apply::start_outcome(status, over);
            &&& (r is Some && r->Some_0 is Ok) <==> status == Some(HealthStatus::Running)
            &&& r is None <==> !over && status != Some(HealthStatus::Running) && status != Some(
                HealthStatus::Open,
            ) && status != Some(HealthStatus::Stopped)
        }),
{
}

/// The result of a walk says of every step that was taken what it did to
/// which unit and why it failed, if it did. The walk is all right exactly
/// where none failed; else it names the unit that did, and those after it
/// that were not reached.
pub proof fn law_results_tell_every_step(
    tier: Tier,
    params: Seq<bus::ApplyParamView>,
    walk: Seq<StepView>,
    faults: Seq<Option<Seq<char>>>,
)
    requires
        faults.len() <= walk.len(),
        forall|i: int| 0 <= i < faults.len() - 1 ==> #[trigger] faults[i] is None,
    ensures
        ({
            let r = apply::result_of(tier, params, walk, faults);
            &&& r.ok <==> forall|i: int| 0 <= i < faults.len() ==> #[trigger] faults[i] is None
            &&& r.params == params
            &&& r.tier == Some(tier.word())
            &&& r.error is None
            &&& r.steps.len() == faults.len()
            &&& forall|i: int|
                0 <= i < faults.len() ==> (#[trigger] r.steps[i]).unit == walk[i].unit
                    && r.steps[i].action == walk[i].action.word() && r.steps[i].error == faults[i]
                    && (r.steps[i].ok <==> faults[i] is None)
            &&& r.ok ==> r.halted_at is None && r.not_reached.len() == 0
            &&& !r.ok ==> r.halted_at == Some(walk[faults.len() - 1].unit) && r.not_reached.len()
                == walk.len() - faults.len() && forall|k: int|
                0 <= k < r.not_reached.len() ==> #[trigger] r.not_reached[k]
                    == walk[faults.len() + k].unit
        }),
{
    let r = apply::result_of(tier, params, walk, faults);
    if faults.len() > 0 {
        assert(faults.last() == faults[faults.len() - 1]);
    }
}

/// An apply is reported as done exactly where it was accepted, every step
/// was all right and so was the reply; else it is reported as failed. An
/// apply that was refused shows no details.
pub proof fn law_applies_are_done_or_failed(r: bus::ApplyResultView, replied_ok: bool)
    ensures
        cli::outcome_of(r, replied_ok).1 is None <==> r.error is None && r.ok && replied_ok,
        r.error is Some ==> cli::outcome_of(r, replied_ok).0 == ""@,
{
}

/// The endpoint on the command line goes before the one in the environment,
/// and an empty one is none.
pub proof fn law_the_flag_goes_before_the_environment(
    flag: Option<Seq<char>>,
    env: Option<Seq<char>>,
)
    ensures
        flag matches Some(e) ==> (e.len() > 0 ==> cli::endpoint_of(flag, env) == flag) && (e.len()
            == 0 ==> cli::endpoint_of(flag, env) is None),
        flag is None && (env matches Some(e) && e.len() > 0) ==> cli::endpoint_of(flag, env) == env,
        flag is None && !(env matches Some(e) && e.len() > 0) ==> cli::endpoint_of(flag, env)
            is None,
{
}

/// A plan is saved exactly where it changes something and there is a commit
/// that it is based on.
pub proof fn law_plans_are_saved_against_a_commit(
    d: plan::DiffView,
    base_commit: Option<Seq<char>>,
    path: Seq<char>,
)
    ensures
        cli::save_refused(d, base_commit, path) is None <==> base_commit is Some && (
        d.creates.len() > 0 || d.destroys.len() > 0 || d.restarts.len() > 0 || d.params.len() > 0
            || d.refreshes.len() > 0 || d.grant_adds.len() > 0 || d.grant_removes.len() > 0),
{
}

/// The files that a unit runs on beside its manifest. The words of its
/// command that are files count for every unit. Of a unit that reads the
/// house all manifests, entity files and the zones count; of any other the
/// files of the entities that it binds, and the zones where it uses one.
pub proof fn law_units_run_on_their_inputs(
    u: LoadedUnit,
    h: House,
    uses_zone: bool,
    is_file: Seq<bool>,
    path: Seq<char>,
)
    ensures
        ({
            let words = text::words(u.manifest.runtime.command@);
            let whole = u.manifest.unit.inputs == Some(UnitInputs::House);
            content::inputs_of(u, h, uses_zone, is_file).contains(path) <==> {
                ||| exists|k: int| 0 <= k < words.len() && is_file[k] && #[trigger] words[k] == path
                ||| whole && exists|i: int|
                    0 <= i < h.units@.len() && (#[trigger] h.units@[i]).path@ == path
                ||| exists|i: int|
                    0 <= i < h.entities@.len() && (#[trigger] h.entities@[i]).path@ == path && (whole
                        || h.entities@[i].owner@ == u.manifest.unit.name@)
                ||| path == "zones.toml"@ && (whole || uses_zone)
            }
        }),
{
    let words = text::words(u.manifest.runtime.command@);
    let whole = u.manifest.unit.inputs == Some(UnitInputs::House);
    let tokens = content::file_tokens(words, is_file, words.len());
    lemma_tokens(words, is_file, words.len(), path);
    if whole {
        let all = content::all_paths(h);
        let sorted = order::sorted::<String>(all);
        order::lemma_sorted::<String>(all);
        vstd::seq_lib::to_multiset_contains(all, path);
        vstd::seq_lib::to_multiset_contains(sorted, path);
        let rest = sorted.push("zones.toml"@);
        lemma_in_sum(tokens, rest, path);
        lemma_in_push(sorted, "zones.toml"@, path);
        lemma_all_paths(h, path);
    } else {
        let own = content::own_paths(h, u.manifest.unit.name@, h.entities@.len());
        let zones = text::only_if(uses_zone, "zones.toml"@);
        lemma_own(h, u.manifest.unit.name@, h.entities@.len(), path);
        lemma_in_sum(own, zones, path);
        lemma_in_sum(tokens, own + zones, path);
        if uses_zone {
            assert(zones[0] == "zones.toml"@);
        }
    }
}

proof fn lemma_in_sum(a: Seq<Seq<char>>, b: Seq<Seq<char>>, x: Seq<char>)
    ensures
        (a + b).contains(x) <==> a.contains(x) || b.contains(x),
{
    if a.contains(x) {
        let i = a.index_of(x);
        assert((a + b)[i] == x);
    }
    if b.contains(x) {
        let i = b.index_of(x);
        assert((a + b)[a.len() + i] == x);
    }
    if (a + b).contains(x) {
        let i = (a + b).index_of(x);
        if i < a.len() {
            assert(a[i] == x);
        } else {
            assert(b[i - a.len()] == x);
        }
    }
}

proof fn lemma_in_push(a: Seq<Seq<char>>, y: Seq<char>, x: Seq<char>)
    ensures
        a.push(y).contains(x) <==> a.contains(x) || x == y,
{
    assert(a.push(y) =~= a + seq![y]);
    lemma_in_sum(a, seq![y], x);
    assert(seq![y][0] == y);
}

proof fn lemma_tokens(words: Seq<Seq<char>>, is_file: Seq<bool>, n: nat, x: Seq<char>)
    requires
        n <= words.len(),
    ensures
        content::file_tokens(words, is_file, n).contains(x) <==> exists|k: int|
            0 <= k < n && is_file[k] && #[trigger] words[k] == x,
    decreases n,
{
    if n > 0 {
        let m = (n - 1) as nat;
        lemma_tokens(words, is_file, m, x);
        let before = content::file_tokens(words, is_file, m);
        let part = text::only_if(is_file[m as int], words[m as int]);
        assert(content::file_tokens(words, is_file, n) =~= before + part);
        lemma_in_sum(before, part, x);
        if is_file[m as int] {
            assert(part[0] == words[m as int]);
        }
    }
}

proof fn lemma_own(h: House, unit: Seq<char>, n: nat, x: Seq<char>)
    requires
        n <= h.entities@.len(),
    ensures
        content::own_paths(h, unit, n).contains(x) <==> exists|i: int|
            0 <= i < n && (#[trigger] h.entities@[i]).path@ == x && h.entities@[i].owner@ == unit,
    decreases n,
{
    if n > 0 {
        let m = (n - 1) as nat;
        lemma_own(h, unit, m, x);
        let before = content::own_paths(h, unit, m);
        let e = h.entities@[m as int];
        let part = text::only_if(e.owner@ == unit, e.path@);
        assert(content::own_paths(h, unit, n) =~= before + part);
        lemma_in_sum(before, part, x);
        if e.owner@ == unit {
            assert(part[0] == e.path@);
        }
    }
}

proof fn lemma_all_paths(h: House, x: Seq<char>)
    ensures
        content::all_paths(h).contains(x) <==> (exists|i: int|
            0 <= i < h.units@.len() && (#[trigger] h.units@[i]).path@ == x) || (exists|i: int|
            0 <= i < h.entities@.len() && (#[trigger] h.entities@[i]).path@ == x),
{
    let a = Seq::new(h.units@.len(), |i: int| h.units@[i].path@);
    let b = Seq::new(h.entities@.len(), |i: int| h.entities@[i].path@);
    lemma_in_sum(a, b, x);
    if a.contains(x) {
        let i = a.index_of(x);
        assert(h.units@[i].path@ == x);
    }
    if b.contains(x) {
        let i = b.index_of(x);
        assert(h.entities@[i].path@ == x);
    }
    if exists|i: int| 0 <= i < h.units@.len() && (#[trigger] h.units@[i]).path@ == x {
        let i = choose|i: int| 0 <= i < h.units@.len() && (#[trigger] h.units@[i]).path@ == x;
        assert(a[i] == x);
    }
    if exists|i: int| 0 <= i < h.entities@.len() && (#[trigger] h.entities@[i]).path@ == x {
        let i = choose|i: int|
            0 <= i < h.entities@.len() && (#[trigger] h.entities@[i]).path@ == x;
        assert(b[i] == x);
    }
}

/// The units of a house are the manifests that could be read, each with its
/// path, in the order of their files: one for each, and no other.
pub proof fn law_readable_manifests_are_loaded(
    files: Seq<ReadFile<UnitManifest>>,
    m: UnitManifest,
    path: Seq<char>,
)
    ensures
        repo::parsed_units(files, files.len()).contains((m, path)) <==> exists|i: int|
            0 <= i < files.len() && (#[trigger] files[i]).content == Ok::<UnitManifest, String>(m)
                && path == "units/"@ + files[i].name@,
{
    let all = repo::parsed_units(files, files.len());
    let f = |i: int|
        match files[i].content {
            Ok(m) => seq![(m, repo::unit_path(files[i].name@))],
            Err(_) => Seq::empty(),
        };
    if all.contains((m, path)) {
        let p = all.index_of((m, path));
        let i = text::lemma_in_each(files.len(), f, p);
        assert(f(i).contains(all[p]));
        assert(files[i].content == Ok::<UnitManifest, String>(m));
    }
    if exists|i: int|
        0 <= i < files.len() && (#[trigger] files[i]).content == Ok::<UnitManifest, String>(m)
            && path == "units/"@ + files[i].name@ {
        let i = choose|i: int|
            0 <= i < files.len() && (#[trigger] files[i]).content == Ok::<UnitManifest, String>(m)
                && path == "units/"@ + files[i].name@;
        assert(f(i)[0] == (m, path));
        assert(f(i).contains((m, path)));
        text::lemma_each_has(files.len(), f, i, (m, path));
    }
}

/// Entities are looked for where an adapter or an automation says that its
/// entities are, under its name, and nowhere else.
pub proof fn law_entities_are_looked_for_where_units_bind(
    units: Seq<(UnitManifest, Seq<char>)>,
    owner: Seq<char>,
    dir: Seq<char>,
)
    ensures
        repo::dirs_of(units, units.len()).contains((owner, dir)) <==> exists|i: int|
            0 <= i < units.len() && (#[trigger] units[i]).0.unit.name@ == owner
                && units[i].0.unit.kind != UnitKind::Service && units[i].0.entities is Some
                && units[i].0.entities->Some_0.dir@ == dir,
{
    let all = repo::dirs_of(units, units.len());
    let f = |i: int|
        match units[i].0.entities {
            Some(e) => text::only_if(
                repo::may_bind(units[i].0.unit.kind),
                (units[i].0.unit.name@, e.dir@),
            ),
            None => Seq::empty(),
        };
    if all.contains((owner, dir)) {
        let p = all.index_of((owner, dir));
        let i = text::lemma_in_each(units.len(), f, p);
        assert(f(i).contains(all[p]));
        assert(units[i].0.unit.name@ == owner);
    }
    if exists|i: int|
        0 <= i < units.len() && (#[trigger] units[i]).0.unit.name@ == owner && units[i].0.unit.kind
            != UnitKind::Service && units[i].0.entities is Some && units[i].0.entities->Some_0.dir@
            == dir {
        let i = choose|i: int|
            0 <= i < units.len() && (#[trigger] units[i]).0.unit.name@ == owner
                && units[i].0.unit.kind != UnitKind::Service && units[i].0.entities is Some
                && units[i].0.entities->Some_0.dir@ == dir;
        assert(repo::may_bind(units[i].0.unit.kind)) by {
            match units[i].0.unit.kind {
                UnitKind::Adapter => {},
                UnitKind::Automation => {},
                UnitKind::Service => {},
            }
        }
        assert(f(i)[0] == (owner, dir));
        assert(f(i).contains((owner, dir)));
        text::lemma_each_has(units.len(), f, i, (owner, dir));
    }
}

/// A refresh lists no change exactly where no parameter of the new manifest
/// has another default, constraint or editors than it had.
pub proof fn law_refreshes_list_what_changed(
    new: Seq<(Seq<char>, TomlView)>,
    before: Seq<(Seq<char>, TomlView)>,
)
    ensures
        plan::changes_between(new, before, new.len()).len() == 0 <==> forall|i: int|
            0 <= i < new.len() ==> field_kept(#[trigger] new[i], before, "default"@) && field_kept(
                new[i],
                before,
                "constraint"@,
            ) && field_kept(new[i], before, "editable_by"@),
{
    let f = |i: int|
        plan::param_changes(new[i].0, new[i].1, tomlvalue::entry(before, new[i].0));
    text::lemma_each_empty(new.len(), f);
    assert forall|i: int| 0 <= i < new.len() implies ((#[trigger] f(i)).len() == 0 <==> field_kept(
        new[i],
        before,
        "default"@,
    ) && field_kept(new[i], before, "constraint"@) && field_kept(
        new[i],
        before,
        "editable_by"@,
    )) by {}
    if plan::changes_between(new, before, new.len()).len() == 0 {
        assert forall|i: int| 0 <= i < new.len() implies field_kept(
            #[trigger] new[i],
            before,
            "default"@,
        ) && field_kept(new[i], before, "constraint"@) && field_kept(
            new[i],
            before,
            "editable_by"@,
        ) by {
            assert(f(i).len() == 0);
        }
    }
}

/// The field of the parameter is what it was under the same name: the same
/// value, or none as before.
pub open spec fn field_kept(
    param: (Seq<char>, TomlView),
    before: Seq<(Seq<char>, TomlView)>,
    field: Seq<char>,
) -> bool {
    alike(
        tomlvalue::member(param.1, field),
        match tomlvalue::entry(before, param.0) {
            Some(p) => tomlvalue::member(p, field),
            None => None,
        },
    )
}

/// Two JSON values are the same exactly where they are of one kind and hold
/// the same: numbers written as floats by their number, arrays item by item
/// and objects entry by entry.
pub proof fn law_same_json(a: JsonView, b: JsonView)
    ensures
        json::json_same(a, b) <==> match a {
            JsonView::Null => b is Null,
            JsonView::Bool(x) => b matches JsonView::Bool(y) && x == y,
            JsonView::Int(x) => b matches JsonView::Int(y) && x == y,
            JsonView::Float(x) => b matches JsonView::Float(y) && floats::float_eq(x, y),
            JsonView::Str(x) => b matches JsonView::Str(y) && x == y,
            JsonView::Array(x) => b matches JsonView::Array(y) && x.len() == y.len() && forall|
                i: int,
            |
                0 <= i < x.len() ==> json::json_same(#[trigger] x[i], y[i]),
            JsonView::Object(x) => b matches JsonView::Object(y) && x.len() == y.len() && forall|
                i: int,
            |
                0 <= i < x.len() ==> (#[trigger] x[i]).0 == y[i].0 && json::json_same(
                    x[i].1,
                    y[i].1,
                ),
        },
{
}

/// A write is meant for the parameter that its key names after
/// `home/config`, and for none where the key has another form or holds a
/// wildcard.
pub proof fn law_writes_are_meant_for_one_parameter(
    key: Seq<char>,
    unit: Seq<char>,
    param: Seq<char>,
)
    ensures
        serve::write_target(key) == Some((unit, param)) <==> text::split_at_each(key, '/')
            =~= seq!["home"@, "config"@, unit, param] && !unit.contains('*') && !param.contains('*'),
{
    let pieces = text::split_at_each(key, '/');
    if serve::write_target(key) == Some((unit, param)) {
        assert(pieces =~= seq!["home"@, "config"@, unit, param]);
    }
}

/// A query is answered with the key and the value of every parameter whose
/// key it covers, and with nothing else.
pub proof fn law_queries_are_answered_in_full(
    entries: Seq<((String, String), StoredParam)>,
    selector: Seq<char>,
    answer: (Seq<char>, Seq<char>),
)
    ensures
        serve::covered_values(entries, selector, entries.len()).contains(answer) <==> exists|i: int|
            0 <= i < entries.len() && answer.0 == "home/config/"@ + (
            #[trigger] entries[i]).0.0@ + "/"@ + entries[i].0.1@ && answer.1 == json::json_text(
                entries[i].1.value@,
            ) && serve::keys_intersect(selector, answer.0),
{
    let all = serve::covered_values(entries, selector, entries.len());
    let f = |i: int|
        text::only_if(
            serve::keys_intersect(
                selector,
                bus::config_path(entries[i].0.0@, entries[i].0.1@),
            ),
            (
                bus::config_path(entries[i].0.0@, entries[i].0.1@),
                json::json_text(entries[i].1.value@),
            ),
        );
    if all.contains(answer) {
        let p = all.index_of(answer);
        let i = text::lemma_in_each(entries.len(), f, p);
        assert(f(i).contains(all[p]));
        assert(answer.0 == "home/config/"@ + entries[i].0.0@ + "/"@ + entries[i].0.1@);
    }
    if exists|i: int|
        0 <= i < entries.len() && answer.0 == "home/config/"@ + (#[trigger] entries[i]).0.0@ + "/"@
            + entries[i].0.1@ && answer.1 == json::json_text(entries[i].1.value@)
            && serve::keys_intersect(selector, answer.0) {
        let i = choose|i: int|
            0 <= i < entries.len() && answer.0 == "home/config/"@ + (#[trigger] entries[i]).0.0@
                + "/"@ + entries[i].0.1@ && answer.1 == json::json_text(entries[i].1.value@)
                && serve::keys_intersect(selector, answer.0);
        assert(f(i)[0] == answer);
        assert(f(i).contains(answer));
        text::lemma_each_has(entries.len(), f, i, answer);
    }
}

} // verus!

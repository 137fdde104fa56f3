//! What passes between the house and its surroundings: what a unit's process
//! inherits and runs, what is kept of its output, and which peers are heard.

use crate::bus::LogEntry;
use crate::config;
use crate::config::StoredParam;
use crate::json;
use crate::json::JsonView;
use crate::mcp::http;
use crate::mcp::http::Address;
use crate::scan;
use crate::supervisor::process;
use crate::supervisor::process::BASE_ENV;
use crate::supervisor::process::BASE_ENV_PREFIXES;
use crate::text;
use vstd::prelude::*;

verus! {

/// A variable that every process needs: where things are, who the user is,
/// the language and the time zone, and where certificates lie.
pub open spec fn is_base(name: Seq<char>) -> bool {
    ||| name == "PATH"@
    ||| name == "HOME"@
    ||| name == "USER"@
    ||| name == "LOGNAME"@
    ||| name == "SHELL"@
    ||| name == "LANG"@
    ||| name == "LANGUAGE"@
    ||| name == "TZ"@
    ||| name == "TMPDIR"@
    ||| name == "TERM"@
    ||| name == "REQUESTS_CA_BUNDLE"@
    ||| "LC_"@.is_prefix_of(name)
    ||| "XDG_"@.is_prefix_of(name)
    ||| "UV_"@.is_prefix_of(name)
    ||| "PYTHON"@.is_prefix_of(name)
    ||| "SSL_CERT_"@.is_prefix_of(name)
}

proof fn lemma_prefixed(s: Seq<char>, p: Seq<char>)
    ensures
        scan::prefixed(s, p) <==> p.is_prefix_of(s),
{
    if s.len() >= p.len() {
        assert(s.take(p.len() as int) =~= s.subrange(0, p.len() as int));
    }
}

/// A unit sees a variable of the supervisor's environment exactly where
/// every process needs it or the unit's manifest declares it: what was meant
/// for one unit does not reach another.
pub proof fn law_units_see_base_and_declared_variables(name: Seq<char>, declared: Seq<Seq<char>>)
    ensures
        process::passes(name, declared) <==> is_base(name) || declared.contains(name),
{
    let all = BASE_ENV@;
    assert(all.len() == 11);
    assert(all[0]@ == "PATH"@ && all[1]@ == "HOME"@ && all[2]@ == "USER"@ && all[3]@ == "LOGNAME"@
        && all[4]@ == "SHELL"@ && all[5]@ == "LANG"@);
    assert(all[6]@ == "LANGUAGE"@ && all[7]@ == "TZ"@ && all[8]@ == "TMPDIR"@ && all[9]@ == "TERM"@
        && all[10]@ == "REQUESTS_CA_BUNDLE"@);
    if text::listed(all, name) {
        let i = choose|i: int| 0 <= i < all.len() && (#[trigger] all[i])@ == name;
        assert(i == 0 || i == 1 || i == 2 || i == 3 || i == 4 || i == 5 || i == 6 || i == 7 || i
            == 8 || i == 9 || i == 10);
    }
    let prefixes = BASE_ENV_PREFIXES@;
    assert(prefixes.len() == 5);
    assert(prefixes[0]@ == "LC_"@ && prefixes[1]@ == "XDG_"@ && prefixes[2]@ == "UV_"@
        && prefixes[3]@ == "PYTHON"@ && prefixes[4]@ == "SSL_CERT_"@);
    lemma_prefixed(name, "LC_"@);
    lemma_prefixed(name, "XDG_"@);
    lemma_prefixed(name, "UV_"@);
    lemma_prefixed(name, "PYTHON"@);
    lemma_prefixed(name, "SSL_CERT_"@);
    if exists|i: int|
        0 <= i < prefixes.len() && scan::prefixed(name, (#[trigger] prefixes[i])@) {
        let i = choose|i: int|
            0 <= i < prefixes.len() && scan::prefixed(name, (#[trigger] prefixes[i])@);
        assert(i == 0 || i == 1 || i == 2 || i == 3 || i == 4);
    }
    if "LC_"@.is_prefix_of(name) {
        assert(scan::prefixed(name, prefixes[0]@));
    }
    if "XDG_"@.is_prefix_of(name) {
        assert(scan::prefixed(name, prefixes[1]@));
    }
    if "UV_"@.is_prefix_of(name) {
        assert(scan::prefixed(name, prefixes[2]@));
    }
    if "PYTHON"@.is_prefix_of(name) {
        assert(scan::prefixed(name, prefixes[3]@));
    }
    if "SSL_CERT_"@.is_prefix_of(name) {
        assert(scan::prefixed(name, prefixes[4]@));
    }
}

/// What is kept of a captured line is its beginning, up to the carriage
/// returns and newlines at its end: none of them stays, and nothing else
/// goes.
pub proof fn law_lines_lose_their_ends_only(buf: Seq<u8>)
    ensures
        process::without_line_end(buf).is_prefix_of(buf),
        process::without_line_end(buf).len() > 0 ==> process::without_line_end(buf).last() != 10
            && process::without_line_end(buf).last() != 13,
        forall|i: int|
            process::without_line_end(buf).len() <= i < buf.len() ==> #[trigger] buf[i] == 10
                || buf[i] == 13,
    decreases buf.len(),
{
    if buf.len() > 0 && (buf.last() == 10 || buf.last() == 13) {
        let d = buf.drop_last();
        law_lines_lose_their_ends_only(d);
        let k = process::without_line_end(buf);
        assert(k =~= buf.subrange(0, k.len() as int));
        assert forall|i: int| k.len() <= i < buf.len() implies #[trigger] buf[i] == 10 || buf[i]
            == 13 by {
            if i < d.len() {
                assert(d[i] == buf[i]);
            }
        }
    } else {
        assert(buf =~= buf.subrange(0, buf.len() as int));
    }
}

/// Asked for some lines of a log, one gets the last so many, in their order,
/// or all where there are fewer; asked without a number, one gets all.
pub proof fn law_logs_give_the_last_lines(buffer: Seq<LogEntry>, lines: Option<nat>)
    ensures
        process::last_lines(buffer, lines).len() == match lines {
            Some(n) => if n < buffer.len() {
                n
            } else {
                buffer.len()
            },
            None => buffer.len(),
        },
        process::last_lines(buffer, lines).is_suffix_of(buffer),
{
    let r = process::last_lines(buffer, lines);
    assert(r =~= buffer.subrange(buffer.len() - r.len(), buffer.len() as int));
}

/// A log takes each line at its end and, once it holds a full buffer, lets
/// the oldest go.
pub proof fn law_logs_take_lines_at_the_end(buffer: Seq<LogEntry>, entry: LogEntry)
    requires
        buffer.len() <= process::LOG_CAPACITY,
    ensures
        process::appended(buffer, entry).last() == entry,
        process::appended(buffer, entry).is_suffix_of(buffer.push(entry)),
        process::appended(buffer, entry).len() == if buffer.len() < process::LOG_CAPACITY {
            (buffer.len() + 1) as nat
        } else {
            buffer.len()
        },
{
    let r = process::appended(buffer, entry);
    let s = buffer.push(entry);
    assert(r =~= s.subrange(s.len() - r.len(), s.len() as int));
}

/// The script of a command that runs one through `uv run` is its first word
/// after these two that ends in `.py`, and the arguments are the words that
/// follow. No other command has a script.
pub proof fn law_the_script_is_the_first_python_file(command: Seq<char>)
    ensures
        ({
            let words = text::words(command);
            let through_uv = words.len() >= 2 && words[0] == "uv"@ && words[1] == "run"@;
            match process::script_of(command) {
                Some((script, args)) => through_uv && exists|k: int|
                    2 <= k < words.len() && #[trigger] words[k] == script && scan::suffixed(
                        words[k],
                        ".py"@,
                    ) && args == words.subrange(k + 1, words.len() as int) && forall|i: int|
                        2 <= i < k ==> !scan::suffixed(#[trigger] words[i], ".py"@),
                None => through_uv ==> forall|i: int|
                    2 <= i < words.len() ==> !scan::suffixed(#[trigger] words[i], ".py"@),
            }
        }),
{
    let words = text::words(command);
    lemma_script(words, 2);
    if let Some(k) = process::script_place(words) {
        assert(words.skip(k + 1) =~= words.subrange(k + 1, words.len() as int));
        assert(words[k] == process::script_of(command)->Some_0.0);
    }
}

proof fn lemma_script(words: Seq<Seq<char>>, from: int)
    requires
        0 <= from,
    ensures
        match process::script_from(words, from) {
            Some(k) => from <= k < words.len() && scan::suffixed(words[k], ".py"@) && forall|i: int|
                from <= i < k ==> !scan::suffixed(#[trigger] words[i], ".py"@),
            None => forall|i: int|
                from <= i < words.len() ==> !scan::suffixed(#[trigger] words[i], ".py"@),
        },
    decreases words.len() - from,
{
    if from < words.len() && !scan::suffixed(words[from], ".py"@) {
        lemma_script(words, from + 1);
    }
}

/// A unit's command is run as it is written, unless it runs a script through
/// `uv`, its environment is ready, and one interpreter was found: a path
/// without white space.
pub proof fn law_commands_run_as_written_unless_resolved(
    command: Seq<char>,
    synced: bool,
    found: Option<Seq<char>>,
)
    ensures
        ({
            let resolved = synced && process::script_of(command) is Some && found is Some
                && scan::trimmed(found->Some_0).len() > 0 && !scan::has_space(
                scan::trimmed(found->Some_0),
            );
            &&& !resolved ==> process::run_command(command, synced, found) == command
            &&& resolved ==> process::run_command(command, synced, found) == text::joined(
                seq![scan::trimmed(found->Some_0), process::script_of(command)->Some_0.0]
                    + process::script_of(command)->Some_0.1,
                " "@,
            )
        }),
{
}

/// The address as one number.
pub open spec fn v4_number(a: Seq<u8>) -> int {
    a[0] * 0x100_0000 + a[1] * 0x1_0000 + a[2] * 0x100 + a[3]
}

/// An IPv4 address is one of the house's own network exactly where it lies
/// in 10.0.0.0/8, 172.16.0.0/12, 192.168.0.0/16, 127.0.0.0/8 or
/// 169.254.0.0/16, or is 0.0.0.0.
pub proof fn law_local_addresses_lie_in_the_private_blocks(a: Seq<u8>)
    requires
        a.len() == 4,
    ensures
        http::local_v4(a) <==> ({
            let n = v4_number(a);
            ||| n / 0x100_0000 == 10
            ||| n / 0x10_0000 == 172 * 16 + 1
            ||| n / 0x1_0000 == 192 * 256 + 168
            ||| n / 0x100_0000 == 127
            ||| n / 0x1_0000 == 169 * 256 + 254
            ||| n == 0
        }),
{
    let n = v4_number(a);
    let low = a[1] * 0x1_0000 + a[2] * 0x100 + a[3];
    assert(0 <= low < 0x100_0000);
    assert(n / 0x100_0000 == a[0]);
    let lower = a[2] * 0x100 + a[3];
    assert(n / 0x1_0000 == a[0] * 0x100 + a[1]);
    let high: int = a[1] as int / 16;
    assert(n / 0x10_0000 == a[0] * 16 + high);
    assert(high == 1 <==> 16 <= a[1] <= 31);
}

/// A peer is heard exactly where it names a host that the house answers to,
/// or an address of its own network.
pub proof fn law_peers_are_named_or_near(
    value: Seq<char>,
    address: Option<Address>,
    extra: Option<Seq<char>>,
)
    ensures
        http::allowed(value, address, extra) <==> {
            let host = http::host_part(value);
            ||| host == "localhost"@
            ||| host == "homeostat"@
            ||| host == "homeostat.lan"@
            ||| host == "homeostat.local"@
            ||| extra is Some && (exists|i: int|
                0 <= i < text::split_at_each(extra->Some_0, ',').len() && scan::trimmed(
                    #[trigger] text::split_at_each(extra->Some_0, ',')[i],
                ) == host)
            ||| match address {
                Some(Address::V4(b)) => http::local_v4(b@),
                Some(Address::V6(b)) => http::local_v6(b@),
                None => false,
            }
        },
{
    let names = http::ALLOWED_NAMES@;
    assert(names.len() == 4);
    assert(names[0]@ == "localhost"@ && names[1]@ == "homeostat"@ && names[2]@ == "homeostat.lan"@
        && names[3]@ == "homeostat.local"@);
    let host = http::host_part(value);
    if text::listed(names, host) {
        let i = choose|i: int| 0 <= i < names.len() && (#[trigger] names[i])@ == host;
        assert(i == 0 || i == 1 || i == 2 || i == 3);
    }
}

/// When a store is rebuilt, what is announced are exactly the parameters
/// that the old store held too and whose value changed, each with its new
/// value.
pub proof fn law_rebuilt_values_are_announced(
    entries: Seq<((String, String), StoredParam)>,
    before: Seq<((String, String), StoredParam)>,
    change: (Seq<char>, Seq<char>, JsonView),
)
    ensures
        config::changed_values(entries, before, entries.len()).contains(change) <==> exists|i: int|
            0 <= i < entries.len() && (#[trigger] entries[i]).0.0@ == change.0 && entries[i].0.1@
                == change.1 && entries[i].1.value@ == change.2 && config::stored_in(
                before,
                change.0,
                change.1,
            ) is Some && !json::json_same(
                config::stored_in(before, change.0, change.1)->Some_0.value,
                change.2,
            ),
{
    let all = config::changed_values(entries, before, entries.len());
    let f = |i: int|
        text::only_if(
            match config::stored_in(before, entries[i].0.0@, entries[i].0.1@) {
                Some(b) => !json::json_same(b.value, entries[i].1.value@),
                None => false,
            },
            (entries[i].0.0@, entries[i].0.1@, entries[i].1.value@),
        );
    if all.contains(change) {
        let p = all.index_of(change);
        lemma_changed_is_each(entries, before, entries.len(), f);
        let i = text::lemma_in_each(entries.len(), f, p);
        assert(f(i).contains(all[p]));
        assert(entries[i].0.0@ == change.0);
    }
    if exists|i: int|
        0 <= i < entries.len() && (#[trigger] entries[i]).0.0@ == change.0 && entries[i].0.1@
            == change.1 && entries[i].1.value@ == change.2 && config::stored_in(
            before,
            change.0,
            change.1,
        ) is Some && !json::json_same(
            config::stored_in(before, change.0, change.1)->Some_0.value,
            change.2,
        ) {
        let i = choose|i: int|
            0 <= i < entries.len() && (#[trigger] entries[i]).0.0@ == change.0 && entries[i].0.1@
                == change.1 && entries[i].1.value@ == change.2 && config::stored_in(
                before,
                change.0,
                change.1,
            ) is Some && !json::json_same(
                config::stored_in(before, change.0, change.1)->Some_0.value,
                change.2,
            );
        lemma_changed_is_each(entries, before, entries.len(), f);
        assert(f(i)[0] == change);
        assert(f(i).contains(change));
        text::lemma_each_has(entries.len(), f, i, change);
    }
}

proof fn lemma_changed_is_each(
    entries: Seq<((String, String), StoredParam)>,
    before: Seq<((String, String), StoredParam)>,
    n: nat,
    f: spec_fn(int) -> Seq<(Seq<char>, Seq<char>, JsonView)>,
)
    requires
        forall|i: int| #[trigger]
            f(i) == text::only_if(
                match config::stored_in(before, entries[i].0.0@, entries[i].0.1@) {
                    Some(b) => !json::json_same(b.value, entries[i].1.value@),
                    None => false,
                },
                (entries[i].0.0@, entries[i].0.1@, entries[i].1.value@),
            ),
    ensures
        config::changed_values(entries, before, n) == text::each(n, f),
    decreases n,
{
    if n > 0 {
        lemma_changed_is_each(entries, before, (n - 1) as nat, f);
    }
}

} // verus!

//! What a unit's process is started with and what is kept of its output.

use crate::bus::LogEntry;
use crate::names;
use crate::names::NameMap;
use crate::scan;
use crate::text;
use crate::text::is_listed;
use crate::text::split_words;
use crate::text::str_eq;
use std::collections::VecDeque;
use vstd::prelude::*;

verus! {

broadcast use crate::text::group_views;

/// Per-unit ring buffer capacity: bounded memory, gone on restart — logs are
/// operational exhaust, not the durable trail.
pub const LOG_CAPACITY: usize = 500;

/// The first word from `from` on that names a Python script.
pub open spec fn script_from(words: Seq<Seq<char>>, from: int) -> Option<int>
    decreases words.len() - from,
{
    if from < 0 || from >= words.len() {
        None
    } else if scan::suffixed(words[from], ".py"@) {
        Some(from)
    } else {
        script_from(words, from + 1)
    }
}

/// The place of the script in the words of a `uv run` command.
pub open spec fn script_place(words: Seq<Seq<char>>) -> Option<int> {
    if words.len() >= 2 && words[0] == "uv"@ && words[1] == "run"@ {
        script_from(words, 2)
    } else {
        None
    }
}

/// The script of a `uv run` command and the arguments that follow it.
pub open spec fn script_of(command: Seq<char>) -> Option<(Seq<char>, Seq<Seq<char>>)> {
    let words = text::words(command);
    match script_place(words) {
        Some(k) => Some((words[k], words.skip(k + 1))),
        None => None,
    }
}

proof fn lemma_script_from(words: Seq<Seq<char>>, from: int)
    ensures
        script_from(words, from) matches Some(k) ==> from <= k < words.len(),
    decreases words.len() - from,
{
    if 0 <= from < words.len() && !scan::suffixed(words[from], ".py"@) {
        lemma_script_from(words, from + 1);
    }
}

/// The script in a `uv run [flags] <script.py> [args]` command and the
/// arguments that follow it. None for anything else — a binary on PATH,
/// `homeostat mcp`, a test fake — which is left exactly as it was.
///
/// The script is told by extension, not by position: `--script` may precede
/// it, and a flag's value must never be mistaken for the script.
pub fn uv_script(command: &str) -> (r: Option<(String, Vec<String>)>)
    ensures
        match r {
            Some((script, args)) => script_of(command@) == Some(
                (script@, text::views(args@)),
            ),
            None => script_of(command@) is None,
        },
{
    let words = split_words(command);
    let ghost want = text::words(command@);
    assert(forall|k: int| 0 <= k < words@.len() ==> #[trigger] want[k] == words@[k]@);
    if words.len() < 2 || !str_eq(words[0].as_str(), "uv") || !str_eq(words[1].as_str(), "run") {
        return None;
    }
    let mut i: usize = 2;
    while i < words.len()
        invariant
            2 <= i <= words@.len(),
            text::views(words@) == want,
            want == text::words(command@),
            script_place(want) == script_from(want, 2),
            script_from(want, 2) == script_from(want, i as int),
        decreases words@.len() - i,
    {
        assert(text::views(words@)[i as int] == words@[i as int]@);
        if scan::ends_with(words[i].as_str(), ".py") {
            let mut args: Vec<String> = Vec::new();
            let mut j: usize = i + 1;
            while j < words.len()
                invariant
                    i < j <= words@.len(),
                    text::views(words@) == want,
                    text::views(args@) == want.subrange(i + 1, j as int),
                decreases words@.len() - j,
            {
                assert(text::views(words@)[j as int] == words@[j as int]@);
                assert(want.subrange(i + 1, j as int).push(want[j as int]) =~= want.subrange(
                    i + 1,
                    j + 1,
                ));
                args.push(words[j].clone());
                j = j + 1;
            }
            assert(want.subrange(i + 1, j as int) =~= want.skip(i + 1));
            return Some((words[i].clone(), args));
        }
        i = i + 1;
    }
    None
}

/// The command a unit is run with, given whether its script's environment
/// could be made ready and what `uv python find` printed.
pub open spec fn run_command(command: Seq<char>, synced: bool, found: Option<Seq<char>>) -> Seq<
    char,
> {
    match (script_of(command), found) {
        (Some((script, args)), Some(out)) => {
            let interpreter = scan::trimmed(out);
            if !synced || interpreter.len() == 0 || scan::has_space(interpreter) {
                command
            } else {
                text::joined(seq![interpreter, script] + args, " "@)
            }
        },
        _ => command,
    }
}

/// Resolves the command a unit is actually exec'd with. For a `uv run` unit
/// whose environment is in place this is the environment's interpreter
/// invoked on the script directly; anything else comes back unchanged.
///
/// Best effort: where uv could not resolve the script, the command stands,
/// so the failure is reported exactly where and how it was before. An
/// interpreter path that would not survive the tokenizing at spawn is left
/// to `uv run`.
pub fn resolve(command: &str, synced: bool, found: Option<String>) -> (r: String)
    ensures
        r@ == run_command(command@, synced, text::opt_text(found)),
{
    let (script, args) = match uv_script(command) {
        Some(found) => found,
        None => return command.to_owned(),
    };
    let interpreter = match found {
        Some(out) => scan::trim(out.as_str()),
        None => return command.to_owned(),
    };
    if !synced || interpreter.as_str().unicode_len() == 0 || scan::contains_white(
        interpreter.as_str(),
    ) {
        return command.to_owned();
    }
    let ghost rest = text::views(args@);
    let mut parts: Vec<String> = Vec::new();
    let ghost first = interpreter@;
    let ghost second = script@;
    parts.push(interpreter);
    parts.push(script);
    assert(text::views(parts@) =~= seq![first, second]);
    let n = args.len();
    for i in 0..n
        invariant
            n == args@.len(),
            rest == text::views(args@),
            text::views(parts@) == seq![first, second] + rest.take(i as int),
    {
        assert(text::views(args@)[i as int] == args@[i as int]@);
        assert((seq![first, second] + rest.take(i as int)).push(rest[i as int]) =~= seq![
            first,
            second,
        ] + rest.take(i + 1));
        parts.push(args[i].clone());
    }
    assert(rest.take(n as int) =~= rest);
    text::join(&parts, " ")
}

/// A word: some characters, none of them white space.
pub open spec fn is_word(s: Seq<char>) -> bool {
    s.len() > 0 && !scan::has_space(s)
}

proof fn lemma_words_are_words(s: Seq<char>)
    ensures
        forall|i: int| 0 <= i < text::words(s).len() ==> is_word(#[trigger] text::words(s)[i]),
        text::words_open(s).1 ==> text::words(s).len() > 0,
    decreases s.len(),
{
    if s.len() > 0 {
        let d = s.drop_last();
        lemma_words_are_words(d);
        let (rest, grows) = text::words_open(d);
        let w = text::words(s);
        assert forall|i: int| 0 <= i < w.len() implies is_word(#[trigger] w[i]) by {
            if !text::is_space(s.last()) && i == w.len() - 1 {
                if grows {
                    assert(is_word(text::words(d)[rest.len() - 1]));
                    let p = rest.last();
                    assert(w[i] == p.push(s.last()));
                    assert forall|k: int| 0 <= k < w[i].len() implies !text::is_space(
                        #[trigger] w[i][k],
                    ) by {
                        if k < p.len() {
                            assert(!text::is_space(p[k]));
                        }
                    }
                } else {
                    assert(w[i] =~= seq![s.last()]);
                }
            } else {
                assert(w[i] == text::words(d)[i]);
            }
        }
    }
}

proof fn lemma_words_extend(s: Seq<char>, p: Seq<char>)
    requires
        is_word(p),
        !text::words_open(s).1,
    ensures
        text::words_open(s + p) == (text::words(s).push(p), true),
    decreases p.len(),
{
    let q = p.drop_last();
    let t = s + p;
    assert(t.drop_last() =~= s + q);
    assert(t.last() == p.last());
    assert(!text::is_space(p[p.len() - 1]));
    if q.len() == 0 {
        assert(s + q =~= s);
        assert(p =~= seq![p.last()]);
    } else {
        assert forall|k: int| 0 <= k < q.len() implies !text::is_space(#[trigger] q[k]) by {
            assert(q[k] == p[k]);
        }
        lemma_words_extend(s, q);
        let w = text::words(s).push(q);
        assert(w.drop_last() =~= text::words(s));
        assert(q.push(p.last()) =~= p);
    }
}

proof fn lemma_words_joined(parts: Seq<Seq<char>>)
    requires
        parts.len() > 0,
        forall|i: int| 0 <= i < parts.len() ==> is_word(#[trigger] parts[i]),
    ensures
        text::words_open(text::joined(parts, " "@)) == (parts, true),
    decreases parts.len(),
{
    reveal_strlit(" ");
    let e = Seq::<char>::empty();
    if parts.len() == 1 {
        assert(is_word(parts[0]));
        lemma_words_extend(e, parts[0]);
        assert(e + parts[0] =~= parts[0]);
        assert(text::words(e).push(parts[0]) =~= parts);
    } else {
        let d = parts.drop_last();
        assert forall|i: int| 0 <= i < d.len() implies is_word(#[trigger] d[i]) by {
            assert(d[i] == parts[i]);
        }
        lemma_words_joined(d);
        let j = text::joined(d, " "@);
        let k = j + " "@;
        assert(k.drop_last() =~= j);
        assert(k.last() == ' ');
        assert(text::is_space(' '));
        assert(is_word(parts[parts.len() - 1]));
        lemma_words_extend(k, parts.last());
        assert(d.push(parts.last()) =~= parts);
    }
}

/// A command that was resolved tokenizes into the interpreter, the script
/// and the script's arguments: the interpreter is the process that starts.
pub proof fn law_resolved_command_tokenizes(command: Seq<char>, found: Seq<char>)
    requires
        script_of(command) is Some,
        scan::trimmed(found).len() > 0,
        !scan::has_space(scan::trimmed(found)),
    ensures
        text::words(run_command(command, true, Some(found))) == seq![
            scan::trimmed(found),
            script_of(command)->Some_0.0,
        ] + script_of(command)->Some_0.1,
{
    let words = text::words(command);
    lemma_words_are_words(command);
    lemma_script_from(words, 2);
    let (script, args) = script_of(command)->Some_0;
    let parts = seq![scan::trimmed(found), script] + args;
    let k = script_place(words)->Some_0;
    assert forall|i: int| 0 <= i < parts.len() implies is_word(#[trigger] parts[i]) by {
        if i == 1 {
            assert(parts[1] == words[k]);
        } else if i >= 2 {
            assert(parts[i] == words[k + 1 + (i - 2)]);
        }
    }
    lemma_words_joined(parts);
}

/// What is exec'd for a command: its first word with the others as
/// arguments. No shell, so no quoting.
pub fn argv(command: &str) -> (r: Option<(String, Vec<String>)>)
    ensures
        match r {
            Some((argv0, args)) => seq![argv0@] + text::views(args@) == text::words(command@),
            None => text::words(command@).len() == 0,
        },
{
    let mut words = split_words(command);
    let ghost want = text::views(words@);
    if words.len() == 0 {
        return None;
    }
    let argv0 = words.remove(0);
    assert(seq![argv0@] + text::views(words@) =~= want);
    Some((argv0, words))
}

/// The supervisor environment every unit inherits regardless of its
/// manifest: what a process needs to run at all, and what `uv` and Python
/// need to find their caches, locale and CA bundles. Everything else is
/// withheld unless it is declared for the unit.
pub const BASE_ENV: [&'static str; 11] = [
    "PATH",
    "HOME",
    "USER",
    "LOGNAME",
    "SHELL",
    "LANG",
    "LANGUAGE",
    "TZ",
    "TMPDIR",
    "TERM",
    "REQUESTS_CA_BUNDLE",
];

pub const BASE_ENV_PREFIXES: [&'static str; 5] = ["LC_", "XDG_", "UV_", "PYTHON", "SSL_CERT_"];

/// Whether a unit with these declared names sees the variable.
pub open spec fn passes(name: Seq<char>, declared: Seq<Seq<char>>) -> bool {
    ||| text::listed(BASE_ENV@, name)
    ||| exists|i: int|
        0 <= i < BASE_ENV_PREFIXES@.len() && scan::prefixed(
            name,
            (#[trigger] BASE_ENV_PREFIXES@[i])@,
        )
    ||| declared.contains(name)
}

/// Whether a unit inherits the variable: a secret handed to the supervisor
/// for one unit must not reach the rest.
pub fn inherited(name: &str, declared: &[String]) -> (r: bool)
    ensures
        r == passes(name@, text::views(declared@)),
{
    if is_listed(&BASE_ENV, name) {
        return true;
    }
    let prefixes: &[&'static str] = &BASE_ENV_PREFIXES;
    let mut i: usize = 0;
    while i < prefixes.len()
        invariant
            prefixes@ == BASE_ENV_PREFIXES@,
            i <= prefixes@.len(),
            forall|k: int| 0 <= k < i ==> !scan::prefixed(name@, (#[trigger] prefixes@[k])@),
        decreases prefixes@.len() - i,
    {
        if scan::starts_with(name, prefixes[i]) {
            assert(scan::prefixed(name@, BASE_ENV_PREFIXES@[i as int]@));
            return true;
        }
        i = i + 1;
    }
    let mut j: usize = 0;
    while j < declared.len()
        invariant
            j <= declared@.len(),
            forall|k: int| 0 <= k < j ==> (#[trigger] text::views(declared@)[k]) != name@,
        decreases declared@.len() - j,
    {
        if str_eq(declared[j].as_str(), name) {
            assert(text::views(declared@)[j as int] == name@);
            return true;
        }
        j = j + 1;
    }
    false
}

/// What the termination of a process group does next.
#[derive(Debug, Clone, Copy, PartialEq, Eq, Structural)]
pub enum Termination {
    /// The leader outlived the grace: kill the group and reap the leader.
    KillAndReap,
    /// A member is left when the grace is over: kill the group.
    KillGroup,
    /// A member is left and has the rest of the grace: look again later.
    Poll,
    Done,
}

/// Graceful termination, after the group was asked to stop: `exited` tells
/// whether its leader exited within the grace, `alive` whether any member is
/// left, `over` whether the grace is over. The whole group is waited for, not
/// just the leader: a unit that wraps or spawns something may exit ahead of
/// it, and the survivor gets the rest of the grace.
pub fn terminate(exited: bool, alive: bool, over: bool) -> (r: Termination)
    ensures
        r == Termination::KillAndReap <==> !exited,
        r == Termination::Done <==> exited && !alive,
        r == Termination::KillGroup <==> exited && alive && over,
{
    if !exited {
        Termination::KillAndReap
    } else if !alive {
        Termination::Done
    } else if over {
        Termination::KillGroup
    } else {
        Termination::Poll
    }
}

/// A captured line without what ended it.
pub open spec fn without_line_end(buf: Seq<u8>) -> Seq<u8>
    decreases buf.len(),
{
    if buf.len() > 0 && (buf.last() == 10 || buf.last() == 13) {
        without_line_end(buf.drop_last())
    } else {
        buf
    }
}

/// The text of a captured line. Bytes that are not UTF-8 are replaced:
/// malformed unit output must never bring down capture.
pub fn captured(mut buf: Vec<u8>) -> (r: String)
    ensures
        r@ == scan::lossy_text(without_line_end(buf@)),
{
    let ghost all = buf@;
    while buf.len() > 0 && (buf[buf.len() - 1] == 10 || buf[buf.len() - 1] == 13)
        invariant
            without_line_end(buf@) == without_line_end(all),
        decreases buf@.len(),
    {
        buf.pop();
    }
    scan::lossy(buf.as_slice())
}

/// The captured output of the units, by name: per unit the last lines.
#[derive(Debug)]
pub struct Logs {
    pub units: NameMap<VecDeque<LogEntry>>,
}

/// A buffer that took one more entry.
pub open spec fn appended(buffer: Seq<LogEntry>, entry: LogEntry) -> Seq<LogEntry> {
    if buffer.len() >= LOG_CAPACITY {
        buffer.drop_first().push(entry)
    } else {
        buffer.push(entry)
    }
}

/// What a unit's buffer holds, where it has one.
pub open spec fn buffered(logs: Logs, unit: Seq<char>) -> Option<Seq<LogEntry>> {
    match names::lookup(logs.units@, unit) {
        Some(b) => Some(b@),
        None => None,
    }
}

/// The end of a buffer: its last `lines` entries, or all of them.
pub open spec fn last_lines(buffer: Seq<LogEntry>, lines: Option<nat>) -> Seq<LogEntry> {
    match lines {
        Some(n) if n < buffer.len() => buffer.skip(buffer.len() - n),
        _ => buffer,
    }
}

/// A buffer never outgrows its capacity, and what it holds is the end of
/// what it was given.
pub proof fn law_logs_keep_the_last_lines(buffer: Seq<LogEntry>, entry: LogEntry)
    requires
        buffer.len() <= LOG_CAPACITY,
    ensures
        appended(buffer, entry).len() <= LOG_CAPACITY,
        appended(buffer, entry) == buffer.push(entry).skip(
            buffer.len() + 1 - appended(buffer, entry).len(),
        ),
{
    let s = buffer.push(entry);
    if buffer.len() >= LOG_CAPACITY {
        assert(appended(buffer, entry) =~= s.skip(1));
    } else {
        assert(s =~= s.skip(0));
    }
}

impl Logs {
    pub fn new() -> (r: Logs)
        ensures
            r.units@.len() == 0,
    {
        Logs { units: NameMap::new() }
    }

    /// Gives a unit a buffer, unless it has one.
    pub fn open(&mut self, unit: &str)
        ensures
            forall|u: Seq<char>|
                #[trigger] buffered(*final(self), u) == if u == unit@ && buffered(
                    *old(self),
                    u,
                ) is None {
                    Some(Seq::<LogEntry>::empty())
                } else {
                    buffered(*old(self), u)
                },
    {
        if self.units.get(unit).is_none() {
            let ghost before = self.units@;
            let name = unit.to_owned();
            let buffer: VecDeque<LogEntry> = VecDeque::new();
            self.units.insert(name, buffer);
            proof {
                assert forall|u: Seq<char>|
                    #[trigger] names::lookup(self.units@, u) == if u == unit@ {
                        Some(buffer)
                    } else {
                        names::lookup(before, u)
                    } by {
                    names::lemma_lookup_put(before, name, buffer, u);
                }
            }
        }
    }

    /// Appends a line to a unit's buffer. Append-only: a line drained after
    /// the buffer was closed must not bring it back.
    pub fn append(&mut self, unit: &str, entry: LogEntry)
        ensures
            forall|u: Seq<char>|
                #[trigger] buffered(*final(self), u) == match buffered(*old(self), u) {
                    Some(b) => Some(
                        if u == unit@ {
                            appended(b, entry)
                        } else {
                            b
                        },
                    ),
                    None => None,
                },
    {
        let ghost before = self.units@;
        match self.units.take(unit) {
            Some(mut buffer) => {
                let ghost middle = self.units@;
                if buffer.len() >= LOG_CAPACITY {
                    buffer.pop_front();
                }
                buffer.push_back(entry);
                let name = unit.to_owned();
                self.units.insert(name, buffer);
                proof {
                    assert forall|u: Seq<char>|
                        #[trigger] names::lookup(self.units@, u) == if u == unit@ {
                            Some(buffer)
                        } else {
                            names::lookup(before, u)
                        } by {
                        names::lemma_lookup_put(middle, name, buffer, u);
                        names::lemma_lookup_without(before, unit@, u);
                    }
                }
            },
            None => {
                proof {
                    assert forall|u: Seq<char>|
                        #[trigger] names::lookup(self.units@, u) == names::lookup(before, u) by {
                        names::lemma_lookup_without(before, unit@, u);
                    }
                }
            },
        }
    }

    /// The last lines of a unit's buffer, all of them where no number is
    /// asked for. None for a unit without a buffer.
    pub fn tail(&self, unit: &str, lines: Option<usize>) -> (r: Option<Vec<LogEntry>>)
        ensures
            match (r, buffered(*self, unit@)) {
                (Some(kept), Some(b)) => text::views(kept@) == text::views(
                    last_lines(
                        b,
                        match lines {
                            Some(n) => Some(n as nat),
                            None => None,
                        },
                    ),
                ),
                (None, None) => true,
                _ => false,
            },
    {
        let buffer = match self.units.get(unit) {
            Some(buffer) => buffer,
            None => return None,
        };
        let n = buffer.len();
        let from: usize = match lines {
            Some(k) => if k < n {
                n - k
            } else {
                0
            },
            None => 0,
        };
        let ghost want = buffer@.skip(from as int);
        let mut kept: Vec<LogEntry> = Vec::new();
        let mut i: usize = from;
        while i < n
            invariant
                from <= i <= n,
                n == buffer@.len(),
                want == buffer@.skip(from as int),
                text::views(kept@) == text::views(want.take(i - from)),
            decreases n - i,
        {
            let e = &buffer[i];
            let copy = LogEntry { ts_us: e.ts_us, stream: e.stream.clone(), line: e.line.clone() };
            assert(copy@ == buffer@[i as int]@);
            assert(text::views(kept@).push(copy@) =~= text::views(want.take(i + 1 - from)));
            kept.push(copy);
            i = i + 1;
        }
        assert(want.take(n - from) =~= want);
        assert(buffer@.skip(0) =~= buffer@);
        Some(kept)
    }

    /// Drops a unit's buffer.
    pub fn close(&mut self, unit: &str)
        ensures
            forall|u: Seq<char>|
                #[trigger] buffered(*final(self), u) == if u == unit@ {
                    None
                } else {
                    buffered(*old(self), u)
                },
    {
        let ghost before = self.units@;
        let _ = self.units.take(unit);
        proof {
            assert forall|u: Seq<char>|
                #[trigger] names::lookup(self.units@, u) == if u == unit@ {
                    None
                } else {
                    names::lookup(before, u)
                } by {
                names::lemma_lookup_without(before, unit@, u);
            }
        }
    }
}

} // verus!

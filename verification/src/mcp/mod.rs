//! The agent surface: the tools through which an agent observes the house.
//! Read-only — an agent with a filesystem edits the house repo and runs the
//! CLI, the same plan/apply path as every other actor.
//!
//! Six tools. `read_state` and `read_history` read the live bus; `read_logs`
//! and `read_events` read the operational exhaust and the durable audit
//! trail; `schema` and `explain` serve the authoring contract. What is here
//! makes a selector of a tool's arguments and a text of the bus's replies;
//! the caller does the reading.

pub mod http;
pub mod protocol;

use crate::bus;
use crate::bus::LogEntry;
use crate::document;
use crate::document::field;
use crate::error;
use crate::error::CODES;
use crate::json;
use crate::json::Json;
use crate::json::JsonView;
use crate::scan;
use crate::schema;
use crate::schema::Schemas;
use crate::text;
use crate::text::cat2;
use crate::text::cat3;
use crate::text::cat5;
use crate::text::str_eq;
use vstd::prelude::*;

verus! {

broadcast use crate::text::group_views;

pub const TOOL_NAMES: [&'static str; 6] = [
    "read_state",
    "read_history",
    "read_logs",
    "read_events",
    "explain",
    "schema",
];

/// A result by what its texts hold.
pub open spec fn outcome(r: Result<String, String>) -> Result<Seq<char>, Seq<char>> {
    match r {
        Ok(t) => Ok(t@),
        Err(e) => Err(e@),
    }
}

/// A text argument that must be there.
pub open spec fn needed_text(args: JsonView, name: Seq<char>) -> Result<Seq<char>, Seq<char>> {
    match document::text_member(args, name) {
        Some(s) => if s.len() > 0 {
            Ok(s)
        } else {
            Err("missing \""@ + name + "\" (string)"@)
        },
        None => Err("missing \""@ + name + "\" (string)"@),
    }
}

/// A text argument that must be there.
pub fn str_arg(args: &Json, name: &str) -> (r: Result<String, String>)
    ensures
        outcome(r) == needed_text(args@, name@),
{
    match args.get_str(name) {
        Some(s) => if s.unicode_len() > 0 {
            Ok(s.to_owned())
        } else {
            Err(cat3("missing \"", name, "\" (string)"))
        },
        None => Err(cat3("missing \"", name, "\" (string)")),
    }
}

/// The key that `read_state` reads.
pub open spec fn state_key_of(args: JsonView) -> Result<Seq<char>, Seq<char>> {
    match needed_text(args, "key"@) {
        Ok(key) => if key == "home"@ || scan::prefixed(key, "home/"@) {
            Ok(key)
        } else {
            Err("read_state reads the house bus: the key must be under home/"@)
        },
        Err(e) => Err(e),
    }
}

/// The key that `read_state` reads: anything under `home/`.
pub fn state_key(args: &Json) -> (r: Result<String, String>)
    ensures
        outcome(r) == state_key_of(args@),
{
    let key = match str_arg(args, "key") {
        Ok(key) => key,
        Err(e) => return Err(e),
    };
    if str_eq(key.as_str(), "home") || scan::starts_with(key.as_str(), "home/") {
        Ok(key)
    } else {
        Err("read_state reads the house bus: the key must be under home/".to_owned())
    }
}

/// The query parameter of a text argument, where it is given.
pub open spec fn text_param(args: JsonView, name: Seq<char>, complaint: Seq<char>) -> Result<
    Seq<Seq<char>>,
    Seq<char>,
> {
    match document::member(args, name) {
        None => Ok(Seq::empty()),
        Some(JsonView::Str(v)) => Ok(seq![name + "="@ + v]),
        Some(_) => Err(complaint),
    }
}

/// The query parameter of an integer argument between bounds, where it is
/// given.
pub open spec fn int_param(
    args: JsonView,
    name: Seq<char>,
    low: int,
    high: int,
    complaint: Seq<char>,
) -> Result<Seq<Seq<char>>, Seq<char>> {
    match document::member(args, name) {
        None => Ok(Seq::empty()),
        Some(JsonView::Int(i)) => if low <= i <= high {
            Ok(seq![name + "="@ + scan::integer(i)])
        } else {
            Err(complaint)
        },
        Some(_) => Err(complaint),
    }
}

fn push_text_param(params: &mut Vec<String>, args: &Json, name: &str, complaint: &str) -> (r: Result<
    (),
    String,
>)
    ensures
        match text_param(args@, name@, complaint@) {
            Ok(more) => r is Ok && text::views(final(params)@) == text::views(old(params)@) + more,
            Err(e) => r matches Err(x) && x@ == e,
        },
{
    match args.get(name) {
        None => {
            assert(text::views(params@) + Seq::<Seq<char>>::empty() =~= text::views(params@));
            Ok(())
        },
        Some(v) => match v.as_str() {
            Some(s) => {
                let ghost before = text::views(params@);
                params.push(cat3(name, "=", s));
                assert(text::views(params@) =~= before + seq![name@ + "="@ + s@]);
                Ok(())
            },
            None => Err(complaint.to_owned()),
        },
    }
}

fn push_signed_param(params: &mut Vec<String>, args: &Json, name: &str, complaint: &str) -> (r:
    Result<(), String>)
    ensures
        match int_param(args@, name@, i64::MIN as int, i64::MAX as int, complaint@) {
            Ok(more) => r is Ok && text::views(final(params)@) == text::views(old(params)@) + more,
            Err(e) => r matches Err(x) && x@ == e,
        },
{
    match args.get(name) {
        None => {
            assert(text::views(params@) + Seq::<Seq<char>>::empty() =~= text::views(params@));
            Ok(())
        },
        Some(v) => match v.as_i64() {
            Some(i) => {
                let ghost before = text::views(params@);
                params.push(cat3(name, "=", scan::integer_of(i).as_str()));
                assert(text::views(params@) =~= before + seq![
                    name@ + "="@ + scan::integer(i as int),
                ]);
                Ok(())
            },
            None => {
                proof {
                    json::lemma_int_fits(*v);
                }
                Err(complaint.to_owned())
            },
        },
    }
}

fn push_limit(params: &mut Vec<String>, args: &Json, name: &str, complaint: &str) -> (r: Result<
    (),
    String,
>)
    ensures
        match int_param(args@, name@, 0, u64::MAX as int, complaint@) {
            Ok(more) => r is Ok && text::views(final(params)@) == text::views(old(params)@) + more,
            Err(e) => r matches Err(x) && x@ == e,
        },
{
    match args.get(name) {
        None => {
            assert(text::views(params@) + Seq::<Seq<char>>::empty() =~= text::views(params@));
            Ok(())
        },
        Some(v) => match v.as_u64() {
            Some(u) => {
                let ghost before = text::views(params@);
                params.push(cat3(name, "=", text::decimal_of(u).as_str()));
                assert(text::views(params@) =~= before + seq![
                    name@ + "="@ + scan::integer(u as int),
                ]);
                Ok(())
            },
            None => {
                proof {
                    json::lemma_int_fits(*v);
                }
                Err(complaint.to_owned())
            },
        },
    }
}

/// A key with its query parameters.
pub open spec fn with_params(key: Seq<char>, params: Seq<Seq<char>>) -> Seq<char> {
    if params.len() == 0 {
        key
    } else {
        key + "?"@ + text::joined(params, ";"@)
    }
}

fn selector(key: &str, params: &Vec<String>) -> (r: String)
    ensures
        r@ == with_params(key@, text::views(params@)),
{
    if params.len() == 0 {
        key.to_owned()
    } else {
        cat3(key, "?", text::join(params, ";").as_str())
    }
}

/// All of the parameters, or the first complaint.
pub open spec fn all_params(parts: Seq<Result<Seq<Seq<char>>, Seq<char>>>, n: nat) -> Result<
    Seq<Seq<char>>,
    Seq<char>,
>
    decreases n,
{
    if n == 0 {
        Ok(Seq::empty())
    } else {
        match (all_params(parts, (n - 1) as nat), parts[n - 1]) {
            (Ok(rest), Ok(more)) => Ok(rest + more),
            (Err(e), _) => Err(e),
            (_, Err(e)) => Err(e),
        }
    }
}

/// The query parameters of `read_history`.
pub open spec fn history_params(args: JsonView) -> Seq<Result<Seq<Seq<char>>, Seq<char>>> {
    seq![
        text_param(args, "from"@, "\"from\" must be an RFC3339 string"@),
        text_param(args, "to"@, "\"to\" must be an RFC3339 string"@),
        int_param(args, "limit"@, 0, u64::MAX as int, "\"limit\" must be a positive integer"@),
    ]
}

/// The selector that `read_history` queries.
pub open spec fn history_selector_of(args: JsonView) -> Result<Seq<char>, Seq<char>> {
    match needed_text(args, "series"@) {
        Ok(series) => if scan::prefixed(series, "home/"@) || series.contains('?') {
            Err(
                "series is relative to home/history/ — {state|cmd}/{entity}/{aspect}, e.g. state/livingroom_lamp/on"@,
            )
        } else {
            match all_params(history_params(args), 3) {
                Ok(params) => Ok(with_params("home/history/"@ + series, params)),
                Err(e) => Err(e),
            }
        },
        Err(e) => Err(e),
    }
}

/// The selector that `read_history` queries.
pub fn history_selector(args: &Json) -> (r: Result<String, String>)
    ensures
        outcome(r) == history_selector_of(args@),
{
    let series = match str_arg(args, "series") {
        Ok(series) => series,
        Err(e) => return Err(e),
    };
    if scan::starts_with(series.as_str(), "home/") || scan::has_char(series.as_str(), '?') {
        return Err(
            "series is relative to home/history/ — {state|cmd}/{entity}/{aspect}, e.g. state/livingroom_lamp/on".to_owned(),
        );
    }
    proof {
        reveal_with_fuel(all_params, 4);
    }
    let mut params: Vec<String> = Vec::new();
    if let Err(e) = push_text_param(&mut params, args, "from", "\"from\" must be an RFC3339 string") {
        return Err(e);
    }
    if let Err(e) = push_text_param(&mut params, args, "to", "\"to\" must be an RFC3339 string") {
        return Err(e);
    }
    if let Err(e) = push_limit(&mut params, args, "limit", "\"limit\" must be a positive integer") {
        return Err(e);
    }
    Ok(selector(cat2("home/history/", series.as_str()).as_str(), &params))
}

/// The selector that `read_logs` queries.
pub open spec fn log_selector_of(args: JsonView) -> Result<Seq<char>, Seq<char>> {
    match needed_text(args, "unit"@) {
        Ok(unit) => match document::member(args, "lines"@) {
            None => Ok(bus::log_path(unit)),
            Some(JsonView::Int(i)) => if i >= 0 {
                Ok(bus::log_path(unit) + "?lines="@ + text::decimal(i as nat))
            } else {
                Err("\"lines\" must be a positive integer"@)
            },
            Some(_) => Err("\"lines\" must be a positive integer"@),
        },
        Err(e) => Err(e),
    }
}

/// The selector that `read_logs` queries.
pub fn log_selector(args: &Json) -> (r: Result<String, String>)
    ensures
        outcome(r) == log_selector_of(args@),
{
    let unit = match str_arg(args, "unit") {
        Ok(unit) => unit,
        Err(e) => return Err(e),
    };
    let key = bus::log_key(unit.as_str());
    match args.get("lines") {
        None => Ok(key),
        Some(v) => match v.as_u64() {
            Some(u) => Ok(cat3(key.as_str(), "?lines=", text::decimal_of(u).as_str())),
            None => Err("\"lines\" must be a positive integer".to_owned()),
        },
    }
}

/// The query parameters of `read_events`. The range is integer microseconds
/// UTC, the recorder's native convention and the same unit the reply's ts
/// carries: an events range refines directly from prior rows.
pub open spec fn events_params(args: JsonView) -> Seq<Result<Seq<Seq<char>>, Seq<char>>> {
    seq![
        text_param(args, "key"@, "\"key\" must be a string"@),
        int_param(
            args,
            "from"@,
            i64::MIN as int,
            i64::MAX as int,
            "\"from\" must be an integer (microseconds UTC)"@,
        ),
        int_param(
            args,
            "to"@,
            i64::MIN as int,
            i64::MAX as int,
            "\"to\" must be an integer (microseconds UTC)"@,
        ),
        int_param(args, "limit"@, 0, u64::MAX as int, "\"limit\" must be a positive integer"@),
    ]
}

/// The selector that `read_events` queries.
pub open spec fn events_selector_of(args: JsonView) -> Result<Seq<char>, Seq<char>> {
    match all_params(events_params(args), 4) {
        Ok(params) => Ok(with_params("home/history/events"@, params)),
        Err(e) => Err(e),
    }
}

/// The selector that `read_events` queries.
pub fn events_selector(args: &Json) -> (r: Result<String, String>)
    ensures
        outcome(r) == events_selector_of(args@),
{
    proof {
        reveal_with_fuel(all_params, 5);
    }
    let mut params: Vec<String> = Vec::new();
    if let Err(e) = push_text_param(&mut params, args, "key", "\"key\" must be a string") {
        return Err(e);
    }
    if let Err(e) = push_signed_param(
        &mut params,
        args,
        "from",
        "\"from\" must be an integer (microseconds UTC)",
    ) {
        return Err(e);
    }
    if let Err(e) = push_signed_param(
        &mut params,
        args,
        "to",
        "\"to\" must be an integer (microseconds UTC)",
    ) {
        return Err(e);
    }
    if let Err(e) = push_limit(&mut params, args, "limit", "\"limit\" must be a positive integer") {
        return Err(e);
    }
    Ok(selector("home/history/events", &params))
}

/// A reply from the bus: a value under its key, or an error.
#[derive(Debug)]
pub enum Reply {
    Sample { key: String, payload: Vec<u8> },
    Error { payload: Vec<u8> },
}

/// The value of a payload: JSON, or else the bytes as text.
pub open spec fn value_or_text(payload: Seq<u8>) -> JsonView {
    match json::json_document(payload) {
        Ok(v) => v,
        Err(_) => JsonView::Str(scan::lossy_text(payload)),
    }
}

/// The fields of the samples among the first `n` replies.
pub open spec fn state_fields(replies: Seq<Reply>, n: nat) -> Seq<(Seq<char>, JsonView)> {
    text::each(
        n,
        |i: int|
            match replies[i] {
                Reply::Sample { key, payload } => seq![(key@, value_or_text(payload@))],
                Reply::Error { .. } => Seq::empty(),
            },
    )
}

/// What `read_state` answers: the values by key.
pub fn state_document(replies: &Vec<Reply>) -> (r: String)
    ensures
        r@ == json::json_pretty(document::object_of(state_fields(replies@, replies@.len()))),
{
    let mut fields: Vec<(String, Json)> = Vec::new();
    for i in 0..replies.len()
        invariant
            text::views(fields@) == state_fields(replies@, i as nat),
    {
        match &replies[i] {
            Reply::Sample { key, payload } => {
                let value = match Json::parse(payload.as_slice()) {
                    Ok(v) => v,
                    Err(_) => Json::Str(scan::lossy(payload.as_slice())),
                };
                fields.push((key.clone(), value));
            },
            Reply::Error { .. } => {},
        }
    }
    Json::object(fields).to_string_pretty()
}

/// The first error from `from` on.
pub open spec fn error_from(replies: Seq<Reply>, from: int) -> Option<Seq<char>>
    decreases replies.len() - from,
{
    if from < 0 || from >= replies.len() {
        None
    } else {
        match replies[from] {
            Reply::Error { payload } => Some(scan::lossy_text(payload@)),
            Reply::Sample { .. } => error_from(replies, from + 1),
        }
    }
}

/// The first error among the replies, by its text.
fn first_error(replies: &Vec<Reply>) -> (r: Option<String>)
    ensures
        text::opt_text(r) == error_from(replies@, 0),
{
    let mut i: usize = 0;
    while i < replies.len()
        invariant
            i <= replies@.len(),
            error_from(replies@, 0) == error_from(replies@, i as int),
        decreases replies@.len() - i,
    {
        match &replies[i] {
            Reply::Error { payload } => return Some(scan::lossy(payload.as_slice())),
            Reply::Sample { .. } => {},
        }
        i = i + 1;
    }
    None
}

/// The rows of a payload: JSON, or else null.
pub open spec fn rows_of(payload: Seq<u8>) -> JsonView {
    match json::json_document(payload) {
        Ok(v) => v,
        Err(_) => JsonView::Null,
    }
}

/// The series among the first `n` replies.
pub open spec fn history_fields(replies: Seq<Reply>, n: nat) -> Seq<(Seq<char>, JsonView)> {
    text::each(
        n,
        |i: int|
            match replies[i] {
                Reply::Sample { key, payload } => seq![(key@, rows_of(payload@))],
                Reply::Error { .. } => Seq::empty(),
            },
    )
}

/// What `read_history` answers: the rows by series, or the first error.
pub fn history_document(replies: &Vec<Reply>) -> (r: Result<String, String>)
    ensures
        outcome(r) == match error_from(replies@, 0) {
            Some(e) => Err(e),
            None => Ok(
                json::json_pretty(document::object_of(history_fields(replies@, replies@.len()))),
            ),
        },
{
    if let Some(e) = first_error(replies) {
        return Err(e);
    }
    let mut fields: Vec<(String, Json)> = Vec::new();
    for i in 0..replies.len()
        invariant
            text::views(fields@) == history_fields(replies@, i as nat),
    {
        match &replies[i] {
            Reply::Sample { key, payload } => {
                let rows = match Json::parse(payload.as_slice()) {
                    Ok(v) => v,
                    Err(_) => Json::Null,
                };
                fields.push((key.clone(), rows));
            },
            Reply::Error { .. } => {},
        }
    }
    Ok(Json::object(fields).to_string_pretty())
}

/// The row of a captured line.
pub open spec fn log_row(e: bus::LogEntryView) -> Seq<char> {
    scan::integer(e.ts_us) + " "@ + e.stream + " "@ + e.line
}

/// A reply to a read of captured output: the entries, the complaint about a
/// payload that holds none, or an error.
#[derive(Debug)]
pub enum LogReply {
    Entries(Vec<LogEntry>),
    Unread(String),
    Error { payload: Vec<u8> },
}

/// The first failure from `from` on.
pub open spec fn log_fault_from(replies: Seq<LogReply>, from: int) -> Option<Seq<char>>
    decreases replies.len() - from,
{
    if from < 0 || from >= replies.len() {
        None
    } else {
        match replies[from] {
            LogReply::Entries(_) => log_fault_from(replies, from + 1),
            LogReply::Unread(e) => Some("log entries do not parse: "@ + e@),
            LogReply::Error { payload } => Some(scan::lossy_text(payload@)),
        }
    }
}

/// The rows of the entries.
pub open spec fn entry_rows(entries: Seq<LogEntry>) -> Seq<Seq<char>> {
    Seq::new(entries.len(), |i: int| log_row(entries[i]@))
}

/// The rows of the first `n` replies.
pub open spec fn log_rows(replies: Seq<LogReply>, n: nat) -> Seq<Seq<char>> {
    text::each(
        n,
        |i: int|
            match replies[i] {
                LogReply::Entries(entries) => entry_rows(entries@),
                _ => Seq::empty(),
            },
    )
}

fn push_log_rows(rows: &mut Vec<String>, entries: &Vec<LogEntry>)
    ensures
        text::views(final(rows)@) == text::views(old(rows)@) + entry_rows(entries@),
{
    let ghost before = text::views(rows@);
    let ghost want = entry_rows(entries@);
    for i in 0..entries.len()
        invariant
            want == entry_rows(entries@),
            text::views(rows@) == before + want.take(i as int),
    {
        let e = &entries[i];
        rows.push(
            cat5(
                scan::integer_of(e.ts_us).as_str(),
                " ",
                e.stream.as_str(),
                " ",
                e.line.as_str(),
            ),
        );
        assert(want.take(i + 1) =~= want.take(i as int).push(want[i as int]));
    }
    assert(want.take(want.len() as int) =~= want);
}

/// What `read_logs` answers: one `ts_us stream line` row per captured line,
/// or the first failure.
pub fn log_document(replies: &Vec<LogReply>) -> (r: Result<String, String>)
    ensures
        outcome(r) == match log_fault_from(replies@, 0) {
            Some(e) => Err(e),
            None => Ok(text::joined(log_rows(replies@, replies@.len()), "\n"@)),
        },
{
    let mut rows: Vec<String> = Vec::new();
    let mut i: usize = 0;
    while i < replies.len()
        invariant
            i <= replies@.len(),
            text::views(rows@) == log_rows(replies@, i as nat),
            log_fault_from(replies@, 0) == log_fault_from(replies@, i as int),
        decreases replies@.len() - i,
    {
        match &replies[i] {
            LogReply::Entries(entries) => push_log_rows(&mut rows, entries),
            LogReply::Unread(e) => return Err(cat2("log entries do not parse: ", e.as_str())),
            LogReply::Error { payload } => return Err(scan::lossy(payload.as_slice())),
        }
        i = i + 1;
    }
    Ok(text::join(&rows, "\n"))
}

/// The rows in a payload that is a JSON array.
pub open spec fn event_rows(payload: Seq<u8>) -> Seq<JsonView> {
    match json::json_document(payload) {
        Ok(JsonView::Array(rows)) => rows,
        _ => Seq::empty(),
    }
}

/// The rows in the first `n` replies.
pub open spec fn all_event_rows(replies: Seq<Reply>, n: nat) -> Seq<JsonView> {
    text::each(
        n,
        |i: int|
            match replies[i] {
                Reply::Sample { payload, .. } => event_rows(payload@),
                Reply::Error { .. } => Seq::empty(),
            },
    )
}

fn push_rows(rows: &mut Vec<Json>, payload: &Vec<u8>)
    ensures
        text::views(final(rows)@) == text::views(old(rows)@) + event_rows(payload@),
{
    let ghost before = text::views(rows@);
    match Json::parse(payload.as_slice()) {
        Ok(Json::Array(items)) => {
            let mut items = items;
            let ghost more = text::views(items@);
            assert(Json::Array(items)@->Array_0 =~= more);
            rows.append(&mut items);
        },
        _ => {
            assert(before + Seq::<JsonView>::empty() =~= before);
        },
    }
}

/// What `read_events` answers: the rows of every reply, or the first error.
pub fn events_document(replies: &Vec<Reply>) -> (r: Result<String, String>)
    ensures
        outcome(r) == match error_from(replies@, 0) {
            Some(e) => Err(e),
            None => Ok(
                json::json_pretty(JsonView::Array(all_event_rows(replies@, replies@.len()))),
            ),
        },
{
    if let Some(e) = first_error(replies) {
        return Err(e);
    }
    let mut rows: Vec<Json> = Vec::new();
    for i in 0..replies.len()
        invariant
            text::views(rows@) == all_event_rows(replies@, i as nat),
    {
        match &replies[i] {
            Reply::Sample { payload, .. } => push_rows(&mut rows, payload),
            Reply::Error { .. } => {
                assert(text::views(rows@) + Seq::<JsonView>::empty() =~= text::views(rows@));
            },
        }
    }
    Ok(Json::array(rows).to_string_pretty())
}

/// The `schema` tool: the manifest contract as JSON Schema, one file kind or
/// all three.
pub fn schema(args: &Json, schemas: &Schemas) -> (r: Result<String, String>)
    ensures
        outcome(r) == schema_of(args@, *schemas),
{
    match schema::answer(args.get_str("file"), schemas) {
        Ok(value) => Ok(value.to_string_pretty()),
        Err(e) => Err(e),
    }
}

/// Every code with its paragraph.
pub open spec fn all_paragraphs() -> Seq<Seq<char>> {
    Seq::new(CODES@.len(), |i: int| CODES@[i].0@ + ": "@ + CODES@[i].1@)
}

/// The `explain` tool: the registered paragraph for one error code, or
/// every code with its paragraph when none is given.
pub fn explain(args: &Json) -> (r: Result<String, String>)
    ensures
        outcome(r) == explain_of(args@),
{
    match args.get_str("code") {
        Some(code) => match error::explain(code) {
            Some(text) => Ok(cat3(code, ": ", text)),
            None => Err(cat3("unknown error code \"", code, "\"")),
        },
        None => Ok(text::join(&paragraphs(), "\n\n")),
    }
}

/// What a reading tool makes its text of.
#[derive(Debug, Clone, Copy, PartialEq, Eq, Structural)]
pub enum Reading {
    State,
    History,
    Logs,
    Events,
}

impl Reading {
    /// The read as a failure names it.
    pub open spec fn word(self) -> Seq<char> {
        match self {
            Reading::State => "bus read"@,
            Reading::History => "history read"@,
            Reading::Logs => "log read"@,
            Reading::Events => "events read"@,
        }
    }

    /// The read as a failure names it.
    pub fn as_str(&self) -> (r: &'static str)
        ensures
            r@ == self.word(),
    {
        match self {
            Reading::State => "bus read",
            Reading::History => "history read",
            Reading::Logs => "log read",
            Reading::Events => "events read",
        }
    }
}

/// What a call of a tool asks for: a read of the bus, or nothing more.
#[derive(Debug)]
pub enum Asked {
    Read { selector: String, reading: Reading },
    Answered(Result<String, String>),
}

pub enum AskedView {
    Read { selector: Seq<char>, reading: Reading },
    Answered(Result<Seq<char>, Seq<char>>),
}

impl View for Asked {
    type V = AskedView;

    open spec fn view(&self) -> AskedView {
        match self {
            Asked::Read { selector, reading } => AskedView::Read {
                selector: selector@,
                reading: *reading,
            },
            Asked::Answered(r) => AskedView::Answered(outcome(*r)),
        }
    }
}

/// A read where the arguments make a selector, else their complaint.
pub open spec fn read_of(selector: Result<Seq<char>, Seq<char>>, reading: Reading) -> AskedView {
    match selector {
        Ok(selector) => AskedView::Read { selector, reading },
        Err(e) => AskedView::Answered(Err(e)),
    }
}

fn read_with(selector: Result<String, String>, reading: Reading) -> (r: Asked)
    ensures
        r@ == read_of(outcome(selector), reading),
{
    match selector {
        Ok(selector) => Asked::Read { selector, reading },
        Err(e) => Asked::Answered(Err(e)),
    }
}

/// What the `schema` tool answers.
pub open spec fn schema_of(args: JsonView, schemas: Schemas) -> Result<Seq<char>, Seq<char>> {
    match schema::answer_of(document::text_member(args, "file"@), schemas) {
        Ok(v) => Ok(json::json_pretty(v)),
        Err(e) => Err(e),
    }
}

/// What the `explain` tool answers.
pub open spec fn explain_of(args: JsonView) -> Result<Seq<char>, Seq<char>> {
    match document::text_member(args, "code"@) {
        Some(code) => match error::explanation(code) {
            Some(text) => Ok(code + ": "@ + text),
            None => Err("unknown error code \""@ + code + "\""@),
        },
        None => Ok(text::joined(all_paragraphs(), "\n\n"@)),
    }
}

/// What a call of a tool asks for.
pub open spec fn asked_of(name: Seq<char>, args: JsonView, schemas: Schemas) -> AskedView {
    if name == "read_state"@ {
        read_of(state_key_of(args), Reading::State)
    } else if name == "read_history"@ {
        read_of(history_selector_of(args), Reading::History)
    } else if name == "read_logs"@ {
        read_of(log_selector_of(args), Reading::Logs)
    } else if name == "read_events"@ {
        read_of(events_selector_of(args), Reading::Events)
    } else if name == "explain"@ {
        AskedView::Answered(explain_of(args))
    } else if name == "schema"@ {
        AskedView::Answered(schema_of(args, schemas))
    } else {
        AskedView::Answered(Err("unknown tool \""@ + name + "\""@))
    }
}

/// Begins one tools/call. Ok is the tool's text output; Err becomes an MCP
/// tool result with isError set, not a protocol error.
pub fn call(name: &str, args: &Json, schemas: &Schemas) -> (r: Asked)
    ensures
        r@ == asked_of(name@, args@, *schemas),
{
    if str_eq(name, "read_state") {
        read_with(state_key(args), Reading::State)
    } else if str_eq(name, "read_history") {
        read_with(history_selector(args), Reading::History)
    } else if str_eq(name, "read_logs") {
        read_with(log_selector(args), Reading::Logs)
    } else if str_eq(name, "read_events") {
        read_with(events_selector(args), Reading::Events)
    } else if str_eq(name, "explain") {
        Asked::Answered(explain(args))
    } else if str_eq(name, "schema") {
        Asked::Answered(schema(args, schemas))
    } else {
        Asked::Answered(Err(cat3("unknown tool \"", name, "\"")))
    }
}

/// Every code with its paragraph.
pub fn paragraphs() -> (r: Vec<String>)
    ensures
        text::views(r@) == all_paragraphs(),
{
    let codes = CODES;
    let mut out: Vec<String> = Vec::new();
    let mut i: usize = 0;
    while i < codes.len()
        invariant
            codes == CODES,
            i <= codes@.len(),
            out@.len() == i,
            forall|k: int| 0 <= k < i ==> (#[trigger] out@[k])@ == all_paragraphs()[k],
        decreases codes@.len() - i,
    {
        out.push(cat3(codes[i].0, ": ", codes[i].1));
        i = i + 1;
    }
    assert(text::views(out@) =~= all_paragraphs());
    out
}

/// The schema of an argument: its type and what it is.
pub open spec fn typed(kind: Seq<char>, description: Seq<char>) -> JsonView {
    document::object_of(
        seq![
            ("type"@, JsonView::Str(kind)),
            ("description"@, JsonView::Str(description)),
        ],
    )
}

fn typed_of(kind: &str, description: &str) -> (r: Json)
    ensures
        r@ == typed(kind@, description@),
{
    let fields = vec![
        field("type", Json::str(kind)),
        field("description", Json::str(description)),
    ];
    assert(text::views(fields@) =~= seq![
        ("type"@, JsonView::Str(kind@)),
        ("description"@, JsonView::Str(description@)),
    ]);
    Json::object(fields)
}

/// The schema of an argument that names a file kind.
pub open spec fn chosen(description: Seq<char>) -> JsonView {
    document::object_of(
        seq![
            ("type"@, JsonView::Str("string"@)),
            (
                "enum"@,
                JsonView::Array(
                    seq![
                        JsonView::Str("unit"@),
                        JsonView::Str("entity"@),
                        JsonView::Str("zones"@),
                    ],
                ),
            ),
            ("description"@, JsonView::Str(description)),
        ],
    )
}

fn chosen_of(description: &str) -> (r: Json)
    ensures
        r@ == chosen(description@),
{
    let kinds = vec![Json::str("unit"), Json::str("entity"), Json::str("zones")];
    assert(text::views(kinds@) =~= seq![
        JsonView::Str("unit"@),
        JsonView::Str("entity"@),
        JsonView::Str("zones"@),
    ]);
    let fields = vec![
        field("type", Json::str("string")),
        field("enum", Json::array(kinds)),
        field("description", Json::str(description)),
    ];
    assert(text::views(fields@) =~= seq![
        ("type"@, JsonView::Str("string"@)),
        (
            "enum"@,
            JsonView::Array(
                seq![
                    JsonView::Str("unit"@),
                    JsonView::Str("entity"@),
                    JsonView::Str("zones"@),
                ],
            ),
        ),
        ("description"@, JsonView::Str(description@)),
    ]);
    Json::object(fields)
}

/// The schema of a tool's arguments.
pub open spec fn input_schema(
    properties: Seq<(Seq<char>, JsonView)>,
    needed: Option<Seq<char>>,
) -> JsonView {
    let shape = seq![
        ("type"@, JsonView::Str("object"@)),
        ("properties"@, document::object_of(properties)),
    ];
    document::object_of(
        match needed {
            Some(name) => shape.push(("required"@, JsonView::Array(seq![JsonView::Str(name)]))),
            None => shape,
        },
    )
}

/// A tool as tools/list tells of it.
pub open spec fn tool(
    name: Seq<char>,
    description: Seq<char>,
    properties: Seq<(Seq<char>, JsonView)>,
    needed: Option<Seq<char>>,
) -> JsonView {
    document::object_of(
        seq![
            ("name"@, JsonView::Str(name)),
            ("description"@, JsonView::Str(description)),
            ("inputSchema"@, input_schema(properties, needed)),
        ],
    )
}

fn tool_of(name: &str, description: &str, properties: Vec<(String, Json)>, needed: Option<&str>) -> (r:
    Json)
    ensures
        r@ == tool(
            name@,
            description@,
            text::views(properties@),
            match needed {
                Some(n) => Some(n@),
                None => None,
            },
        ),
{
    let ghost props = text::views(properties@);
    let ghost want = match needed {
        Some(n) => Some(n@),
        None => None,
    };
    let mut shape = vec![
        field("type", Json::str("object")),
        field("properties", Json::object(properties)),
    ];
    let ghost base = seq![
        ("type"@, JsonView::Str("object"@)),
        ("properties"@, document::object_of(props)),
    ];
    assert(text::views(shape@) =~= base);
    if let Some(n) = needed {
        let names = vec![Json::str(n)];
        assert(text::views(names@) =~= seq![JsonView::Str(n@)]);
        shape.push(field("required", Json::array(names)));
    }
    let fields = vec![
        field("name", Json::str(name)),
        field("description", Json::str(description)),
        field("inputSchema", Json::object(shape)),
    ];
    assert(text::views(fields@) =~= seq![
        ("name"@, JsonView::Str(name@)),
        ("description"@, JsonView::Str(description@)),
        ("inputSchema"@, input_schema(props, want)),
    ]);
    let r = Json::object(fields);
    assert(r@ == tool(name@, description@, props, want));
    r
}

pub const READ_STATE: &'static str = "Read live values from the house bus by key expression: state, health, config, clock, meta, discovery. Wildcards allowed, e.g. home/state/** or home/discovery/zigbee.";

pub const READ_HISTORY: &'static str = "Read recorded history over the bus. A series is {state|cmd}/{entity}/{aspect} (wildcards allowed); rows are {ts, room, value}, ascending, one reply per concrete series.";

pub const READ_LOGS: &'static str = "Read a unit's captured stdout/stderr: the last 500 lines, operational exhaust for debugging, gone on supervisor restart (not the durable trail — see read_events). One \"ts_us stream line\" row per line.";

pub const READ_EVENTS: &'static str = "Read the durable audit trail: health events, preemptions, config writes, and cmd envelopes with their actors. Rows are {ts, key, payload}, ascending, as a JSON array.";

pub const SCHEMA: &'static str = "The manifest contract as JSON Schema, derived from the core's own parser: every section and field of a unit manifest, an entity file and zones.toml, with descriptions and which kinds accept what. Read it before authoring a unit; pair it with explain for the validator's rules.";

pub const EXPLAIN: &'static str = "Explain a validation error code from a refused plan (the <code> in error[<code>]): the rule and why it exists. Without a code, every code the core can emit, with its explanation — the authoring contract's rules in one read.";

/// The `read_state` tool.
pub open spec fn read_state_tool() -> JsonView {
    tool(
        "read_state"@,
        READ_STATE@,
        seq![
            ("key"@, typed("string"@, "a home/** key expression"@)),
        ],
        Some("key"@),
    )
}

/// The `read_history` tool.
pub open spec fn read_history_tool() -> JsonView {
    tool(
        "read_history"@,
        READ_HISTORY@,
        seq![
            ("series"@, typed("string"@, "e.g. state/livingroom_lamp/on"@)),
            ("from"@, typed("string"@, "RFC3339 with offset"@)),
            ("to"@, typed("string"@, "RFC3339 with offset"@)),
            ("limit"@, typed("integer"@, "keep the most recent rows"@)),
        ],
        Some("series"@),
    )
}

/// The `read_logs` tool.
pub open spec fn read_logs_tool() -> JsonView {
    tool(
        "read_logs"@,
        READ_LOGS@,
        seq![
            ("unit"@, typed("string"@, "unit name"@)),
            ("lines"@, typed("integer"@, "keep only the last N lines"@)),
        ],
        Some("unit"@),
    )
}

/// The `read_events` tool.
pub open spec fn read_events_tool() -> JsonView {
    tool(
        "read_events"@,
        READ_EVENTS@,
        seq![
            ("key"@, typed("string"@, "a home/** key expression, wildcards allowed"@)),
            ("from"@, typed("integer"@, "microseconds UTC, same unit as the reply ts"@)),
            ("to"@, typed("integer"@, "microseconds UTC, same unit as the reply ts"@)),
            ("limit"@, typed("integer"@, "keep the most recent rows"@)),
        ],
        None,
    )
}

/// The `schema` tool.
pub open spec fn schema_tool() -> JsonView {
    tool(
        "schema"@,
        SCHEMA@,
        seq![
            ("file"@, chosen("one file kind; omit for all three"@)),
        ],
        None,
    )
}

/// The `explain` tool.
pub open spec fn explain_tool() -> JsonView {
    tool(
        "explain"@,
        EXPLAIN@,
        seq![
            ("code"@, typed("string"@, "an error code, e.g. state-publish-unbound"@)),
        ],
        None,
    )
}

fn read_state_entry() -> (r: Json)
    ensures
        r@ == read_state_tool(),
{
    let properties = vec![
        field("key", typed_of("string", "a home/** key expression")),
    ];
    assert(text::views(properties@) =~= seq![
        ("key"@, typed("string"@, "a home/** key expression"@)),
    ]);
    tool_of("read_state", READ_STATE, properties, Some("key"))
}

fn read_history_entry() -> (r: Json)
    ensures
        r@ == read_history_tool(),
{
    let properties = vec![
        field("series", typed_of("string", "e.g. state/livingroom_lamp/on")),
        field("from", typed_of("string", "RFC3339 with offset")),
        field("to", typed_of("string", "RFC3339 with offset")),
        field("limit", typed_of("integer", "keep the most recent rows")),
    ];
    assert(text::views(properties@) =~= seq![
        ("series"@, typed("string"@, "e.g. state/livingroom_lamp/on"@)),
        ("from"@, typed("string"@, "RFC3339 with offset"@)),
        ("to"@, typed("string"@, "RFC3339 with offset"@)),
        ("limit"@, typed("integer"@, "keep the most recent rows"@)),
    ]);
    tool_of("read_history", READ_HISTORY, properties, Some("series"))
}

fn read_logs_entry() -> (r: Json)
    ensures
        r@ == read_logs_tool(),
{
    let properties = vec![
        field("unit", typed_of("string", "unit name")),
        field("lines", typed_of("integer", "keep only the last N lines")),
    ];
    assert(text::views(properties@) =~= seq![
        ("unit"@, typed("string"@, "unit name"@)),
        ("lines"@, typed("integer"@, "keep only the last N lines"@)),
    ]);
    tool_of("read_logs", READ_LOGS, properties, Some("unit"))
}

fn read_events_entry() -> (r: Json)
    ensures
        r@ == read_events_tool(),
{
    let properties = vec![
        field("key", typed_of("string", "a home/** key expression, wildcards allowed")),
        field("from", typed_of("integer", "microseconds UTC, same unit as the reply ts")),
        field("to", typed_of("integer", "microseconds UTC, same unit as the reply ts")),
        field("limit", typed_of("integer", "keep the most recent rows")),
    ];
    assert(text::views(properties@) =~= seq![
        ("key"@, typed("string"@, "a home/** key expression, wildcards allowed"@)),
        ("from"@, typed("integer"@, "microseconds UTC, same unit as the reply ts"@)),
        ("to"@, typed("integer"@, "microseconds UTC, same unit as the reply ts"@)),
        ("limit"@, typed("integer"@, "keep the most recent rows"@)),
    ]);
    tool_of("read_events", READ_EVENTS, properties, None)
}

fn schema_entry() -> (r: Json)
    ensures
        r@ == schema_tool(),
{
    let properties = vec![
        field("file", chosen_of("one file kind; omit for all three")),
    ];
    assert(text::views(properties@) =~= seq![
        ("file"@, chosen("one file kind; omit for all three"@)),
    ]);
    tool_of("schema", SCHEMA, properties, None)
}

fn explain_entry() -> (r: Json)
    ensures
        r@ == explain_tool(),
{
    let properties = vec![
        field("code", typed_of("string", "an error code, e.g. state-publish-unbound")),
    ];
    assert(text::views(properties@) =~= seq![
        ("code"@, typed("string"@, "an error code, e.g. state-publish-unbound"@)),
    ]);
    tool_of("explain", EXPLAIN, properties, None)
}

/// The tool list served by tools/list.
pub open spec fn tool_list() -> Seq<JsonView> {
    seq![
        read_state_tool(),
        read_history_tool(),
        read_logs_tool(),
        read_events_tool(),
        schema_tool(),
        explain_tool(),
    ]
}

/// The tool list served by tools/list.
pub fn tools() -> (r: Json)
    ensures
        r@ == JsonView::Array(tool_list()),
{
    let list = vec![
        read_state_entry(),
        read_history_entry(),
        read_logs_entry(),
        read_events_entry(),
        schema_entry(),
        explain_entry(),
    ];
    assert(text::views(list@) =~= tool_list());
    Json::array(list)
}

} // verus!

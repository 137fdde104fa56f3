//! Minimal JSON-RPC / MCP request handling shared by both transports:
//! initialize, tools/list, tools/call, ping. Five methods over JSON-RPC 2.0,
//! stateless, one message at a time.

use crate::document;
use crate::document::field;
use crate::json;
use crate::json::Json;
use crate::json::JsonView;
use crate::mcp;
use crate::mcp::tools;
use crate::mcp::TOOL_NAMES;
use crate::scan;
use crate::text;
use crate::text::cat2;
use crate::text::cat3;
use crate::text::is_listed;
use crate::text::str_eq;
use vstd::prelude::*;

verus! {

broadcast use crate::text::group_views;

/// The newest MCP revision this server knows; initialize echoes the
/// client's requested revision since everything served here is valid under
/// every published one.
pub const PROTOCOL_VERSION: &'static str = "2025-06-18";

/// The version of this server.
pub const VERSION: &'static str = "0.1.0";

/// The longest stdio message accepted, in bytes: generous for any tool call,
/// and a bound rather than an allocation failure for a runaway client.
pub const MAX_LINE: u64 = 16_777_216;

/// A JSON-RPC error.
pub open spec fn error_of(code: int, message: Seq<char>) -> JsonView {
    document::object_of(
        seq![("code"@, JsonView::Int(code)), ("message"@, JsonView::Str(message))],
    )
}

fn error_object(code: i64, message: &str) -> (r: Json)
    ensures
        r@ == error_of(code as int, message@),
{
    let fields = vec![
        field("code", Json::from_int(code)),
        field("message", Json::str(message)),
    ];
    assert(text::views(fields@) =~= seq![
        ("code"@, JsonView::Int(code as int)),
        ("message"@, JsonView::Str(message@)),
    ]);
    Json::object(fields)
}

/// A reply to the request with this id: `part` is `result` or `error`.
pub open spec fn reply_of(id: JsonView, part: Seq<char>, value: JsonView) -> JsonView {
    document::object_of(
        seq![("jsonrpc"@, JsonView::Str("2.0"@)), ("id"@, id), (part, value)],
    )
}

fn reply(id: Json, part: &str, value: Json) -> (r: Json)
    ensures
        r@ == reply_of(id@, part@, value@),
{
    let ghost i = id@;
    let ghost v = value@;
    let fields = vec![
        field("jsonrpc", Json::str("2.0")),
        field("id", id),
        field(part, value),
    ];
    assert(text::views(fields@) =~= seq![
        ("jsonrpc"@, JsonView::Str("2.0"@)),
        ("id"@, i),
        (part@, v),
    ]);
    Json::object(fields)
}

/// The empty object.
pub open spec fn nothing() -> JsonView {
    document::object_of(Seq::empty())
}

fn empty_object() -> (r: Json)
    ensures
        r@ == nothing(),
{
    let fields: Vec<(String, Json)> = Vec::new();
    assert(text::views(fields@) =~= Seq::empty());
    Json::object(fields)
}

/// A member of a request, or the empty object where it has none.
pub open spec fn member_or_nothing(v: JsonView, name: Seq<char>) -> JsonView {
    match document::member(v, name) {
        Some(m) => m,
        None => nothing(),
    }
}

fn get_or_empty(v: &Json, name: &str) -> (r: Json)
    ensures
        r@ == member_or_nothing(v@, name@),
{
    match v.get(name) {
        Some(m) => m.copy(),
        None => empty_object(),
    }
}

/// A text member, or the empty text where there is none.
pub open spec fn text_or_empty(v: JsonView, name: Seq<char>) -> Seq<char> {
    match document::text_member(v, name) {
        Some(s) => s,
        None => ""@,
    }
}

/// The MCP revision that is agreed on: the client's, where it names one.
pub open spec fn revision(params: JsonView) -> Seq<char> {
    match document::text_member(params, "protocolVersion"@) {
        Some(v) => v,
        None => PROTOCOL_VERSION@,
    }
}

/// The result of `initialize`.
pub open spec fn greeting(params: JsonView) -> JsonView {
    document::object_of(
        seq![
            ("protocolVersion"@, JsonView::Str(revision(params))),
            ("capabilities"@, document::object_of(seq![("tools"@, nothing())])),
            (
                "serverInfo"@,
                document::object_of(
                    seq![
                        ("name"@, JsonView::Str("homeostat"@)),
                        ("version"@, JsonView::Str(VERSION@)),
                    ],
                ),
            ),
        ],
    )
}

fn initialize(params: &Json) -> (r: Json)
    ensures
        r@ == greeting(params@),
{
    let version = match params.get_str("protocolVersion") {
        Some(v) => Json::str(v),
        None => Json::str(PROTOCOL_VERSION),
    };
    let capabilities = vec![field("tools", empty_object())];
    assert(text::views(capabilities@) =~= seq![("tools"@, nothing())]);
    let info = vec![
        field("name", Json::str("homeostat")),
        field("version", Json::str(VERSION)),
    ];
    assert(text::views(info@) =~= seq![
        ("name"@, JsonView::Str("homeostat"@)),
        ("version"@, JsonView::Str(VERSION@)),
    ]);
    let fields = vec![
        field("protocolVersion", version),
        field("capabilities", Json::object(capabilities)),
        field("serverInfo", Json::object(info)),
    ];
    assert(text::views(fields@) =~= seq![
        ("protocolVersion"@, JsonView::Str(revision(params@))),
        ("capabilities"@, document::object_of(seq![("tools"@, nothing())])),
        (
            "serverInfo"@,
            document::object_of(
                seq![
                    ("name"@, JsonView::Str("homeostat"@)),
                    ("version"@, JsonView::Str(VERSION@)),
                ],
            ),
        ),
    ]);
    Json::object(fields)
}

/// What a message asks for.
#[derive(Debug)]
pub enum Handled {
    /// A notification: no reply.
    Silent,
    Reply(Json),
    /// A tool is to be called; its outcome goes into `tool_reply`.
    Call { id: Json, name: String, args: Json },
}

pub enum HandledView {
    Silent,
    Reply(JsonView),
    Call { id: JsonView, name: Seq<char>, args: JsonView },
}

impl View for Handled {
    type V = HandledView;

    open spec fn view(&self) -> HandledView {
        match self {
            Handled::Silent => HandledView::Silent,
            Handled::Reply(j) => HandledView::Reply(j@),
            Handled::Call { id, name, args } => HandledView::Call {
                id: id@,
                name: name@,
                args: args@,
            },
        }
    }
}

/// What a request asks for.
pub open spec fn answered(id: JsonView, method: Seq<char>, params: JsonView) -> HandledView {
    if method == "initialize"@ {
        HandledView::Reply(reply_of(id, "result"@, greeting(params)))
    } else if method == "ping"@ {
        HandledView::Reply(reply_of(id, "result"@, nothing()))
    } else if method == "tools/list"@ {
        HandledView::Reply(
            reply_of(
                id,
                "result"@,
                document::object_of(seq![("tools"@, JsonView::Array(mcp::tool_list()))]),
            ),
        )
    } else if method == "tools/call"@ {
        let name = text_or_empty(params, "name"@);
        if text::listed(TOOL_NAMES@, name) {
            HandledView::Call { id, name, args: member_or_nothing(params, "arguments"@) }
        } else {
            HandledView::Reply(
                reply_of(id, "error"@, error_of(-32602, "unknown tool \""@ + name + "\""@)),
            )
        }
    } else {
        HandledView::Reply(
            reply_of(id, "error"@, error_of(-32601, "method \""@ + method + "\" not found"@)),
        )
    }
}

/// What a JSON-RPC message asks for: nothing, where it has no id.
pub open spec fn handled(message: JsonView) -> HandledView {
    match document::member(message, "id"@) {
        None => HandledView::Silent,
        Some(id) => if id is Null {
            HandledView::Silent
        } else {
            answered(id, text_or_empty(message, "method"@), member_or_nothing(message, "params"@))
        },
    }
}

fn listing() -> (r: Json)
    ensures
        r@ == document::object_of(seq![("tools"@, JsonView::Array(mcp::tool_list()))]),
{
    let fields = vec![field("tools", tools())];
    assert(text::views(fields@) =~= seq![("tools"@, JsonView::Array(mcp::tool_list()))]);
    Json::object(fields)
}

/// Handles one JSON-RPC message. An unknown tool is a protocol error; a known
/// tool that fails is a tool result with isError — the agent reads the
/// message and adjusts.
pub fn handle(message: &Json) -> (r: Handled)
    ensures
        r@ == handled(message@),
{
    let id = match message.get("id") {
        Some(id) => if id.is_null() {
            return Handled::Silent;
        } else {
            id.copy()
        },
        None => return Handled::Silent,
    };
    let method = match message.get_str("method") {
        Some(m) => m,
        None => "",
    };
    let params = get_or_empty(message, "params");
    if str_eq(method, "initialize") {
        let result = initialize(&params);
        Handled::Reply(reply(id, "result", result))
    } else if str_eq(method, "ping") {
        Handled::Reply(reply(id, "result", empty_object()))
    } else if str_eq(method, "tools/list") {
        Handled::Reply(reply(id, "result", listing()))
    } else if str_eq(method, "tools/call") {
        let name = match params.get_str("name") {
            Some(n) => n,
            None => "",
        };
        if is_listed(&TOOL_NAMES, name) {
            let args = get_or_empty(&params, "arguments");
            Handled::Call { id, name: name.to_owned(), args }
        } else {
            let message = cat3("unknown tool \"", name, "\"");
            Handled::Reply(reply(id, "error", error_object(-32602, message.as_str())))
        }
    } else {
        let message = cat3("method \"", method, "\" not found");
        Handled::Reply(reply(id, "error", error_object(-32601, message.as_str())))
    }
}

/// The result of a tool call: its text, and whether the tool failed.
pub open spec fn tool_result(text: Seq<char>, failed: bool) -> JsonView {
    document::object_of(
        seq![
            (
                "content"@,
                JsonView::Array(
                    seq![
                        document::object_of(
                            seq![("type"@, JsonView::Str("text"@)), ("text"@, JsonView::Str(text))],
                        ),
                    ],
                ),
            ),
            ("isError"@, JsonView::Bool(failed)),
        ],
    )
}

/// The reply that carries a tool's outcome.
pub fn tool_reply(id: Json, outcome: Result<String, String>) -> (r: Json)
    ensures
        r@ == reply_of(
            id@,
            "result"@,
            match outcome {
                Ok(text) => tool_result(text@, false),
                Err(text) => tool_result(text@, true),
            },
        ),
{
    let (text, failed) = match outcome {
        Ok(text) => (text, false),
        Err(text) => (text, true),
    };
    let part = vec![field("type", Json::str("text")), field("text", Json::str(text.as_str()))];
    assert(text::views(part@) =~= seq![
        ("type"@, JsonView::Str("text"@)),
        ("text"@, JsonView::Str(text@)),
    ]);
    let content = vec![Json::object(part)];
    assert(text::views(content@) =~= seq![
        document::object_of(
            seq![("type"@, JsonView::Str("text"@)), ("text"@, JsonView::Str(text@))],
        ),
    ]);
    let fields = vec![
        field("content", Json::array(content)),
        field("isError", Json::Bool(failed)),
    ];
    assert(text::views(fields@) =~= seq![
        (
            "content"@,
            JsonView::Array(
                seq![
                    document::object_of(
                        seq![("type"@, JsonView::Str("text"@)), ("text"@, JsonView::Str(text@))],
                    ),
                ],
            ),
        ),
        ("isError"@, JsonView::Bool(failed)),
    ]);
    reply(id, "result", Json::object(fields))
}

/// The reply to a message that could not be read.
pub open spec fn unread(code: int, message: Seq<char>) -> JsonView {
    reply_of(JsonView::Null, "error"@, error_of(code, message))
}

/// The reply to a message that is not JSON.
pub fn parse_error(complaint: &str) -> (r: Json)
    ensures
        r@ == unread(-32700, "parse error: "@ + complaint@),
{
    let message = cat2("parse error: ", complaint);
    reply(Json::Null, "error", error_object(-32700, message.as_str()))
}

/// What a line on stdin asks for: a line that is too long is answered with
/// an error, a blank one is skipped, any other is a message.
pub open spec fn line_handled(line: Seq<char>) -> HandledView {
    if vstd::utf8::encode_utf8(line).len() > MAX_LINE {
        HandledView::Reply(unread(-32600, "message exceeds "@ + text::decimal(MAX_LINE as nat) + " bytes"@))
    } else if scan::trimmed(line).len() == 0 {
        HandledView::Silent
    } else {
        match json::json_document(vstd::utf8::encode_utf8(line)) {
            Ok(message) => handled(message),
            Err(e) => HandledView::Reply(unread(-32700, "parse error: "@ + e)),
        }
    }
}

/// Takes a line of the stdio transport: newline-delimited JSON-RPC, one
/// response line per request.
pub fn on_line(line: &str) -> (r: Handled)
    ensures
        r@ == line_handled(line@),
{
    let bytes = line.as_bytes();
    if bytes.len() as u64 > MAX_LINE {
        let message = cat3("message exceeds ", text::decimal_of(MAX_LINE).as_str(), " bytes");
        return Handled::Reply(
            reply(Json::Null, "error", error_object(-32600, message.as_str())),
        );
    }
    if scan::trim(line).as_str().unicode_len() == 0 {
        return Handled::Silent;
    }
    match Json::parse(bytes) {
        Ok(message) => handle(&message),
        Err(e) => Handled::Reply(parse_error(e.as_str())),
    }
}

/// A message without an id is a notification and gets no reply; a request is
/// answered, and its answer carries the id it came with.
pub proof fn law_requests_are_answered_by_id(message: JsonView)
    ensures
        match document::member(message, "id"@) {
            Some(id) => if id is Null {
                handled(message) is Silent
            } else {
                match handled(message) {
                    HandledView::Silent => false,
                    HandledView::Reply(j) => exists|part: Seq<char>, value: JsonView|
                        j == #[trigger] reply_of(id, part, value),
                    HandledView::Call { id: same, .. } => same == id,
                }
            },
            None => handled(message) is Silent,
        },
{
}

/// Only a listed tool is ever called.
pub proof fn law_only_listed_tools_are_called(message: JsonView)
    ensures
        handled(message) matches HandledView::Call { name, .. } ==> text::listed(TOOL_NAMES@, name),
{
}

} // verus!

//! What is said over the wire: which requests are read, what their headers
//! make of them, and what the replies hold.

use crate::document;
use crate::expand::ExpandedView;
use crate::grants;
use crate::json::JsonView;
use crate::manifest::PublishSpec;
use crate::manifest::CAPABILITIES;
use crate::mcp::http;
use crate::mcp::http::ActionView;
use crate::mcp::http::Address;
use crate::mcp::http::RequestView;
use crate::mcp::http::StageView;
use crate::mcp::protocol;
use crate::mcp::protocol::HandledView;
use crate::mcp::TOOL_NAMES;
use crate::pending;
use crate::reach;
use crate::repo::House;
use crate::scan;
use crate::text;
use crate::world;
use crate::world::UnitView;
use vstd::prelude::*;

verus! {

/// A request is read on exactly where its host is heard, its origin is, if
/// it has one, the write header is there, it is a POST, and its body has a
/// length within the cap. Else it is refused, with the status that tells
/// why: the peer, the method or the body.
pub proof fn law_requests_pass_every_gate_or_are_refused(
    request: RequestView,
    host_address: Option<Address>,
    origin_address: Option<Address>,
    extra: Option<Seq<char>>,
)
    ensures
        ({
            let r = http::refusal(request, host_address, origin_address, extra);
            let peer = request.host is Some && http::allowed(
                request.host->Some_0,
                host_address,
                extra,
            ) && (request.origin is Some ==> http::allowed(
                request.origin->Some_0,
                origin_address,
                extra,
            )) && request.write_header;
            &&& r is None <==> peer && request.method == "POST"@ && request.length is Some
            &&& !peer ==> r->Some_0.status == "403 Forbidden"@
            &&& peer && request.method != "POST"@ ==> r->Some_0.status
                == "405 Method Not Allowed"@
            &&& peer && request.method == "POST"@ && request.length is None ==> r->Some_0.status
                == "413 Payload Too Large"@
        }),
{
}

proof fn lemma_header_words()
    ensures
        "content-length"@.len() == 14,
        "connection"@.len() == 10,
        "host"@.len() == 4,
        "origin"@.len() == 6,
        http::WRITE_HEADER@.len() == 11,
{
    reveal_strlit("content-length");
    reveal_strlit("connection");
    reveal_strlit("host");
    reveal_strlit("origin");
    reveal_strlit("x-homeostat");
}

/// Each header sets what it is for and nothing else, whatever its case: the
/// length of the body, the host, the origin, the wish to close, and that the
/// write header is there. Any other header says nothing.
pub proof fn law_headers_set_what_they_are_for(r: RequestView, name: Seq<char>, value: Seq<char>)
    ensures
        ({
            let after = http::with_header(r, name, value);
            &&& after.host == if scan::same_word(name, "host"@) {
                Some(value)
            } else {
                r.host
            }
            &&& after.origin == if scan::same_word(name, "origin"@) {
                Some(value)
            } else {
                r.origin
            }
            &&& after.write_header == (r.write_header || scan::same_word(name, "x-homeostat"@))
            &&& after.close == (r.close || scan::same_word(name, "connection"@) && scan::same_word(
                value,
                "close"@,
            ))
            &&& !scan::same_word(name, "content-length"@) ==> after.length == r.length
            &&& scan::same_word(name, "content-length"@) ==> match text::number(value) {
                Some(n) => if 0 <= n <= 1_048_576 {
                    after.length == Some(n as u64)
                } else {
                    after.length is None
                },
                None => after.length is None,
            }
            &&& after.method == r.method
            &&& after.count == r.count
        }),
{
    lemma_header_words();
}

/// The head of a request is bounded: no more header lines are taken than may
/// be, and a line that is too long, or that the peer did not end, is refused
/// and the connection closed. An empty line ends the head.
pub proof fn law_heads_are_bounded(stage: StageView, line: Seq<char>)
    requires
        stage matches StageView::Head(r) ==> r.count <= http::MAX_HEADERS,
    ensures
        ({
            let (next, action) = http::after_line(stage, line);
            &&& next matches StageView::Head(r) ==> r.count <= http::MAX_HEADERS
            &&& line.len() > 0 && (vstd::utf8::encode_utf8(line).len() > http::MAX_HEADER_LINE
                || line.last() != '\n') ==> next is Closed && (action matches ActionView::Send(
                answer,
            ) && answer.status == "431 Request Header Fields Too Large"@)
            &&& line.len() == 0 ==> next is Closed && action is Close
            &&& action is Judge <==> stage is Head && line.len() > 0 && vstd::utf8::encode_utf8(
                line,
            ).len() <= http::MAX_HEADER_LINE && line.last() == '\n' && scan::trimmed_end(
                line,
            ).len() == 0
        }),
{
}

/// What stands under a name once a value was put there.
proof fn lemma_placed(
    m: Seq<(Seq<char>, JsonView)>,
    name: Seq<char>,
    value: JsonView,
    other: Seq<char>,
)
    ensures
        document::entry(document::placed(m, name, value), other) == if other == name {
            Some(value)
        } else {
            document::entry(m, other)
        },
    decreases m.len(),
{
    let p = document::placed(m, name, value);
    if m.len() == 0 || text::lex_lt(name, m[0].0) {
        assert(p.drop_first() =~= m);
    } else if m[0].0 == name {
        assert(p.drop_first() =~= m.drop_first());
    } else {
        lemma_placed(m.drop_first(), name, value, other);
        assert(p.drop_first() =~= document::placed(m.drop_first(), name, value));
    }
}

proof fn lemma_two(a: (Seq<char>, JsonView), b: (Seq<char>, JsonView), name: Seq<char>)
    ensures
        document::member(document::object_of(seq![a, b]), name) == if name == b.0 {
            Some(b.1)
        } else if name == a.0 {
            Some(a.1)
        } else {
            None
        },
{
    reveal_with_fuel(document::sorted_fields, 3);
    let s = seq![a, b];
    assert(s.drop_last() =~= seq![a]);
    assert(seq![a].drop_last() =~= Seq::empty());
    let none: Seq<(Seq<char>, JsonView)> = Seq::empty();
    lemma_placed(none, a.0, a.1, name);
    lemma_placed(document::placed(none, a.0, a.1), b.0, b.1, name);
}

proof fn lemma_three(
    a: (Seq<char>, JsonView),
    b: (Seq<char>, JsonView),
    c: (Seq<char>, JsonView),
    name: Seq<char>,
)
    ensures
        document::member(document::object_of(seq![a, b, c]), name) == if name == c.0 {
            Some(c.1)
        } else if name == b.0 {
            Some(b.1)
        } else if name == a.0 {
            Some(a.1)
        } else {
            None
        },
{
    let s = seq![a, b, c];
    assert(s.drop_last() =~= seq![a, b]);
    lemma_two(a, b, name);
    lemma_placed(document::sorted_fields(seq![a, b]), c.0, c.1, name);
    assert(document::sorted_fields(s) == document::placed(
        document::sorted_fields(seq![a, b]),
        c.0,
        c.1,
    ));
}

/// The reply is one to the request with this id, by JSON-RPC 2.0, and holds
/// this part and no other.
pub open spec fn replies(j: JsonView, id: JsonView, part: Seq<char>, value: JsonView) -> bool {
    &&& document::member(j, "jsonrpc"@) == Some(JsonView::Str("2.0"@))
    &&& document::member(j, "id"@) == Some(id)
    &&& document::member(j, part) == Some(value)
    &&& part == "result"@ ==> document::member(j, "error"@) is None
    &&& part == "error"@ ==> document::member(j, "result"@) is None
}

proof fn lemma_reply_words()
    ensures
        "jsonrpc"@.len() == 7,
        "id"@.len() == 2,
        "result"@.len() == 6,
        "error"@.len() == 5,
        "code"@.len() == 4,
        "message"@.len() == 7,
{
    reveal_strlit("jsonrpc");
    reveal_strlit("id");
    reveal_strlit("result");
    reveal_strlit("error");
    reveal_strlit("code");
    reveal_strlit("message");
}

/// A reply holds what it is made of.
pub proof fn law_replies_hold_their_parts(id: JsonView, part: Seq<char>, value: JsonView)
    requires
        part == "result"@ || part == "error"@,
    ensures
        replies(protocol::reply_of(id, part, value), id, part, value),
{
    lemma_reply_words();
    let a = ("jsonrpc"@, JsonView::Str("2.0"@));
    let b = ("id"@, id);
    let c = (part, value);
    lemma_three(a, b, c, "jsonrpc"@);
    lemma_three(a, b, c, "id"@);
    lemma_three(a, b, c, part);
    lemma_three(a, b, c, "result"@);
    lemma_three(a, b, c, "error"@);
}

/// The reply is an error with this code.
pub open spec fn fails_with(j: JsonView, id: JsonView, code: int) -> bool {
    &&& document::member(j, "id"@) == Some(id)
    &&& document::member(j, "result"@) is None
    &&& document::member(j, "error"@) is Some
    &&& document::member(document::member(j, "error"@)->Some_0, "code"@) == Some(
        JsonView::Int(code),
    )
}

proof fn lemma_failure(id: JsonView, code: int, message: Seq<char>)
    ensures
        fails_with(protocol::reply_of(id, "error"@, protocol::error_of(code, message)), id, code),
{
    lemma_reply_words();
    law_replies_hold_their_parts(id, "error"@, protocol::error_of(code, message));
    lemma_two(
        ("code"@, JsonView::Int(code)),
        ("message"@, JsonView::Str(message)),
        "code"@,
    );
}

proof fn lemma_method_words()
    ensures
        "initialize"@.len() == 10,
        "ping"@.len() == 4,
        "tools/list"@.len() == 10,
        "tools/call"@.len() == 10,
        "initialize"@[0] == 'i',
        "tools/list"@[6] == 'l',
        "tools/call"@[6] == 'c',
        "tools/list"@[0] == 't',
        "tools/call"@[0] == 't',
{
    reveal_strlit("initialize");
    reveal_strlit("ping");
    reveal_strlit("tools/list");
    reveal_strlit("tools/call");
}

/// A request is answered by its method. `initialize`, `ping` and
/// `tools/list` have a result; `tools/call` calls the tool that it names,
/// where there is one of the name, and else fails as a call with bad
/// parameters; any other method fails as unknown.
pub proof fn law_methods_are_answered(message: JsonView, id: JsonView)
    requires
        document::member(message, "id"@) == Some(id),
        !(id is Null),
    ensures
        ({
            let method = protocol::text_or_empty(message, "method"@);
            let params = protocol::member_or_nothing(message, "params"@);
            let tool = protocol::text_or_empty(params, "name"@);
            let h = protocol::handled(message);
            &&& method == "initialize"@ || method == "ping"@ || method == "tools/list"@ ==> h
                is Reply && document::member(h->Reply_0, "id"@) == Some(id) && document::member(
                h->Reply_0,
                "result"@,
            ) is Some && document::member(h->Reply_0, "error"@) is None
            &&& method == "tools/call"@ && text::listed(TOOL_NAMES@, tool) ==> h == (
            HandledView::Call {
                id,
                name: tool,
                args: protocol::member_or_nothing(params, "arguments"@),
            })
            &&& method == "tools/call"@ && !text::listed(TOOL_NAMES@, tool) ==> h is Reply
                && fails_with(h->Reply_0, id, -32602)
            &&& method != "initialize"@ && method != "ping"@ && method != "tools/list"@ && method
                != "tools/call"@ ==> h is Reply && fails_with(h->Reply_0, id, -32601)
        }),
{
    let method = protocol::text_or_empty(message, "method"@);
    let params = protocol::member_or_nothing(message, "params"@);
    let tool = protocol::text_or_empty(params, "name"@);
    lemma_method_words();
    law_replies_hold_their_parts(id, "result"@, protocol::greeting(params));
    law_replies_hold_their_parts(id, "result"@, protocol::nothing());
    law_replies_hold_their_parts(
        id,
        "result"@,
        document::object_of(seq![("tools"@, JsonView::Array(crate::mcp::tool_list()))]),
    );
    lemma_failure(id, -32602, "unknown tool \""@ + tool + "\""@);
    lemma_failure(id, -32601, "method \""@ + method + "\" not found"@);
}

/// What becomes known of a running unit is put down where it belongs and
/// nowhere else; a field that is not known changes nothing.
pub proof fn law_known_fields_are_put_down(
    before: Option<UnitView>,
    field: Seq<char>,
    payload: Seq<u8>,
)
    ensures
        ({
            let after = world::with_field(before, field, payload);
            &&& after.manifest == if field == "manifest"@ {
                payload
            } else if before is Some {
                before->Some_0.manifest
            } else {
                Seq::empty()
            }
            &&& after.manifest_hash == if field == "manifest_hash"@ {
                scan::lossy_text(payload)
            } else if before is Some {
                before->Some_0.manifest_hash
            } else {
                Seq::empty()
            }
            &&& after.files_hash == if field == "files_hash"@ {
                scan::lossy_text(payload)
            } else if before is Some {
                before->Some_0.files_hash
            } else {
                Seq::empty()
            }
        }),
{
    reveal_strlit("manifest");
    reveal_strlit("manifest_hash");
    reveal_strlit("files_hash");
    assert("manifest"@.len() == 8 && "manifest_hash"@.len() == 13 && "files_hash"@.len() == 10);
}

/// How many days the month has.
pub open spec fn days_in(y: int, m: int) -> int {
    if m == 2 {
        if y % 400 == 0 || y % 4 == 0 && y % 100 != 0 {
            29
        } else {
            28
        }
    } else if m == 4 || m == 6 || m == 9 || m == 11 {
        30
    } else {
        31
    }
}

/// The dates of the calendar are the days of its months; the day after the
/// last of a month is the first of the next, and the day after the last of
/// December the first of January.
pub proof fn law_months_follow(y: int, m: int)
    requires
        1 <= m <= 12,
    ensures
        forall|d: int| #[trigger] pending::valid_date(y, m, d) <==> 1 <= d <= days_in(y, m),
        m < 12 ==> pending::day_number(y, m, days_in(y, m)) + 1 == pending::day_number(
            y,
            m + 1,
            1,
        ),
        pending::day_number(y, 12, 31) + 1 == pending::day_number(y + 1, 1, 1),
        pending::day_number(1970, 1, 1) == 0,
{
    pending::law_years_follow(y);
    assert(m == 1 || m == 2 || m == 3 || m == 4 || m == 5 || m == 6 || m == 7 || m == 8 || m == 9
        || m == 10 || m == 11 || m == 12);
}

/// The warning that a publish matches no entities is given of exactly the
/// command publishes with a known capability for which the house has no
/// entity that they reach.
pub proof fn law_idle_publishes_are_warned_of(
    h: House,
    x: ExpandedView,
    u: int,
    spec: PublishSpec,
)
    requires
        reach::is_command_publish(x) ==> reach::declares_publish(h, u, x.unit, x.entry, spec),
    ensures
        grants::key_warnings(h, x).len() > 0 <==> {
            &&& reach::is_command_publish(x)
            &&& spec.capability is Some
            &&& text::listed(CAPABILITIES@, spec.capability->Some_0@)
            &&& forall|m: int|
                0 <= m < h.entities@.len() ==> !reach::reachable(
                    x.exprs,
                    spec.capability->Some_0@,
                    #[trigger] h.entities@[m],
                )
        },
{
    crate::wiring::law_commands_declare_a_capability(h, x, u, spec);
    reach::lemma_commands(x);
    if reach::is_command_publish(x) {
        reach::lemma_declaration(h, u, x, spec);
        if spec.capability is Some {
            let c = spec.capability->Some_0@;
            let g = grants::granted(h, x, c);
            if g.len() > 0 {
                let m = reach::lemma_granted_from(h, x, c, 0);
                assert(reach::reachable(x.exprs, c, h.entities@[m]));
            } else {
                assert forall|m: int| 0 <= m < h.entities@.len() implies !reach::reachable(
                    x.exprs,
                    c,
                    #[trigger] h.entities@[m],
                ) by {
                    if reach::reachable(x.exprs, c, h.entities@[m]) {
                        let j = reach::lemma_granted_has(h, x, c, m);
                    }
                }
            }
        }
    }
}

} // verus!

//! The HTTP transport: MCP streamable-HTTP in its stateless shape. A POST
//! carries one JSON-RPC message and gets the JSON response in the body; a
//! notification gets 202 with no body; GET is 405 — this server never
//! initiates messages.
//!
//! Reachability is the credential, and the browser is not local even when
//! the house is: a public page in a family browser can fire requests at LAN
//! addresses. So three gates stand before everything else — `Host` must be
//! non-global or known, `Origin` must be absent (no browser sent it) or
//! allowed, and every request must carry `X-Homeostat`. That header is what
//! a cross-origin `fetch` cannot add without a preflight that the 405 on
//! OPTIONS refuses.

use crate::json;
use crate::json::Json;
use crate::json::JsonView;
use crate::mcp::protocol;
use crate::mcp::protocol::Handled;
use crate::mcp::protocol::HandledView;
use crate::scan;
use crate::scan::eq_ignore_case;
use crate::text;
use crate::text::cat3;
use crate::text::cat4;
use crate::text::cut;
use crate::text::is_listed;
use crate::text::split_words;
use crate::text::str_eq;
use vstd::prelude::*;

verus! {

broadcast use crate::text::group_views;

/// The names the house answers to.
pub const ALLOWED_NAMES: [&'static str; 4] = [
    "localhost",
    "homeostat",
    "homeostat.lan",
    "homeostat.local",
];

pub const WRITE_HEADER: &'static str = "x-homeostat";

pub const ENV_HOSTS: &'static str = "HOMEOSTAT_MCP_HOSTS";

/// Bounds on what a LAN peer can make this process hold or wait for. A
/// request body is one JSON-RPC message; a tools/call argument list is
/// never near a megabyte. A declared `Content-Length` is only ever
/// allocated after all three gates passed and only up to this cap.
pub const MAX_BODY: u64 = 1_048_576;

pub const MAX_HEADER_LINE: u64 = 8_192;

pub const MAX_HEADERS: usize = 64;

pub const READ_TIMEOUT_MS: u64 = 10_000;

pub const MAX_CONNECTIONS: usize = 32;

/// A network address: four bytes, or eight groups of sixteen bits.
#[derive(Debug, Clone, Copy, PartialEq, Eq)]
pub enum Address {
    V4([u8; 4]),
    V6([u16; 8]),
}

/// Private, loopback, link-local or unspecified.
pub open spec fn local_v4(a: Seq<u8>) -> bool {
    ||| a[0] == 10
    ||| a[0] == 172 && 16 <= a[1] <= 31
    ||| a[0] == 192 && a[1] == 168
    ||| a[0] == 127
    ||| a[0] == 169 && a[1] == 254
    ||| a[0] == 0 && a[1] == 0 && a[2] == 0 && a[3] == 0
}

/// Loopback, unspecified, unique-local or link-local.
pub open spec fn local_v6(a: Seq<u16>) -> bool {
    ||| (forall|i: int| 0 <= i < 7 ==> #[trigger] a[i] == 0) && a[7] <= 1
    ||| 0xfc00 <= a[0] <= 0xfdff
    ||| 0xfe80 <= a[0] <= 0xfebf
}

/// An address outside the house's own network.
pub open spec fn is_global(a: Address) -> bool {
    match a {
        Address::V4(b) => !local_v4(b@),
        Address::V6(b) => !local_v6(b@),
    }
}

/// Whether the peer is not plausibly on the house's own network.
pub fn ip_is_global(ip: &Address) -> (r: bool)
    ensures
        r == is_global(*ip),
{
    match ip {
        Address::V4(a) => {
            let private = a[0] == 10 || (a[0] == 172 && 16 <= a[1] && a[1] <= 31) || (a[0] == 192
                && a[1] == 168);
            let loopback = a[0] == 127;
            let link_local = a[0] == 169 && a[1] == 254;
            let unspecified = a[0] == 0 && a[1] == 0 && a[2] == 0 && a[3] == 0;
            !(private || loopback || link_local || unspecified)
        },
        Address::V6(a) => {
            let low = a[0] == 0 && a[1] == 0 && a[2] == 0 && a[3] == 0 && a[4] == 0 && a[5] == 0
                && a[6] == 0 && a[7] <= 1;
            let seg = a[0];
            assert((seg & 0xfe00 == 0xfc00) == (0xfc00 <= seg && seg <= 0xfdff)) by (bit_vector);
            assert((seg & 0xffc0 == 0xfe80) == (0xfe80 <= seg && seg <= 0xfebf)) by (bit_vector);
            assert(low == ((forall|i: int| 0 <= i < 7 ==> #[trigger] a@[i] == 0) && a@[7] <= 1)) by {
                if low {
                    assert forall|i: int| 0 <= i < 7 implies #[trigger] a@[i] == 0 by {}
                }
            }
            !(low || seg & 0xfe00 == 0xfc00 || seg & 0xffc0 == 0xfe80)
        },
    }
}

/// What follows the last `://`.
pub open spec fn after_scheme(value: Seq<char>) -> Seq<char> {
    match scan::found_up_to(value, "://"@, value.len() as int) {
        Some(i) => value.skip(i + 3),
        None => value,
    }
}

/// Every character is a digit.
pub open spec fn all_digits(s: Seq<char>) -> bool {
    forall|i: int| 0 <= i < s.len() ==> text::is_digit(#[trigger] s[i])
}

/// `s` up to the first `c`.
pub open spec fn up_to(s: Seq<char>, c: char) -> Seq<char>
    decreases s.len(),
{
    if s.len() == 0 || s[0] == c {
        Seq::empty()
    } else {
        seq![s[0]] + up_to(s.drop_first(), c)
    }
}

/// The host part of a `Host` or `Origin` header value: without a scheme and
/// a port, a bracketed IPv6 literal unwrapped.
pub open spec fn host_part(value: Seq<char>) -> Seq<char> {
    let rest = after_scheme(value);
    if rest.len() > 0 && rest[0] == '[' {
        up_to(rest.skip(1), ']')
    } else {
        match scan::found_up_to(rest, ":"@, rest.len() as int) {
            Some(i) => if all_digits(rest.skip(i + 1)) {
                rest.take(i)
            } else {
                rest
            },
            None => rest,
        }
    }
}

fn head_up_to(s: &str, c: char) -> (r: String)
    ensures
        r@ == up_to(s@, c),
{
    let chars = text::chars_of(s);
    let mut i: usize = 0;
    proof {
        assert(s@.skip(0) =~= s@);
        assert(s@.take(0) + up_to(s@.skip(0), c) =~= up_to(s@, c));
    }
    while i < chars.len() && chars[i] != c
        invariant
            chars@ == s@,
            i <= chars@.len(),
            up_to(s@, c) == s@.take(i as int) + up_to(s@.skip(i as int), c),
        decreases chars@.len() - i,
    {
        proof {
            let rest = s@.skip(i as int);
            assert(rest.drop_first() =~= s@.skip(i + 1));
            assert(s@.take(i as int) + (seq![rest[0]] + up_to(s@.skip(i + 1), c)) =~= s@.take(
                i + 1,
            ) + up_to(s@.skip(i + 1), c));
        }
        i = i + 1;
    }
    assert(up_to(s@.skip(i as int), c) =~= Seq::empty());
    assert(s@.subrange(0, i as int) =~= s@.take(i as int) + up_to(s@.skip(i as int), c));
    cut(s, 0, i)
}

fn only_digits(s: &str) -> (r: bool)
    ensures
        r == all_digits(s@),
{
    let chars = text::chars_of(s);
    let mut i: usize = 0;
    while i < chars.len()
        invariant
            chars@ == s@,
            i <= chars@.len(),
            forall|k: int| 0 <= k < i ==> text::is_digit(#[trigger] s@[k]),
        decreases chars@.len() - i,
    {
        let c = chars[i];
        if !('0' <= c && c <= '9') {
            assert(!text::is_digit(s@[i as int]));
            return false;
        }
        i = i + 1;
    }
    true
}

/// The host part of a `Host` or `Origin` header value: strips a scheme and
/// a port, and unwraps a bracketed IPv6 literal.
pub fn host_of(value: &str) -> (r: String)
    ensures
        r@ == host_part(value@),
{
    proof {
        reveal_strlit("://");
        reveal_strlit(":");
    }
    let n = value.unicode_len();
    let rest = match scan::rfind(value, "://") {
        Some(i) => {
            assert(value@.subrange(i + 3, n as int) =~= value@.skip(i + 3));
            cut(value, i + 3, n)
        },
        None => value.to_owned(),
    };
    let rest = rest.as_str();
    let m = rest.unicode_len();
    if m > 0 && rest.get_char(0) == '[' {
        assert(rest@.subrange(1, m as int) =~= rest@.skip(1));
        return head_up_to(cut(rest, 1, m).as_str(), ']');
    }
    match scan::rfind(rest, ":") {
        Some(i) => {
            assert(rest@.subrange(i + 1, m as int) =~= rest@.skip(i + 1));
            assert(rest@.subrange(0, i as int) =~= rest@.take(i as int));
            if only_digits(cut(rest, i + 1, m).as_str()) {
                cut(rest, 0, i)
            } else {
                rest.to_owned()
            }
        },
        None => rest.to_owned(),
    }
}

/// One of the pieces is the host, but for the white space around it.
pub open spec fn any_names(pieces: Seq<Seq<char>>, host: Seq<char>) -> bool {
    exists|i: int| 0 <= i < pieces.len() && scan::trimmed(#[trigger] pieces[i]) == host
}

/// Whether a comma-separated list of hosts names the host.
pub open spec fn listed_extra(extra: Option<Seq<char>>, host: Seq<char>) -> bool {
    match extra {
        Some(list) => any_names(text::split_at_each(list, ','), host),
        None => false,
    }
}

/// A non-global address, or a name the house answers to.
pub open spec fn allowed(
    value: Seq<char>,
    address: Option<Address>,
    extra: Option<Seq<char>>,
) -> bool {
    let host = host_part(value);
    ||| text::listed(ALLOWED_NAMES@, host)
    ||| listed_extra(extra, host)
    ||| address matches Some(ip) && !is_global(ip)
}

fn in_extra(extra: &Option<String>, host: &str) -> (r: bool)
    ensures
        r == listed_extra(text::opt_text(*extra), host@),
{
    let list = match extra {
        Some(list) => list.as_str(),
        None => return false,
    };
    let hosts = text::split(list, ',');
    let ghost want = text::split_at_each(list@, ',');
    let mut i: usize = 0;
    while i < hosts.len()
        invariant
            want == text::split_at_each(list@, ','),
            want == text::views(hosts@),
            text::opt_text(*extra) == Some(list@),
            i <= hosts@.len(),
            forall|k: int| 0 <= k < i ==> scan::trimmed(#[trigger] want[k]) != host@,
        decreases hosts@.len() - i,
    {
        assert(text::views(hosts@)[i as int] == hosts@[i as int]@);
        if str_eq(scan::trim(hosts[i].as_str()).as_str(), host) {
            assert(scan::trimmed(want[i as int]) == host@);
            return true;
        }
        i = i + 1;
    }
    false
}

/// A non-global address, or a name the house answers to. A rebound public
/// domain arrives as its own name and is refused. `address` is what the host
/// part parses to, where it is an address; `extra` holds more allowed names,
/// separated by commas.
pub fn host_allowed(value: &str, address: &Option<Address>, extra: &Option<String>) -> (r: bool)
    ensures
        r == allowed(value@, *address, text::opt_text(*extra)),
{
    let host = host_of(value);
    if is_listed(&ALLOWED_NAMES, host.as_str()) {
        return true;
    }
    if in_extra(extra, host.as_str()) {
        return true;
    }
    match address {
        Some(ip) => !ip_is_global(ip),
        None => false,
    }
}

/// Which of the three gates refuses a request, if one does.
pub open spec fn gate_refusal(
    host: Option<Seq<char>>,
    host_address: Option<Address>,
    origin: Option<Seq<char>>,
    origin_address: Option<Address>,
    write_header: bool,
    extra: Option<Seq<char>>,
) -> Option<Seq<char>> {
    if !(host matches Some(h) && allowed(h, host_address, extra)) {
        Some("Host not allowed\n"@)
    } else if origin matches Some(o) && !allowed(o, origin_address, extra) {
        Some("Origin not allowed\n"@)
    } else if !write_header {
        Some("missing X-Homeostat header\n"@)
    } else {
        None
    }
}

/// The three gates, or None when the request may proceed. An `Origin` at
/// all means a browser sent this; it is allowed only from the house's own
/// addresses, and `X-Homeostat` is required either way.
pub fn gate(
    host: &Option<String>,
    host_address: &Option<Address>,
    origin: &Option<String>,
    origin_address: &Option<Address>,
    write_header: bool,
    extra: &Option<String>,
) -> (r: Option<String>)
    ensures
        text::opt_text(r) == gate_refusal(
            text::opt_text(*host),
            *host_address,
            text::opt_text(*origin),
            *origin_address,
            write_header,
            text::opt_text(*extra),
        ),
{
    let host_ok = match host {
        Some(h) => host_allowed(h.as_str(), host_address, extra),
        None => false,
    };
    if !host_ok {
        return Some("Host not allowed\n".to_owned());
    }
    let origin_ok = match origin {
        Some(o) => host_allowed(o.as_str(), origin_address, extra),
        None => true,
    };
    if !origin_ok {
        return Some("Origin not allowed\n".to_owned());
    }
    if !write_header {
        return Some("missing X-Homeostat header\n".to_owned());
    }
    None
}

/// What a line that was read is.
#[derive(Debug)]
pub enum Line {
    /// The peer hung up.
    Eof,
    /// The line is over the bound, or was cut off.
    TooLong,
    Content(String),
}

/// One header or request line as it was read, at most one byte more than the
/// bound: a line that long with no newline is refused rather than grown.
pub fn line_read(line: String) -> (r: Line)
    ensures
        match r {
            Line::Eof => line@.len() == 0,
            Line::TooLong => line@.len() > 0 && (vstd::utf8::encode_utf8(line@).len()
                > MAX_HEADER_LINE || line@.last() != '\n'),
            Line::Content(s) => s@ == line@ && line@.len() > 0 && vstd::utf8::encode_utf8(
                line@,
            ).len() <= MAX_HEADER_LINE && line@.last() == '\n',
        },
{
    let n = line.as_str().unicode_len();
    if n == 0 {
        return Line::Eof;
    }
    let bytes = line.as_str().as_bytes().len();
    if bytes as u64 > MAX_HEADER_LINE || line.as_str().get_char(n - 1) != '\n' {
        return Line::TooLong;
    }
    Line::Content(line)
}

/// What is known of a request from its head.
#[derive(Debug)]
pub struct Request {
    pub method: String,
    /// The declared length of the body; None where it is no number or over
    /// the cap.
    pub length: Option<u64>,
    pub close: bool,
    pub host: Option<String>,
    pub origin: Option<String>,
    pub write_header: bool,
    /// How many header lines were read.
    pub count: usize,
}

#[verifier::ext_equal]
pub struct RequestView {
    pub method: Seq<char>,
    pub length: Option<u64>,
    pub close: bool,
    pub host: Option<Seq<char>>,
    pub origin: Option<Seq<char>>,
    pub write_header: bool,
    pub count: int,
}

impl View for Request {
    type V = RequestView;

    open spec fn view(&self) -> RequestView {
        RequestView {
            method: self.method@,
            length: self.length,
            close: self.close,
            host: text::opt_text(self.host),
            origin: text::opt_text(self.origin),
            write_header: self.write_header,
            count: self.count as int,
        }
    }
}

/// A body's declared length, where it is a number within the cap.
pub open spec fn declared_length(value: Seq<char>) -> Option<u64> {
    match text::number(value) {
        Some(n) => if 0 <= n <= MAX_BODY {
            Some(n as u64)
        } else {
            None
        },
        None => None,
    }
}

/// What a header makes of a request. Names are compared without their case.
pub open spec fn with_header(r: RequestView, name: Seq<char>, value: Seq<char>) -> RequestView {
    if scan::same_word(name, "content-length"@) {
        RequestView { length: declared_length(value), ..r }
    } else if scan::same_word(name, "connection"@) && scan::same_word(value, "close"@) {
        RequestView { close: true, ..r }
    } else if scan::same_word(name, "host"@) {
        RequestView { host: Some(value), ..r }
    } else if scan::same_word(name, "origin"@) {
        RequestView { origin: Some(value), ..r }
    } else if scan::same_word(name, WRITE_HEADER@) {
        RequestView { write_header: true, ..r }
    } else {
        r
    }
}

/// What a header line makes of a request; a line without a colon says
/// nothing.
pub open spec fn with_line(r: RequestView, line: Seq<char>) -> RequestView {
    let counted = RequestView { count: r.count + 1, ..r };
    let content = scan::trimmed_end(line);
    match scan::found_from(content, ":"@, 0) {
        Some(i) => with_header(counted, content.take(i), scan::trimmed(content.skip(i + 1))),
        None => counted,
    }
}

/// How the reading of a request's head goes on.
#[derive(Debug, Clone, Copy, PartialEq, Eq, Structural)]
pub enum Head {
    More,
    /// The head is complete.
    End,
    TooMany,
}

impl Request {
    /// A request, from its request line.
    pub fn new(line: &str) -> (r: Request)
        ensures
            r@ == fresh(line@),
    {
        let words = split_words(line);
        assert(words@.len() == text::words(line@).len());
        let method = if words.len() > 0 {
            assert(text::views(words@)[0] == words@[0]@);
            words[0].clone()
        } else {
            "".to_owned()
        };
        Request {
            method,
            length: Some(0),
            close: false,
            host: None,
            origin: None,
            write_header: false,
            count: 0,
        }
    }

    /// Takes a line of the head.
    pub fn header(&mut self, line: &str) -> (r: Head)
        requires
            old(self).count <= MAX_HEADERS,
        ensures
            scan::trimmed_end(line@).len() == 0 ==> r == Head::End && *final(self) == *old(self),
            scan::trimmed_end(line@).len() > 0 && old(self).count >= MAX_HEADERS ==> r
                == Head::TooMany,
            scan::trimmed_end(line@).len() > 0 && old(self).count < MAX_HEADERS ==> r == Head::More
                && final(self)@ == with_line(old(self)@, line@),
    {
        let content = scan::trim_end(line);
        let n = content.as_str().unicode_len();
        if n == 0 {
            return Head::End;
        }
        if self.count >= MAX_HEADERS {
            return Head::TooMany;
        }
        self.count = self.count + 1;
        proof {
            reveal_strlit(":");
        }
        let i = match scan::find(content.as_str(), ":") {
            Some(i) => i,
            None => {
                assert(self@ =~= with_line(old(self)@, line@));
                return Head::More;
            },
        };
        let name = cut(content.as_str(), 0, i);
        assert(content@.subrange(0, i as int) =~= content@.take(i as int));
        assert(content@.subrange(i + 1, n as int) =~= content@.skip(i + 1));
        let value = scan::trim(cut(content.as_str(), i + 1, n).as_str());
        if eq_ignore_case(name.as_str(), "content-length") {
            self.length = text::parse_number(value.as_str(), MAX_BODY);
            assert(self.length == declared_length(value@));
        } else if eq_ignore_case(name.as_str(), "connection") && eq_ignore_case(
            value.as_str(),
            "close",
        ) {
            self.close = true;
        } else if eq_ignore_case(name.as_str(), "host") {
            self.host = Some(value);
        } else if eq_ignore_case(name.as_str(), "origin") {
            self.origin = Some(value);
        } else if eq_ignore_case(name.as_str(), WRITE_HEADER) {
            self.write_header = true;
        }
        assert(self@ =~= with_line(old(self)@, line@));
        Head::More
    }
}

/// A response: its status, one header besides the length where there is one,
/// and its body.
#[derive(Debug)]
pub struct Response {
    pub status: &'static str,
    pub header: Option<(&'static str, &'static str)>,
    pub body: String,
}

pub struct ResponseView {
    pub status: Seq<char>,
    pub header: Option<(Seq<char>, Seq<char>)>,
    pub body: Seq<char>,
}

impl View for Response {
    type V = ResponseView;

    open spec fn view(&self) -> ResponseView {
        ResponseView {
            status: self.status@,
            header: match self.header {
                Some((n, v)) => Some((n@, v@)),
                None => None,
            },
            body: self.body@,
        }
    }
}

/// A response without a header of its own.
pub open spec fn plain(status: Seq<char>, body: Seq<char>) -> ResponseView {
    ResponseView { status, header: None, body }
}

/// A response with a JSON body.
pub open spec fn json_response(status: Seq<char>, body: JsonView) -> ResponseView {
    ResponseView {
        status,
        header: Some(("Content-Type"@, "application/json"@)),
        body: json::json_text(body),
    }
}

/// The head of a response as it goes on the wire.
pub open spec fn head_text(r: ResponseView) -> Seq<char> {
    "HTTP/1.1 "@ + r.status + "\r\n"@ + match r.header {
        Some((n, v)) => n + ": "@ + v + "\r\n"@,
        None => Seq::empty(),
    } + "Content-Length: "@ + text::decimal(vstd::utf8::encode_utf8(r.body).len()) + "\r\n\r\n"@
}

impl Response {
    /// The head as it goes on the wire, before the body.
    pub fn head(&self) -> (r: String)
        ensures
            r@ == head_text(self@),
    {
        let mut out = cat3("HTTP/1.1 ", self.status, "\r\n");
        let ghost first = out@;
        match self.header {
            Some((n, v)) => {
                let line = cat4(n, ": ", v, "\r\n");
                out.append(line.as_str());
            },
            None => {
                assert(first + Seq::<char>::empty() =~= first);
            },
        }
        out.append("Content-Length: ");
        let len = self.body.as_str().as_bytes().len();
        out.append(text::decimal_of(len as u64).as_str());
        out.append("\r\n\r\n");
        out
    }
}

/// The refusal of a connection over the bound.
pub fn too_many_connections() -> (r: Response)
    ensures
        r@ == plain("503 Service Unavailable"@, "too many connections\n"@),
{
    Response {
        status: "503 Service Unavailable",
        header: None,
        body: "too many connections\n".to_owned(),
    }
}

/// The refusal of a head over the bounds.
pub fn header_too_large() -> (r: Response)
    ensures
        r@ == plain("431 Request Header Fields Too Large"@, ""@),
{
    Response {
        status: "431 Request Header Fields Too Large",
        header: None,
        body: "".to_owned(),
    }
}

/// What becomes of a request once its head was read.
#[derive(Debug)]
pub enum Verdict {
    /// It is refused and the connection closed, its body unread.
    Refuse(Response),
    /// Its body of this length is read.
    Read(u64),
}

/// What becomes of a request once its head was read: refused before the body
/// is read, let alone parsed, so that a rejected request cannot reach a tool.
pub open spec fn refusal(
    request: RequestView,
    host_address: Option<Address>,
    origin_address: Option<Address>,
    extra: Option<Seq<char>>,
) -> Option<ResponseView> {
    match gate_refusal(
        request.host,
        host_address,
        request.origin,
        origin_address,
        request.write_header,
        extra,
    ) {
        Some(reason) => Some(plain("403 Forbidden"@, reason)),
        None => if request.method != "POST"@ {
            Some(
                ResponseView {
                    status: "405 Method Not Allowed"@,
                    header: Some(("Allow"@, "POST"@)),
                    body: ""@,
                },
            )
        } else if request.length is None {
            Some(plain("413 Payload Too Large"@, ""@))
        } else {
            None
        },
    }
}

/// Decides on a request. The addresses are what the host parts of its `Host`
/// and `Origin` parse to, where they are addresses.
pub fn decide(
    request: &Request,
    host_address: &Option<Address>,
    origin_address: &Option<Address>,
    extra: &Option<String>,
) -> (r: Verdict)
    ensures
        match refusal(request@, *host_address, *origin_address, text::opt_text(*extra)) {
            Some(response) => r matches Verdict::Refuse(x) && x@ == response,
            None => r matches Verdict::Read(n) && request.length == Some(n),
        },
{
    if let Some(reason) = gate(
        &request.host,
        host_address,
        &request.origin,
        origin_address,
        request.write_header,
        extra,
    ) {
        return Verdict::Refuse(Response { status: "403 Forbidden", header: None, body: reason });
    }
    if !str_eq(request.method.as_str(), "POST") {
        return Verdict::Refuse(
            Response {
                status: "405 Method Not Allowed",
                header: Some(("Allow", "POST")),
                body: "".to_owned(),
            },
        );
    }
    match request.length {
        Some(n) => Verdict::Read(n),
        None => Verdict::Refuse(
            Response {
                status: "413 Payload Too Large",
                header: None,
                body: "".to_owned(),
            },
        ),
    }
}

/// What a body is answered with.
#[derive(Debug)]
pub enum Answer {
    Respond(Response),
    /// A tool is to be called; its outcome goes into `tool_response`.
    Call { id: Json, name: String, args: Json },
}

/// The answer to what a message asks for.
pub open spec fn answer_of(h: HandledView) -> Option<ResponseView> {
    match h {
        HandledView::Silent => Some(plain("202 Accepted"@, ""@)),
        HandledView::Reply(j) => Some(json_response("200 OK"@, j)),
        HandledView::Call { .. } => None,
    }
}

fn json_body(status: &'static str, body: &Json) -> (r: Response)
    ensures
        r@ == json_response(status@, body@),
{
    Response {
        status,
        header: Some(("Content-Type", "application/json")),
        body: body.to_string(),
    }
}

/// Answers a body: one JSON-RPC message.
pub fn answer(body: &[u8]) -> (r: Answer)
    ensures
        match json::json_document(body@) {
            Err(e) => r matches Answer::Respond(x) && x@ == json_response(
                "400 Bad Request"@,
                protocol::unread(-32700, "parse error: "@ + e),
            ),
            Ok(message) => match (answer_of(protocol::handled(message)), r) {
                (Some(response), Answer::Respond(x)) => x@ == response,
                (None, Answer::Call { id, name, args }) => protocol::handled(message) == (
                HandledView::Call { id: id@, name: name@, args: args@ }),
                _ => false,
            },
        },
{
    let message = match Json::parse(body) {
        Ok(message) => message,
        Err(e) => {
            return Answer::Respond(
                json_body("400 Bad Request", &protocol::parse_error(e.as_str())),
            );
        },
    };
    match protocol::handle(&message) {
        Handled::Silent => Answer::Respond(
            Response { status: "202 Accepted", header: None, body: "".to_owned() },
        ),
        Handled::Reply(j) => Answer::Respond(json_body("200 OK", &j)),
        Handled::Call { id, name, args } => Answer::Call { id, name, args },
    }
}

/// The response that carries a tool's outcome.
pub fn tool_response(id: Json, outcome: Result<String, String>) -> (r: Response)
    ensures
        r@ == json_response(
            "200 OK"@,
            protocol::reply_of(
                id@,
                "result"@,
                match outcome {
                    Ok(text) => protocol::tool_result(text@, false),
                    Err(text) => protocol::tool_result(text@, true),
                },
            ),
        ),
{
    json_body("200 OK", &protocol::tool_reply(id, outcome))
}

/// Where a connection stands.
#[derive(Debug)]
pub enum Stage {
    /// A request line is awaited.
    Line,
    /// The head of a request is being read.
    Head(Request),
    /// The head is complete; the request is to be judged.
    Judging(Request),
    /// The body is awaited.
    Body { close: bool, length: u64 },
    /// A tool's outcome is awaited.
    Calling { close: bool, id: Json },
    Closed,
}

pub enum StageView {
    Line,
    Head(RequestView),
    Judging(RequestView),
    Body { close: bool, length: u64 },
    Calling { close: bool, id: JsonView },
    Closed,
}

impl View for Stage {
    type V = StageView;

    open spec fn view(&self) -> StageView {
        match self {
            Stage::Line => StageView::Line,
            Stage::Head(r) => StageView::Head(r@),
            Stage::Judging(r) => StageView::Judging(r@),
            Stage::Body { close, length } => StageView::Body { close: *close, length: *length },
            Stage::Calling { close, id } => StageView::Calling { close: *close, id: id@ },
            Stage::Closed => StageView::Closed,
        }
    }
}

/// What a connection does next.
#[derive(Debug)]
pub enum Action {
    /// Read a line and hand it to `on_line`.
    ReadLine,
    /// Parse the addresses and hand them to `judge`.
    Judge,
    /// Read this many bytes and hand them to `on_body`.
    ReadBody(u64),
    /// Call the tool and hand its outcome to `on_outcome`.
    Call { name: String, args: Json },
    /// Send the response; where the connection then stands at a request
    /// line, read on.
    Send(Response),
    Close,
}

pub enum ActionView {
    ReadLine,
    Judge,
    ReadBody(u64),
    Call { name: Seq<char>, args: JsonView },
    Send(ResponseView),
    Close,
}

impl View for Action {
    type V = ActionView;

    open spec fn view(&self) -> ActionView {
        match self {
            Action::ReadLine => ActionView::ReadLine,
            Action::Judge => ActionView::Judge,
            Action::ReadBody(n) => ActionView::ReadBody(*n),
            Action::Call { name, args } => ActionView::Call { name: name@, args: args@ },
            Action::Send(r) => ActionView::Send(r@),
            Action::Close => ActionView::Close,
        }
    }
}

/// A request that nothing but its request line is known of.
pub open spec fn fresh(line: Seq<char>) -> RequestView {
    RequestView {
        method: if text::words(line).len() > 0 {
            text::words(line)[0]
        } else {
            ""@
        },
        length: Some(0),
        close: false,
        host: None,
        origin: None,
        write_header: false,
        count: 0,
    }
}

/// The connection is closed after this response.
pub open spec fn last_word(response: ResponseView) -> (StageView, ActionView) {
    (StageView::Closed, ActionView::Send(response))
}

/// The refusal of a head over the bounds.
pub open spec fn too_large() -> ResponseView {
    plain("431 Request Header Fields Too Large"@, ""@)
}

/// What a line makes of a connection: the peer hung up, the line is over the
/// bounds, or it belongs to the head of a request.
pub open spec fn after_line(stage: StageView, line: Seq<char>) -> (StageView, ActionView) {
    if line.len() == 0 {
        (StageView::Closed, ActionView::Close)
    } else if vstd::utf8::encode_utf8(line).len() > MAX_HEADER_LINE || line.last() != '\n' {
        last_word(too_large())
    } else {
        match stage {
            StageView::Line => (StageView::Head(fresh(line)), ActionView::ReadLine),
            StageView::Head(r) => if scan::trimmed_end(line).len() == 0 {
                (StageView::Judging(r), ActionView::Judge)
            } else if r.count >= MAX_HEADERS {
                last_word(too_large())
            } else {
                (StageView::Head(with_line(r, line)), ActionView::ReadLine)
            },
            other => (other, ActionView::Close),
        }
    }
}

/// Where a connection stands after a response: at the next request line, or
/// closed where the peer asked for that.
pub open spec fn then_stands(close: bool) -> StageView {
    if close {
        StageView::Closed
    } else {
        StageView::Line
    }
}

/// What a body makes of a connection.
pub open spec fn after_body(close: bool, body: Seq<u8>) -> (StageView, ActionView) {
    match json::json_document(body) {
        Err(e) => (
            then_stands(close),
            ActionView::Send(
                json_response(
                    "400 Bad Request"@,
                    protocol::unread(-32700, "parse error: "@ + e),
                ),
            ),
        ),
        Ok(message) => match protocol::handled(message) {
            HandledView::Silent => (
                then_stands(close),
                ActionView::Send(plain("202 Accepted"@, ""@)),
            ),
            HandledView::Reply(j) => (
                then_stands(close),
                ActionView::Send(json_response("200 OK"@, j)),
            ),
            HandledView::Call { id, name, args } => (
                StageView::Calling { close, id },
                ActionView::Call { name, args },
            ),
        },
    }
}

/// Serves requests on one connection until the peer hangs up or asks to
/// close (keep-alive is HTTP/1.1's default and real MCP clients use it).
/// Every refusal closes the connection without reading the body: the
/// declared length is never trusted before the gates passed, and never
/// beyond the cap after it.
#[derive(Debug)]
pub struct Connection {
    pub stage: Stage,
}

impl Connection {
    pub fn new() -> (r: Connection)
        ensures
            r.stage@ == StageView::Line,
    {
        Connection { stage: Stage::Line }
    }

    /// Takes a line as it was read; empty at the end of the stream.
    pub fn on_line(&mut self, line: String) -> (r: Action)
        requires
            old(self).stage@ is Line || old(self).stage@ is Head,
            old(self).stage@ matches StageView::Head(q) ==> q.count <= MAX_HEADERS,
        ensures
            (final(self).stage@, r@) == after_line(old(self).stage@, line@),
            final(self).stage@ matches StageView::Head(q) ==> q.count <= MAX_HEADERS,
    {
        let mut stage = Stage::Closed;
        std::mem::swap(&mut stage, &mut self.stage);
        let content = match line_read(line) {
            Line::Eof => return Action::Close,
            Line::TooLong => return Action::Send(header_too_large()),
            Line::Content(content) => content,
        };
        match stage {
            Stage::Line => {
                self.stage = Stage::Head(Request::new(content.as_str()));
                Action::ReadLine
            },
            Stage::Head(request) => {
                let mut request = request;
                match request.header(content.as_str()) {
                    Head::More => {
                        self.stage = Stage::Head(request);
                        Action::ReadLine
                    },
                    Head::End => {
                        self.stage = Stage::Judging(request);
                        Action::Judge
                    },
                    Head::TooMany => Action::Send(header_too_large()),
                }
            },
            other => {
                self.stage = other;
                Action::Close
            },
        }
    }

    /// Judges the request whose head is complete, given what the host parts
    /// of its `Host` and `Origin` parse to.
    pub fn judge(
        &mut self,
        host_address: &Option<Address>,
        origin_address: &Option<Address>,
        extra: &Option<String>,
    ) -> (r: Action)
        requires
            old(self).stage@ is Judging,
        ensures
            ({
                let q = old(self).stage@->Judging_0;
                match refusal(q, *host_address, *origin_address, text::opt_text(*extra)) {
                    Some(response) => (final(self).stage@, r@) == last_word(response),
                    None => q.length matches Some(n) && final(self).stage@ == (StageView::Body {
                        close: q.close,
                        length: n,
                    }) && r@ == ActionView::ReadBody(n),
                }
            }),
    {
        let mut stage = Stage::Closed;
        std::mem::swap(&mut stage, &mut self.stage);
        match stage {
            Stage::Judging(request) => match decide(
                &request,
                host_address,
                origin_address,
                extra,
            ) {
                Verdict::Refuse(response) => Action::Send(response),
                Verdict::Read(length) => {
                    self.stage = Stage::Body { close: request.close, length };
                    Action::ReadBody(length)
                },
            },
            _ => Action::Close,
        }
    }

    /// Takes the body of a request.
    pub fn on_body(&mut self, body: &[u8]) -> (r: Action)
        requires
            old(self).stage@ is Body,
        ensures
            (final(self).stage@, r@) == after_body(old(self).stage@->Body_close, body@),
    {
        let close = match &self.stage {
            Stage::Body { close, .. } => *close,
            _ => true,
        };
        match answer(body) {
            Answer::Respond(response) => {
                self.stage = if close {
                    Stage::Closed
                } else {
                    Stage::Line
                };
                Action::Send(response)
            },
            Answer::Call { id, name, args } => {
                self.stage = Stage::Calling { close, id };
                Action::Call { name, args }
            },
        }
    }

    /// Takes the outcome of the tool that was called.
    pub fn on_outcome(&mut self, outcome: Result<String, String>) -> (r: Action)
        requires
            old(self).stage@ is Calling,
        ensures
            final(self).stage@ == then_stands(old(self).stage@->Calling_close),
            r@ == ActionView::Send(
                json_response(
                    "200 OK"@,
                    protocol::reply_of(
                        old(self).stage@->Calling_id,
                        "result"@,
                        match outcome {
                            Ok(text) => protocol::tool_result(text@, false),
                            Err(text) => protocol::tool_result(text@, true),
                        },
                    ),
                ),
            ),
    {
        let mut stage = Stage::Closed;
        std::mem::swap(&mut stage, &mut self.stage);
        match stage {
            Stage::Calling { close, id } => {
                if !close {
                    self.stage = Stage::Line;
                }
                Action::Send(tool_response(id, outcome))
            },
            _ => Action::Close,
        }
    }
}

/// A request whose body is read passed all three gates, is a POST, and
/// declares a body within the cap.
pub proof fn law_only_gated_requests_are_read(
    request: RequestView,
    host_address: Option<Address>,
    origin_address: Option<Address>,
    extra: Option<Seq<char>>,
)
    requires
        refusal(request, host_address, origin_address, extra) is None,
    ensures
        request.host is Some && allowed(request.host->Some_0, host_address, extra),
        request.origin is Some ==> allowed(request.origin->Some_0, origin_address, extra),
        request.write_header,
        request.method == "POST"@,
        request.length is Some,
{
}

/// A peer that is neither named by the house nor on its network is refused,
/// whatever else it sends: a public domain that was rebound to a local
/// address arrives as its own name.
pub proof fn law_public_names_are_refused(
    request: RequestView,
    host_address: Option<Address>,
    origin_address: Option<Address>,
    extra: Option<Seq<char>>,
)
    requires
        request.host matches Some(value) ==> !text::listed(ALLOWED_NAMES@, host_part(value))
            && !listed_extra(extra, host_part(value)),
        host_address matches Some(ip) ==> is_global(ip),
    ensures
        refusal(request, host_address, origin_address, extra) == Some(
            plain("403 Forbidden"@, "Host not allowed\n"@),
        ),
{
}

/// No header line declares a body over the cap.
pub proof fn law_bodies_keep_to_the_cap(r: RequestView, line: Seq<char>)
    requires
        r.length matches Some(n) ==> n <= MAX_BODY,
    ensures
        with_line(r, line).length matches Some(n) ==> n <= MAX_BODY,
{
}

/// A line never leads to a body being read: a body comes after a judgement,
/// and a connection that was refused is closed.
pub proof fn law_refusals_close(stage: StageView, line: Seq<char>)
    ensures
        !(after_line(stage, line).1 is ReadBody),
        !(after_line(stage, line).1 is Call),
        (after_line(stage, line).1 is Send) ==> (after_line(stage, line).0 is Closed),
{
}

/// A connection lives on after an answer exactly where the peer did not ask
/// to close it.
pub proof fn law_keep_alive(close: bool, body: Seq<u8>)
    ensures
        after_body(close, body).1 is Send ==> (after_body(close, body).0 is Closed <==> close),
        after_body(close, body).0 matches StageView::Calling { close: same, .. } ==> same == close,
{
}

} // verus!

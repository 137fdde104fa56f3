use homeostat::mcp::http::{
    answer, decide, gate, header_too_large, host_allowed, host_of, ip_is_global, line_read,
    tool_response, too_many_connections, Action, Address, Answer, Connection, Head, Line, Request,
    Response, Stage, Verdict, MAX_BODY, MAX_HEADERS,
};

const LAN: Option<Address> = Some(Address::V4([192, 168, 1, 9]));
const PUBLIC: Option<Address> = Some(Address::V4([93, 184, 216, 34]));

fn some(s: &str) -> Option<String> {
    Some(s.to_string())
}

#[test]
fn hosts_are_taken_out_of_header_values() {
    for (value, host) in [
        ("localhost:8642", "localhost"),
        ("http://homeostat.lan", "homeostat.lan"),
        ("https://a.b:443", "a.b"),
        ("[::1]:8642", "::1"),
        ("[::1", "::1"),
        ("::1", ":"),
        ("fe80::abcd", "fe80::abcd"),
        ("host:", "host"),
        ("host:80a", "host:80a"),
        ("a://b://c:1", "c"),
    ] {
        assert_eq!(host_of(value), host, "{value}");
    }
}

#[test]
fn addresses_of_the_house_are_not_global() {
    for local in [
        Address::V4([10, 1, 2, 3]),
        Address::V4([172, 16, 0, 1]),
        Address::V4([172, 31, 255, 1]),
        Address::V4([192, 168, 0, 1]),
        Address::V4([127, 0, 0, 1]),
        Address::V4([169, 254, 9, 9]),
        Address::V4([0, 0, 0, 0]),
        Address::V6([0, 0, 0, 0, 0, 0, 0, 1]),
        Address::V6([0, 0, 0, 0, 0, 0, 0, 0]),
        Address::V6([0xfd12, 0, 0, 0, 0, 0, 0, 1]),
        Address::V6([0xfe80, 0, 0, 0, 0, 0, 0, 1]),
    ] {
        assert!(!ip_is_global(&local), "{local:?}");
    }
    for public in [
        Address::V4([8, 8, 8, 8]),
        Address::V4([172, 32, 0, 1]),
        Address::V4([0, 0, 0, 1]),
        Address::V6([0x2001, 0xdb8, 0, 0, 0, 0, 0, 1]),
        Address::V6([0, 0, 0, 0, 0, 0, 0, 2]),
        Address::V6([0xfec0, 0, 0, 0, 0, 0, 0, 1]),
    ] {
        assert!(ip_is_global(&public), "{public:?}");
    }
}

#[test]
fn a_host_is_known_or_local() {
    assert!(host_allowed("homeostat.local:8642", &None, &None));
    assert!(host_allowed("192.168.1.9:8642", &LAN, &None));
    assert!(!host_allowed("93.184.216.34", &PUBLIC, &None));
    assert!(!host_allowed("evil.example", &None, &None));
    assert!(host_allowed("box.example", &None, &some("a, box.example ,b")));
    assert!(!host_allowed("box.example", &None, &some("box.example.org")));
}

#[test]
fn the_three_gates() {
    let local = some("localhost");
    assert_eq!(gate(&local, &None, &None, &None, true, &None), None);
    assert_eq!(gate(&None, &None, &None, &None, true, &None), some("Host not allowed\n"));
    assert_eq!(
        gate(&some("evil.example"), &None, &None, &None, true, &None),
        some("Host not allowed\n")
    );
    assert_eq!(
        gate(&local, &None, &some("https://evil.example"), &None, true, &None),
        some("Origin not allowed\n")
    );
    assert_eq!(gate(&local, &None, &some("http://localhost"), &None, true, &None), None);
    assert_eq!(
        gate(&local, &None, &None, &None, false, &None),
        some("missing X-Homeostat header\n")
    );
}

fn request(line: &str, headers: &[&str]) -> Request {
    let mut r = Request::new(line);
    for h in headers {
        assert_eq!(r.header(h), Head::More);
    }
    r
}

fn refused(v: Verdict) -> Response {
    match v {
        Verdict::Refuse(r) => r,
        other => panic!("{other:?}"),
    }
}

#[test]
fn a_head_is_read_line_by_line() {
    let mut r = request(
        "POST /mcp HTTP/1.1\r\n",
        &[
            "HOST: localhost:8642\r\n",
            "Content-Length:  12 \r\n",
            "X-Homeostat: 1\r\n",
            "origin: http://homeostat\r\n",
            "Connection: Close\r\n",
            "nonsense\r\n",
        ],
    );
    assert_eq!(r.method, "POST");
    assert_eq!(r.host, some("localhost:8642"));
    assert_eq!(r.length, Some(12));
    assert!(r.write_header);
    assert_eq!(r.origin, some("http://homeostat"));
    assert!(r.close);
    assert_eq!(r.count, 6);
    assert_eq!(r.header("\r\n"), Head::End);
    assert!(matches!(decide(&r, &None, &None, &None), Verdict::Read(12)));

    let mut many = Request::new("POST / HTTP/1.1\r\n");
    for _ in 0..MAX_HEADERS {
        assert_eq!(many.header("a: b\r\n"), Head::More);
    }
    assert_eq!(many.header("a: b\r\n"), Head::TooMany);
    assert_eq!(Request::new(" \r\n").method, "");
}

#[test]
fn a_request_is_refused_before_its_body() {
    let bare = request("POST / HTTP/1.1\r\n", &[]);
    assert_eq!(refused(decide(&bare, &None, &None, &None)).status, "403 Forbidden");
    let get = request("GET / HTTP/1.1\r\n", &["host: localhost\r\n", "x-homeostat: y\r\n"]);
    let r = refused(decide(&get, &None, &None, &None));
    assert_eq!(r.status, "405 Method Not Allowed");
    assert_eq!(r.header, Some(("Allow", "POST")));
    for length in ["1048577", "x", "-1", "99999999999999999999"] {
        let line = format!("content-length: {length}\r\n");
        let big = request(
            "POST / HTTP/1.1\r\n",
            &["host: localhost\r\n", "x-homeostat: y\r\n", &line],
        );
        assert_eq!(refused(decide(&big, &None, &None, &None)).status, "413 Payload Too Large");
    }
    let cap = format!("content-length: {MAX_BODY}\r\n");
    let full = request(
        "POST / HTTP/1.1\r\n",
        &["host: 192.168.1.9\r\n", "x-homeostat: y\r\n", &cap],
    );
    assert!(matches!(decide(&full, &LAN, &None, &None), Verdict::Read(MAX_BODY)));
    assert_eq!(refused(decide(&full, &PUBLIC, &None, &None)).status, "403 Forbidden");
}

#[test]
fn lines_are_bounded() {
    assert!(matches!(line_read(String::new()), Line::Eof));
    assert!(matches!(line_read("cut off".to_string()), Line::TooLong));
    let long = format!("{}\n", "a".repeat(8192));
    assert!(matches!(line_read(long), Line::TooLong));
    match line_read(format!("{}\n", "a".repeat(8191))) {
        Line::Content(s) => assert_eq!(s.len(), 8192),
        other => panic!("{other:?}"),
    }
}

fn response(body: &[u8]) -> Response {
    match answer(body) {
        Answer::Respond(r) => r,
        other => panic!("{other:?}"),
    }
}

#[test]
fn bodies_are_answered() {
    let ok = response(b"{\"id\":1,\"method\":\"ping\"}");
    assert_eq!(ok.status, "200 OK");
    assert_eq!(ok.body, "{\"id\":1,\"jsonrpc\":\"2.0\",\"result\":{}}");
    assert_eq!(
        ok.head(),
        "HTTP/1.1 200 OK\r\nContent-Type: application/json\r\nContent-Length: 36\r\n\r\n"
    );
    let note = response(b"{\"method\":\"notifications/initialized\"}");
    assert_eq!(note.status, "202 Accepted");
    assert_eq!(note.head(), "HTTP/1.1 202 Accepted\r\nContent-Length: 0\r\n\r\n");
    let bad = response(b"nope");
    assert_eq!(bad.status, "400 Bad Request");
    assert!(bad.body.contains("-32700"));
    match answer(b"{\"id\":5,\"method\":\"tools/call\",\"params\":{\"name\":\"schema\"}}") {
        Answer::Call { id, name, args } => {
            assert_eq!(name, "schema");
            assert_eq!(args.to_string(), "{}");
            let r = tool_response(id, Ok("å".to_string()));
            assert!(r.body.contains("\"text\":\"å\""));
        }
        other => panic!("{other:?}"),
    }
}

#[test]
fn refusals_of_the_transport() {
    assert_eq!(
        too_many_connections().head(),
        "HTTP/1.1 503 Service Unavailable\r\nContent-Length: 21\r\n\r\n"
    );
    assert_eq!(too_many_connections().body, "too many connections\n");
    assert_eq!(header_too_large().status, "431 Request Header Fields Too Large");
}

fn head(connection: &mut Connection, lines: &[&str]) -> Action {
    let mut action = Action::ReadLine;
    for line in lines {
        assert!(matches!(action, Action::ReadLine));
        action = connection.on_line(format!("{line}\r\n"));
    }
    action
}

fn sent(action: Action) -> Response {
    match action {
        Action::Send(response) => response,
        other => panic!("{other:?}"),
    }
}

#[test]
fn a_connection_serves_requests_until_told_to_close() {
    let mut c = Connection::new();
    let action = head(
        &mut c,
        &["POST / HTTP/1.1", "Host: localhost", "X-Homeostat: 1", "Content-Length: 40", ""],
    );
    assert!(matches!(action, Action::Judge));
    assert!(matches!(c.judge(&None, &None, &None), Action::ReadBody(40)));
    let pong = sent(c.on_body(br#"{"jsonrpc":"2.0","id":7,"method":"ping"}"#));
    assert_eq!(pong.status, "200 OK");
    assert_eq!(pong.body, r#"{"id":7,"jsonrpc":"2.0","result":{}}"#);
    assert!(matches!(c.stage, Stage::Line));

    let action = head(
        &mut c,
        &["POST / HTTP/1.1", "Host: localhost", "X-Homeostat: 1", "Connection: close", ""],
    );
    assert!(matches!(action, Action::Judge));
    assert!(matches!(c.judge(&None, &None, &None), Action::ReadBody(0)));
    let call = c.on_body(
        br#"{"id":1,"method":"tools/call","params":{"name":"explain","arguments":{"code":"x"}}}"#,
    );
    match call {
        Action::Call { name, args } => {
            assert_eq!(name, "explain");
            assert_eq!(args.to_string(), r#"{"code":"x"}"#);
        }
        other => panic!("{other:?}"),
    }
    let outcome = sent(c.on_outcome(Err("no".to_string())));
    assert_eq!(
        outcome.body,
        r#"{"id":1,"jsonrpc":"2.0","result":{"content":[{"text":"no","type":"text"}],"isError":true}}"#
    );
    assert!(matches!(c.stage, Stage::Closed));
}

#[test]
fn a_connection_closes_on_a_refusal() {
    let mut c = Connection::new();
    let action = head(&mut c, &["POST / HTTP/1.1", "Host: evil.example", ""]);
    assert!(matches!(action, Action::Judge));
    let refusal = sent(c.judge(&None, &None, &None));
    assert_eq!(refusal.status, "403 Forbidden");
    assert!(matches!(c.stage, Stage::Closed));

    let mut c = Connection::new();
    let mut action = c.on_line("POST / HTTP/1.1\r\n".to_string());
    for _ in 0..MAX_HEADERS {
        assert!(matches!(action, Action::ReadLine));
        action = c.on_line("a: b\r\n".to_string());
    }
    assert!(matches!(action, Action::ReadLine));
    let refusal = sent(c.on_line("a: b\r\n".to_string()));
    assert_eq!(refusal.status, "431 Request Header Fields Too Large");
    assert!(matches!(c.stage, Stage::Closed));

    let mut c = Connection::new();
    assert!(matches!(c.on_line(String::new()), Action::Close));
}

#[test]
fn a_body_that_is_no_json_keeps_the_connection() {
    let mut c = Connection::new();
    let action = head(
        &mut c,
        &["POST / HTTP/1.1", "Host: 192.168.1.9", "X-Homeostat: 1", "Content-Length: 1", ""],
    );
    assert!(matches!(action, Action::Judge));
    assert!(matches!(c.judge(&LAN, &None, &None), Action::ReadBody(1)));
    let bad = sent(c.on_body(b"{"));
    assert_eq!(bad.status, "400 Bad Request");
    assert!(matches!(c.stage, Stage::Line));
    let action = head(
        &mut c,
        &["POST / HTTP/1.1", "Host: 192.168.1.9", "X-Homeostat: 1", ""],
    );
    assert!(matches!(action, Action::Judge));
    assert!(matches!(c.judge(&PUBLIC, &None, &None), Action::Send(_)));
}

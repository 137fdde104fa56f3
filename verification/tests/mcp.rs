use homeostat::bus::LogEntry;
use homeostat::json::Json;
use homeostat::mcp::protocol::{handle, on_line, tool_reply, Handled, MAX_LINE};
use homeostat::mcp::{
    call, events_document, events_selector, explain, history_document, history_selector,
    log_document, log_selector, schema, state_document, state_key, tools, Asked, LogReply, Reading,
    Reply, TOOL_NAMES,
};
use homeostat::schema::Schemas;

fn json(text: &str) -> Json {
    Json::parse(text.as_bytes()).unwrap()
}

fn sample(key: &str, payload: &str) -> Reply {
    Reply::Sample { key: key.to_string(), payload: payload.as_bytes().to_vec() }
}

#[test]
fn state_is_read_under_home_only() {
    assert_eq!(state_key(&json("{\"key\":\"home/state/**\"}")).unwrap(), "home/state/**");
    assert_eq!(state_key(&json("{\"key\":\"home\"}")).unwrap(), "home");
    assert_eq!(
        state_key(&json("{\"key\":\"homestead/x\"}")).unwrap_err(),
        "read_state reads the house bus: the key must be under home/"
    );
    for args in ["{}", "{\"key\":\"\"}", "{\"key\":1}", "[]"] {
        assert_eq!(state_key(&json(args)).unwrap_err(), "missing \"key\" (string)");
    }
}

#[test]
fn history_selectors_carry_their_range() {
    assert_eq!(
        history_selector(&json("{\"series\":\"state/lamp/on\"}")).unwrap(),
        "home/history/state/lamp/on"
    );
    let args = "{\"series\":\"state/lamp/on\",\"limit\":10,\"to\":\"b\",\"from\":\"a\"}";
    assert_eq!(
        history_selector(&json(args)).unwrap(),
        "home/history/state/lamp/on?from=a;to=b;limit=10"
    );
    for series in ["home/history/x", "x?limit=1"] {
        let args = format!("{{\"series\":\"{series}\"}}");
        assert_eq!(
            history_selector(&json(&args)).unwrap_err(),
            "series is relative to home/history/ — {state|cmd}/{entity}/{aspect}, e.g. state/livingroom_lamp/on"
        );
    }
    assert_eq!(
        history_selector(&json("{\"series\":\"x\",\"from\":1,\"limit\":-1}")).unwrap_err(),
        "\"from\" must be an RFC3339 string"
    );
    assert_eq!(
        history_selector(&json("{\"series\":\"x\",\"limit\":-1}")).unwrap_err(),
        "\"limit\" must be a positive integer"
    );
}

#[test]
fn log_and_event_selectors_carry_their_range() {
    assert_eq!(log_selector(&json("{\"unit\":\"clock\"}")).unwrap(), "home/meta/clock/log");
    assert_eq!(
        log_selector(&json("{\"unit\":\"clock\",\"lines\":20}")).unwrap(),
        "home/meta/clock/log?lines=20"
    );
    assert_eq!(
        log_selector(&json("{\"unit\":\"clock\",\"lines\":\"20\"}")).unwrap_err(),
        "\"lines\" must be a positive integer"
    );
    assert_eq!(events_selector(&json("{}")).unwrap(), "home/history/events");
    assert_eq!(
        events_selector(&json("{\"key\":\"home/health/*\",\"from\":-5,\"to\":7,\"limit\":1}"))
            .unwrap(),
        "home/history/events?key=home/health/*;from=-5;to=7;limit=1"
    );
    assert_eq!(
        events_selector(&json("{\"to\":18446744073709551615}")).unwrap_err(),
        "\"to\" must be an integer (microseconds UTC)"
    );
    assert_eq!(events_selector(&json("{\"key\":5}")).unwrap_err(), "\"key\" must be a string");
}

#[test]
fn replies_become_documents() {
    let replies = vec![
        sample("home/state/b", "true"),
        sample("home/state/a", "not json"),
        Reply::Error { payload: b"gone".to_vec() },
    ];
    assert_eq!(
        state_document(&replies),
        "{\n  \"home/state/a\": \"not json\",\n  \"home/state/b\": true\n}"
    );
    assert_eq!(history_document(&replies).unwrap_err(), "gone");
    assert_eq!(events_document(&replies).unwrap_err(), "gone");
    let rows = vec![sample("a", "[{\"ts\":1}]"), sample("b", "no rows")];
    assert_eq!(
        history_document(&rows).unwrap(),
        "{\n  \"a\": [\n    {\n      \"ts\": 1\n    }\n  ],\n  \"b\": null\n}"
    );
    assert_eq!(
        events_document(&vec![sample("a", "[1]"), sample("b", "{}"), sample("c", "[2,3]")]).unwrap(),
        "[\n  1,\n  2,\n  3\n]"
    );
}

#[test]
fn captured_lines_are_rows() {
    let entry = |ts: i64, line: &str| LogEntry {
        ts_us: ts,
        stream: "stderr".to_string(),
        line: line.to_string(),
    };
    let first = || LogReply::Entries(vec![entry(12, "a b"), entry(-3, "")]);
    let more = || LogReply::Entries(vec![entry(13, "c")]);
    assert_eq!(
        log_document(&vec![first(), more()]).unwrap(),
        "12 stderr a b\n-3 stderr \n13 stderr c"
    );
    assert_eq!(log_document(&vec![]).unwrap(), "");
    assert_eq!(
        log_document(&vec![
            first(),
            LogReply::Unread("bad".to_string()),
            LogReply::Error { payload: b"no".to_vec() },
        ])
        .unwrap_err(),
        "log entries do not parse: bad"
    );
    assert_eq!(
        log_document(&vec![LogReply::Error { payload: b"no".to_vec() }, more()]).unwrap_err(),
        "no"
    );
}

#[test]
fn explanations_are_served() {
    let one = explain(&json("{\"code\":\"parse-error\"}")).unwrap();
    assert!(one.starts_with("parse-error: A file under units/"));
    assert_eq!(explain(&json("{\"code\":\"x\"}")).unwrap_err(), "unknown error code \"x\"");
    let all = explain(&json("{}")).unwrap();
    assert!(all.contains(&one));
    assert!(all.contains("\n\n"));
}

#[test]
fn schemas_are_served_by_file_kind() {
    let schemas = Schemas { unit: json("{\"u\":1}"), entity: json("2"), zones: json("3") };
    assert_eq!(schema(&json("{\"file\":\"unit\"}"), &schemas).unwrap(), "{\n  \"u\": 1\n}");
    assert_eq!(schema(&json("{\"file\":\"zones\"}"), &schemas).unwrap(), "3");
    assert_eq!(
        schema(&json("{}"), &schemas).unwrap(),
        "{\n  \"entity\": 2,\n  \"unit\": {\n    \"u\": 1\n  },\n  \"zones\": 3\n}"
    );
    assert_eq!(
        schema(&json("{\"file\":\"x\"}"), &schemas).unwrap_err(),
        "unknown file kind \"x\": expected unit, entity or zones"
    );
}

#[test]
fn the_tool_list_is_complete() {
    let list = tools();
    let items = list.as_array().unwrap();
    let mut names: Vec<&str> = items.iter().map(|t| t.get_str("name").unwrap()).collect();
    names.sort();
    let mut want = TOOL_NAMES.to_vec();
    want.sort();
    assert_eq!(names, want);
    assert_eq!(
        items[0].get("inputSchema").unwrap().to_string(),
        "{\"properties\":{\"key\":{\"description\":\"a home/** key expression\",\"type\":\"string\"}},\"required\":[\"key\"],\"type\":\"object\"}"
    );
    assert_eq!(
        items[4].get("inputSchema").unwrap().to_string(),
        "{\"properties\":{\"file\":{\"description\":\"one file kind; omit for all three\",\"enum\":[\"unit\",\"entity\",\"zones\"],\"type\":\"string\"}},\"type\":\"object\"}"
    );
}

fn reply(message: &str) -> String {
    match handle(&json(message)) {
        Handled::Reply(j) => j.to_string(),
        other => panic!("{other:?}"),
    }
}

#[test]
fn messages_are_answered() {
    assert_eq!(
        reply("{\"id\":1,\"method\":\"ping\"}"),
        "{\"id\":1,\"jsonrpc\":\"2.0\",\"result\":{}}"
    );
    assert_eq!(
        reply("{\"id\":\"a\",\"method\":\"initialize\",\"params\":{\"protocolVersion\":\"2024-11-05\"}}"),
        "{\"id\":\"a\",\"jsonrpc\":\"2.0\",\"result\":{\"capabilities\":{\"tools\":{}},\"protocolVersion\":\"2024-11-05\",\"serverInfo\":{\"name\":\"homeostat\",\"version\":\"0.1.0\"}}}"
    );
    assert!(reply("{\"id\":1,\"method\":\"initialize\"}").contains("2025-06-18"));
    assert!(reply("{\"id\":1,\"method\":\"tools/list\"}").contains("read_history"));
    assert_eq!(
        reply("{\"id\":1,\"method\":\"resources/list\"}"),
        "{\"error\":{\"code\":-32601,\"message\":\"method \\\"resources/list\\\" not found\"},\"id\":1,\"jsonrpc\":\"2.0\"}"
    );
    assert_eq!(
        reply("{\"id\":1,\"method\":\"tools/call\",\"params\":{\"name\":\"propose\"}}"),
        "{\"error\":{\"code\":-32602,\"message\":\"unknown tool \\\"propose\\\"\"},\"id\":1,\"jsonrpc\":\"2.0\"}"
    );
    for silent in ["{\"method\":\"ping\"}", "{\"id\":null,\"method\":\"ping\"}", "[]", "3"] {
        assert!(matches!(handle(&json(silent)), Handled::Silent), "{silent}");
    }
}

#[test]
fn tools_are_called_and_answered() {
    let message = "{\"id\":7,\"method\":\"tools/call\",\"params\":{\"name\":\"explain\",\"arguments\":{\"code\":\"x\"}}}";
    match handle(&json(message)) {
        Handled::Call { id, name, args } => {
            assert_eq!(name, "explain");
            assert_eq!(args.to_string(), "{\"code\":\"x\"}");
            let failed = tool_reply(id.copy(), explain(&args));
            assert_eq!(
                failed.to_string(),
                "{\"id\":7,\"jsonrpc\":\"2.0\",\"result\":{\"content\":[{\"text\":\"unknown error code \\\"x\\\"\",\"type\":\"text\"}],\"isError\":true}}"
            );
            let done = tool_reply(id, Ok("ok".to_string()));
            assert!(done.to_string().contains("\"isError\":false"));
        }
        other => panic!("{other:?}"),
    }
}

#[test]
fn lines_on_stdin_are_messages() {
    assert!(matches!(on_line("  \n"), Handled::Silent));
    match on_line("{\"id\":1,\"method\":\"ping\"}\n") {
        Handled::Reply(j) => assert!(j.to_string().contains("result")),
        other => panic!("{other:?}"),
    }
    match on_line("{") {
        Handled::Reply(j) => {
            let text = j.to_string();
            assert!(text.starts_with("{\"error\":{\"code\":-32700,\"message\":\"parse error: EOF"));
            assert!(text.ends_with("\"id\":null,\"jsonrpc\":\"2.0\"}"));
        }
        other => panic!("{other:?}"),
    }
    let long = " ".repeat(MAX_LINE as usize + 1);
    match on_line(&long) {
        Handled::Reply(j) => assert_eq!(
            j.to_string(),
            "{\"error\":{\"code\":-32600,\"message\":\"message exceeds 16777216 bytes\"},\"id\":null,\"jsonrpc\":\"2.0\"}"
        ),
        other => panic!("{other:?}"),
    }
}

#[test]
fn a_call_asks_for_a_read_or_is_answered() {
    let schemas = Schemas { unit: json("1"), entity: json("2"), zones: json("3") };
    for (name, args, want, wanted) in [
        ("read_state", "{\"key\":\"home/**\"}", "home/**", Reading::State),
        ("read_history", "{\"series\":\"state/a/on\"}", "home/history/state/a/on", Reading::History),
        ("read_logs", "{\"unit\":\"u\"}", "home/meta/u/log", Reading::Logs),
        ("read_events", "{}", "home/history/events", Reading::Events),
    ] {
        match call(name, &json(args), &schemas) {
            Asked::Read { selector, reading } => {
                assert_eq!(selector, want);
                assert_eq!(reading, wanted);
            }
            Asked::Answered(r) => panic!("{name}: {r:?}"),
        }
    }
    let answer = |name: &str, args: &str| match call(name, &json(args), &schemas) {
        Asked::Answered(r) => r,
        Asked::Read { selector, .. } => panic!("{name}: {selector}"),
    };
    assert_eq!(answer("schema", "{\"file\":\"entity\"}"), Ok("2".to_string()));
    assert_eq!(
        answer("explain", "{\"code\":\"x\"}"),
        Err("unknown error code \"x\"".to_string())
    );
    assert_eq!(answer("read_state", "{}"), Err("missing \"key\" (string)".to_string()));
    assert_eq!(answer("nope", "{}"), Err("unknown tool \"nope\"".to_string()));
    assert_eq!(Reading::Logs.as_str(), "log read");
}

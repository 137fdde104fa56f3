use homeostat::bus::LogEntry;
use homeostat::supervisor::process::{
    argv, captured, inherited, resolve, terminate, uv_script, Logs, Termination, LOG_CAPACITY,
};

#[test]
fn only_the_base_set_and_declared_names_are_inherited() {
    let declared = vec!["HOMEOSTAT_NTFY_TOKEN".to_string()];
    assert!(inherited("PATH", &declared));
    assert!(inherited("LC_ALL", &declared));
    assert!(inherited("UV_CACHE_DIR", &declared));
    assert!(inherited("HOMEOSTAT_NTFY_TOKEN", &declared));
    assert!(!inherited("HOMEOSTAT_NTFY_TOKEN", &[]));
    assert!(!inherited("HOMEOSTAT_MQTT_CREDENTIALS", &declared));
    assert!(!inherited("AWS_SECRET_ACCESS_KEY", &declared));
}

fn owned(script: &str, args: Vec<&str>) -> Option<(String, Vec<String>)> {
    Some((script.to_string(), args.iter().map(|a| a.to_string()).collect()))
}

#[test]
fn uv_run_commands_yield_their_script_and_args() {
    assert_eq!(uv_script("uv run units/clock.py"), owned("units/clock.py", vec![]));
    assert_eq!(
        uv_script("uv run units/dashboard.py --port 8600"),
        owned("units/dashboard.py", vec!["--port", "8600"])
    );
    assert_eq!(uv_script("uv run --script units/x.py"), owned("units/x.py", vec![]));
    assert_eq!(
        uv_script("uv run ../../adapters/zigbee2mqtt.py"),
        owned("../../adapters/zigbee2mqtt.py", vec![])
    );
}

#[test]
fn anything_else_is_left_alone() {
    // A binary on PATH, the core's own subcommand, a test fake: these
    // have no environment to warm and must not be touched.
    assert_eq!(uv_script("fake_adapter"), None);
    assert_eq!(uv_script("reflector"), None);
    assert_eq!(uv_script("homeostat mcp --http 0.0.0.0:8642"), None);
    assert_eq!(uv_script("uv"), None);
    assert_eq!(uv_script(""), None);
}

#[test]
fn a_resolved_command_runs_the_interpreter_on_the_script() {
    let found = Some("/opt/env/bin/python3\n".to_string());
    assert_eq!(
        resolve("uv run --script units/x.py --port 1", true, found),
        "/opt/env/bin/python3 units/x.py --port 1"
    );
    // Anything that did not work out leaves the command as it was.
    let command = "uv run units/x.py";
    assert_eq!(resolve(command, false, Some("/bin/python3".to_string())), command);
    assert_eq!(resolve(command, true, None), command);
    assert_eq!(resolve(command, true, Some(" \n".to_string())), command);
    assert_eq!(resolve(command, true, Some("/my env/python3".to_string())), command);
    assert_eq!(resolve("fake_adapter", true, Some("/bin/python3".to_string())), "fake_adapter");
}

#[test]
fn a_command_is_tokenized_on_white_space() {
    assert_eq!(argv("  uv  run\tx.py "), owned("uv", vec!["run", "x.py"]));
    assert_eq!(argv(" \t"), None);
}

#[test]
fn captured_lines_lose_their_ending_and_stay_text() {
    assert_eq!(captured(b"ready\r\n".to_vec()), "ready");
    assert_eq!(captured(b"\n".to_vec()), "");
    assert_eq!(captured(vec![b'a', 0xff, b'b', b'\n']), "a\u{fffd}b");
}

fn line(i: i64) -> LogEntry {
    LogEntry { ts_us: i, stream: "stdout".to_string(), line: format!("line {i}") }
}

#[test]
fn a_log_keeps_the_last_lines() {
    let mut logs = Logs::new();
    logs.open("clock");
    for i in 0..(LOG_CAPACITY as i64 + 20) {
        logs.append("clock", line(i));
    }
    let buffer = logs.units.get("clock").unwrap();
    assert_eq!(buffer.len(), LOG_CAPACITY);
    assert_eq!(buffer[0], line(20));
    assert_eq!(buffer[LOG_CAPACITY - 1], line(LOG_CAPACITY as i64 + 19));
}

#[test]
fn a_log_is_read_from_its_end() {
    let mut logs = Logs::new();
    logs.open("clock");
    for i in 0..4 {
        logs.append("clock", line(i));
    }
    assert_eq!(logs.tail("clock", Some(2)), Some(vec![line(2), line(3)]));
    assert_eq!(logs.tail("clock", Some(0)), Some(vec![]));
    assert_eq!(logs.tail("clock", Some(9)).unwrap().len(), 4);
    assert_eq!(logs.tail("clock", None), Some(vec![line(0), line(1), line(2), line(3)]));
    assert_eq!(logs.tail("zigbee", None), None);
}

#[test]
fn a_late_line_does_not_bring_a_closed_log_back() {
    let mut logs = Logs::new();
    logs.open("clock");
    logs.append("clock", line(1));
    logs.open("clock");
    assert_eq!(logs.units.get("clock").unwrap().len(), 1);
    logs.close("clock");
    logs.append("clock", line(2));
    assert!(logs.units.get("clock").is_none());
}

#[test]
fn a_group_gets_its_grace_and_then_is_killed() {
    assert_eq!(terminate(false, true, true), Termination::KillAndReap);
    assert_eq!(terminate(false, false, true), Termination::KillAndReap);
    assert_eq!(terminate(true, true, false), Termination::Poll);
    assert_eq!(terminate(true, true, true), Termination::KillGroup);
    assert_eq!(terminate(true, false, false), Termination::Done);
    assert_eq!(terminate(true, false, true), Termination::Done);
}

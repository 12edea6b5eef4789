use rmux::log_reader::Goal;
use rmux::pattern::Pattern;
use rmux::protocol::{
    encode_data, encode_message, ControlMessage, MessageKind, ParseEvent, Parser,
};
use rmux::server::client_handler::{
    answer_control_command, handle_control_command, history_reply, history_result,
    plan_control_command, status_reply, ClientAction, ClientContext, ClientSession, ControlPlan, HistoryQuery, LogFile,
};
use rmux::server::log_writer::LogLines;
use std::sync::Arc;

#[test]
fn control_dispatch_status() {
    let cmd = ControlMessage::from_json(r#"{"cmd":"status"}"#);
    assert_eq!(cmd, ControlMessage::Status);
}

#[test]
fn control_dispatch_history() {
    let cmd = ControlMessage::from_json(r#"{"cmd":"history","lines":100,"timestamps":true}"#);
    assert_eq!(
        cmd,
        ControlMessage::History {
            lines: 100,
            timestamps: true,
            since: None,
        }
    );
}

#[test]
fn control_dispatch_disconnect() {
    let cmd = ControlMessage::from_json(r#"{"cmd":"disconnect"}"#);
    assert_eq!(cmd, ControlMessage::Disconnect);
}

#[test]
fn control_dispatch_unknown() {
    let cmd = ControlMessage::from_json(r#"{"cmd":"reboot"}"#);
    assert!(matches!(cmd, ControlMessage::Unknown(_)));
}

#[test]
fn client_context_count() {
    let ctx = ClientContext {
        port: "/dev/ttyUSB0".into(),
        baudrate: 115_200,
        serial_connected: true,
        client_count: Arc::new(std::sync::atomic::AtomicUsize::new(0)),
        log_file: None,
    };
    ctx.client_count
        .fetch_add(1, std::sync::atomic::Ordering::Relaxed);
    assert_eq!(
        ctx.client_count
            .load(std::sync::atomic::Ordering::Relaxed),
        1
    );
}

#[test]
fn handle_control_status_returns_response() {
    let ctx = ClientContext {
        port: "/dev/ttyUSB0".into(),
        baudrate: 115_200,
        serial_connected: true,
        client_count: Arc::new(std::sync::atomic::AtomicUsize::new(2)),
        log_file: None,
    };
    let result = handle_control_command(&ControlMessage::Status, &ctx, LogFile::Missing);
    assert!(result.is_some());
    let bytes = result.unwrap();
    // Should be a valid protocol response message: \0R{json}\0
    assert_eq!(bytes[0], 0x00);
    assert_eq!(bytes[1], b'R');
    assert_eq!(*bytes.last().unwrap(), 0x00);
    // Parse the JSON to verify content
    let json = std::str::from_utf8(&bytes[2..bytes.len() - 1]).unwrap();
    let value: serde_json::Value = serde_json::from_str(json).unwrap();
    assert_eq!(value["baudrate"], 115_200);
    assert_eq!(value["clients"], 2);
}

#[test]
fn handle_control_unknown_returns_error() {
    let ctx = ClientContext {
        port: "/dev/ttyUSB0".into(),
        baudrate: 115_200,
        serial_connected: true,
        client_count: Arc::new(std::sync::atomic::AtomicUsize::new(0)),
        log_file: None,
    };
    let result = handle_control_command(&ControlMessage::Unknown("foo".into()), &ctx, LogFile::Missing);
    assert!(result.is_some());
    let bytes = result.unwrap();
    let json = std::str::from_utf8(&bytes[2..bytes.len() - 1]).unwrap();
    let value: serde_json::Value = serde_json::from_str(json).unwrap();
    assert_eq!(value["error"], "unknown command");
}

/// Helper: parse response bytes through the protocol parser, collecting
/// data bytes as a string and response JSON messages.
fn parse_history_response(bytes: &[u8]) -> (String, Vec<serde_json::Value>) {
    let mut parser = Parser::new();
    let events = parser.feed_bytes(bytes);
    let mut data = Vec::new();
    let mut responses = Vec::new();
    for event in events {
        match event {
            ParseEvent::DataByte(b) => data.push(b),
            ParseEvent::Message {
                kind: MessageKind::Response,
                json,
            } => {
                if let Ok(v) = serde_json::from_str(&json) {
                    responses.push(v);
                }
            }
            _ => {}
        }
    }
    (String::from_utf8_lossy(&data).into_owned(), responses)
}

#[test]
fn handle_control_history_no_log() {
    let ctx = ClientContext {
        port: "/dev/ttyUSB0".into(),
        baudrate: 115_200,
        serial_connected: true,
        client_count: Arc::new(std::sync::atomic::AtomicUsize::new(0)),
        log_file: None,
    };
    let cmd = ControlMessage::History {
        lines: 10,
        timestamps: false,
        since: None,
    };
    let result = handle_control_command(&cmd, &ctx, LogFile::Missing);
    assert!(result.is_some());
    let (_, responses) = parse_history_response(&result.unwrap());
    assert_eq!(responses.len(), 1);
    assert_eq!(
        responses[0]["error"],
        "logging is not enabled on this server"
    );
}

#[test]
fn handle_control_history_missing_file() {
    let ctx = ClientContext {
        port: "/dev/ttyUSB0".into(),
        baudrate: 115_200,
        serial_connected: true,
        client_count: Arc::new(std::sync::atomic::AtomicUsize::new(0)),
        log_file: Some("/tmp/rmux_nonexistent_test.log".into()),
    };
    let cmd = ControlMessage::History {
        lines: 10,
        timestamps: false,
        since: None,
    };
    let result = handle_control_command(&cmd, &ctx, LogFile::Missing);
    assert!(result.is_some());
    let (_, responses) = parse_history_response(&result.unwrap());
    assert_eq!(responses.len(), 1);
    assert_eq!(responses[0]["error"], "log file not found");
}

#[test]
fn handle_control_history_returns_data() {
    let content = "[2024-01-01 12:00:00.000] alpha\n\
         [2024-01-01 12:00:01.000] beta\n\
         [2024-01-01 12:00:02.000] gamma\n"
        .as_bytes();

    let ctx = ClientContext {
        port: "/dev/ttyUSB0".into(),
        baudrate: 115_200,
        serial_connected: true,
        client_count: Arc::new(std::sync::atomic::AtomicUsize::new(0)),
        log_file: Some("test.log".into()),
    };
    let cmd = ControlMessage::History {
        lines: 2,
        timestamps: false,
        since: None,
    };
    let result = handle_control_command(&cmd, &ctx, LogFile::Content(content));
    assert!(result.is_some());
    let (data, responses) = parse_history_response(&result.unwrap());

    // Should contain last 2 lines, timestamps stripped
    assert!(data.contains("beta"), "expected 'beta' in: {data}");
    assert!(data.contains("gamma"), "expected 'gamma' in: {data}");
    assert!(!data.contains("alpha"), "should not contain 'alpha': {data}");
    assert!(
        !data.contains("[2024"),
        "timestamps should be stripped: {data}"
    );

    // Should end with history_end event
    assert_eq!(responses.len(), 1);
    assert_eq!(responses[0]["event"], "history_end");
}

#[test]
fn handle_control_history_with_timestamps() {
    let content = "[2024-01-01 12:00:00.000] hello\n"
        .as_bytes();

    let ctx = ClientContext {
        port: "/dev/ttyUSB0".into(),
        baudrate: 115_200,
        serial_connected: true,
        client_count: Arc::new(std::sync::atomic::AtomicUsize::new(0)),
        log_file: Some("test.log".into()),
    };
    let cmd = ControlMessage::History {
        lines: 10,
        timestamps: true,
        since: None,
    };
    let result = handle_control_command(&cmd, &ctx, LogFile::Content(content));
    assert!(result.is_some());
    let (data, responses) = parse_history_response(&result.unwrap());

    assert!(
        data.contains("[2024-01-01 12:00:00.000]"),
        "timestamps should be preserved: {data}"
    );
    assert!(data.contains("hello"));
    assert_eq!(responses.len(), 1);
    assert_eq!(responses[0]["event"], "history_end");
}

#[test]
fn handle_control_history_since() {
    let content = "[2024-01-01 12:00:00.000] init\n\
         [2024-01-01 12:00:01.000] BOOT MARKER\n\
         [2024-01-01 12:00:02.000] running\n"
        .as_bytes();

    let ctx = ClientContext {
        port: "/dev/ttyUSB0".into(),
        baudrate: 115_200,
        serial_connected: true,
        client_count: Arc::new(std::sync::atomic::AtomicUsize::new(0)),
        log_file: Some("test.log".into()),
    };
    let cmd = ControlMessage::History {
        lines: 0,
        timestamps: false,
        since: Some("BOOT MARKER".into()),
    };
    let result = handle_control_command(&cmd, &ctx, LogFile::Content(content));
    assert!(result.is_some());
    let (data, responses) = parse_history_response(&result.unwrap());

    assert!(data.contains("BOOT MARKER"), "should contain marker: {data}");
    assert!(data.contains("running"), "should contain lines after marker: {data}");
    assert!(!data.contains("init"), "should not contain lines before marker: {data}");
    assert_eq!(responses.len(), 1);
    assert_eq!(responses[0]["event"], "history_end");
}

#[test]
fn handle_control_history_invalid_regex() {
    let content = "line\n".as_bytes();

    let ctx = ClientContext {
        port: "/dev/ttyUSB0".into(),
        baudrate: 115_200,
        serial_connected: true,
        client_count: Arc::new(std::sync::atomic::AtomicUsize::new(0)),
        log_file: Some("test.log".into()),
    };
    let cmd = ControlMessage::History {
        lines: 0,
        timestamps: false,
        since: Some("[invalid".into()),
    };
    let result = handle_control_command(&cmd, &ctx, LogFile::Content(content));
    assert!(result.is_some());
    let (_, responses) = parse_history_response(&result.unwrap());
    assert_eq!(responses.len(), 1);
    let error = responses[0]["error"].as_str().unwrap();
    assert!(
        error.contains("invalid regex"),
        "expected regex error, got: {error}"
    );
}

#[test]
fn handle_control_history_since_no_match() {
    let content = "alpha\nbeta\n".as_bytes();

    let ctx = ClientContext {
        port: "/dev/ttyUSB0".into(),
        baudrate: 115_200,
        serial_connected: true,
        client_count: Arc::new(std::sync::atomic::AtomicUsize::new(0)),
        log_file: Some("test.log".into()),
    };
    let cmd = ControlMessage::History {
        lines: 0,
        timestamps: false,
        since: Some("NONEXISTENT".into()),
    };
    let result = handle_control_command(&cmd, &ctx, LogFile::Content(content));
    assert!(result.is_some());
    let (data, responses) = parse_history_response(&result.unwrap());

    // No data, just history_end
    assert!(data.is_empty(), "should have no data: {data}");
    assert_eq!(responses.len(), 1);
    assert_eq!(responses[0]["event"], "history_end");
}

fn context(log_file: Option<&str>) -> ClientContext {
    ClientContext {
        port: "/dev/ttyUSB0".into(),
        baudrate: 115_200,
        serial_connected: true,
        client_count: Arc::new(std::sync::atomic::AtomicUsize::new(0)),
        log_file: log_file.map(String::from),
    }
}

fn history(lines: usize, timestamps: bool, since: Option<&str>) -> ControlMessage {
    ControlMessage::History { lines, timestamps, since: since.map(String::from) }
}

#[test]
fn disconnect_is_not_answered() {
    let ctx = context(None);
    assert!(handle_control_command(&ControlMessage::Disconnect, &ctx, LogFile::Missing).is_none());
}

#[test]
fn unreadable_logs_are_reported() {
    let ctx = context(Some("l"));
    let reply = handle_control_command(
        &history(1, false, None),
        &ctx,
        LogFile::Unreadable("permission denied".into()),
    )
    .unwrap();
    let (data, responses) = parse_history_response(&reply);
    assert!(data.is_empty());
    assert_eq!(responses[0]["error"], "failed to read log: permission denied");
}

#[test]
fn no_lines_are_read_from_no_file() {
    let ctx = context(Some("l"));
    let end = b"\0R{\"event\":\"history_end\"}\0".to_vec();
    for log in [LogFile::Unreadable("permission denied".into()), LogFile::Content(b"a\n")] {
        let reply = handle_control_command(&history(0, false, None), &ctx, log);
        assert_eq!(reply, Some(end.clone()));
    }
    assert!(matches!(
        plan_control_command(&history(0, true, None), &ctx, 0, true),
        ControlPlan::Reply(bytes) if bytes == end
    ));
    let reply = handle_control_command(&history(0, false, None), &ctx, LogFile::Missing).unwrap();
    assert_eq!(parse_history_response(&reply).1[0]["error"], "log file not found");
}

#[test]
fn history_results() {
    assert_eq!(
        history_result(Ok(vec!["[t] a".into()]), false),
        b"a\r\n\0R{\"event\":\"history_end\"}\0".to_vec()
    );
    assert_eq!(
        history_result(Err("gone".into()), false),
        b"\0R{\"error\":\"failed to read log: gone\"}\0".to_vec()
    );
}

#[test]
fn history_replies_exact() {
    let ctx = context(Some("l"));
    let content = b"[t] a\0b\n[u] c\n";
    let reply =
        handle_control_command(&history(9, false, None), &ctx, LogFile::Content(content)).unwrap();
    assert_eq!(reply, b"a\0\0b\r\nc\r\n\0R{\"event\":\"history_end\"}\0".to_vec());
    let reply =
        handle_control_command(&history(1, true, None), &ctx, LogFile::Content(content)).unwrap();
    assert_eq!(reply, b"[u] c\r\n\0R{\"event\":\"history_end\"}\0".to_vec());
    assert_eq!(
        history_reply(&vec![], true),
        b"\0R{\"event\":\"history_end\"}\0".to_vec()
    );
}

#[test]
fn client_numbers_saturate() {
    let ctx = context(None);
    let reply = answer_control_command(&ControlMessage::Status, &ctx, 3, LogFile::Missing).unwrap();
    assert_eq!(reply, status_reply(&ctx, 3));
    let (_, responses) = parse_history_response(&reply);
    assert_eq!(responses[0]["clients"], 3);
    let (_, responses) = parse_history_response(&status_reply(&ctx, usize::MAX));
    assert_eq!(responses[0]["clients"], u32::MAX);
}

#[test]
fn plans() {
    let ctx = context(Some("l"));
    match plan_control_command(&history(4, true, None), &ctx, 0, true) {
        ControlPlan::ReadLog { query: HistoryQuery::LastLines(4), timestamps: true } => {}
        _ => panic!("expected the log to be read"),
    }
    match plan_control_command(&history(4, false, Some("x+")), &ctx, 0, true) {
        ControlPlan::ReadLog { query, timestamps: false } => {
            assert!(matches!(query.goal(), Goal::Since(_)))
        }
        _ => panic!("expected the log to be read"),
    }
    match plan_control_command(&history(4, false, None), &ctx, 0, false) {
        ControlPlan::Reply(bytes) => {
            let (_, responses) = parse_history_response(&bytes);
            assert_eq!(responses[0]["error"], "log file not found");
        }
        _ => panic!("expected an error"),
    }
}

#[test]
fn bad_patterns_name_the_reason() {
    let ctx = context(Some("l"));
    let reply =
        handle_control_command(&history(0, false, Some("(")), &ctx, LogFile::Content(b"x\n"))
            .unwrap();
    let (_, responses) = parse_history_response(&reply);
    assert_eq!(
        responses[0]["error"],
        format!("invalid regex: {}", Pattern::new("(").unwrap_err())
    );
}

#[test]
fn client_streams_become_actions() {
    let mut session = ClientSession::new();
    let mut wire = encode_data(b"A\0");
    wire.extend([0, b'X']);
    wire.extend(encode_message(MessageKind::Control, "{\"cmd\":\"status\"}"));
    wire.extend(encode_message(MessageKind::Response, "{}"));
    wire.extend(encode_message(MessageKind::Control, "?"));
    let mut actions = Vec::new();
    for byte in wire {
        actions.extend(session.receive(&[byte]));
    }
    assert_eq!(actions.len(), 5);
    assert!(matches!(&actions[0], ClientAction::ToSerial(b) if b == b"A"));
    assert!(matches!(&actions[1], ClientAction::ToSerial(b) if b == b"\0"));
    assert!(matches!(&actions[2], ClientAction::ToSerial(b) if b == b"\0X"));
    assert!(matches!(&actions[3], ClientAction::Command(ControlMessage::Status)));
    assert!(matches!(&actions[4], ClientAction::Command(ControlMessage::Unknown(s)) if s == "?"));
}

#[test]
fn client_data_reaches_the_port() {
    let data: Vec<u8> = (0..=255).collect();
    let mut sent = Vec::new();
    for action in ClientSession::new().receive(&encode_data(&data)) {
        match action {
            ClientAction::ToSerial(bytes) => sent.extend(bytes),
            ClientAction::Command(_) => panic!("data taken for a command"),
        }
    }
    assert_eq!(sent, data);
}

#[test]
fn history_shows_what_was_logged() {
    let log = LogLines::new().accept("init\r\nBOOT \u{2764}\r\nrunning\r\n".as_bytes());
    let ctx = context(Some("l"));
    let reply =
        handle_control_command(&history(2, false, None), &ctx, LogFile::Content(&log)).unwrap();
    let (data, _) = parse_history_response(&reply);
    assert_eq!(data, "BOOT \u{2764}\r\nrunning\r\n");
    let reply =
        handle_control_command(&history(0, false, Some("^BOOT")), &ctx, LogFile::Content(&log))
            .unwrap();
    let (data, _) = parse_history_response(&reply);
    assert_eq!(data, "BOOT \u{2764}\r\nrunning\r\n");
    let reply =
        handle_control_command(&history(0, false, Some(r"\[20")), &ctx, LogFile::Content(&log))
            .unwrap();
    assert_eq!(parse_history_response(&reply).0, "");
}

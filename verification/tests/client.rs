use rmux::client::command::{closing, opening, CommandCollector};
use rmux::client::interactive::{
    is_history_end, names_history_end, InteractiveSession, KeyCode, KeyEvent, SessionAction,
    SessionEvent, SocketBridge,
};
use rmux::client::{
    compile_since, history_goal, history_report, history_source, is_interactive, plan_connection,
    Connection, HistorySource,
};
use rmux::json::Scalar;
use rmux::log_reader::Goal;
use rmux::pattern::Pattern;
use rmux::protocol::{
    encode_data, encode_message, encode_response, EventResponse, MessageKind, ParseEvent, Parser,
    ResponseMessage,
};

#[test]
fn command_mode_timeout() {
    let mut collector = CommandCollector::new(None).unwrap();
    assert!(!collector.receive(b"hello\r\n"));
    let output = collector.finish(false);
    assert!(output.contains("hello"));
    assert_eq!(output, "hello\n");
}

#[test]
fn command_mode_send_and_collect() {
    assert_eq!(opening(Some("AT\r\n")), Some(b"AT\r\n".to_vec()));
    let mut collector = CommandCollector::new(None).unwrap();
    assert!(!collector.receive(b"OK\r\n"));
    assert!(collector.finish(false).contains("OK"));
}

#[test]
fn command_mode_wait_for_pattern() {
    let mut collector = CommandCollector::new(Some("READY")).unwrap();
    assert!(!collector.receive(b"loading...\r\n"));
    assert!(collector.receive(b"READY\r\n"));
    assert!(collector.finish(false).contains("READY"));
}

#[test]
fn command_pattern_spans_chunks() {
    let mut collector = CommandCollector::new(Some(r"A\d+B")).unwrap();
    assert!(!collector.receive(b"xA1"));
    assert!(collector.receive(b"2B"));
}

#[test]
fn command_with_a_bad_pattern() {
    match CommandCollector::new(Some("[oops")) {
        Ok(_) => panic!("expected an error"),
        Err(message) => {
            assert!(message.starts_with("invalid regex: "));
            assert_eq!(message, format!("invalid regex: {}", Pattern::new("[oops").unwrap_err()));
        }
    }
}

#[test]
fn command_output_is_ascii() {
    let mut collector = CommandCollector::new(None).unwrap();
    collector.receive(&encode_data(&[b'a', 0xc3, 0xa9, 0x00, b'b']));
    collector.receive(&[0x00, b'X', 0x00, 0xff, b'c']);
    assert_eq!(collector.finish(true), "a\0b\0X\0c");
}

#[test]
fn command_output_without_timestamps() {
    let mut collector = CommandCollector::new(None).unwrap();
    collector.receive(b"[t] one\r\n\r\ntwo\n[u] three\r");
    assert_eq!(collector.finish(false), "one\n\ntwo\nthree\r\n");
    let mut empty = CommandCollector::new(None).unwrap();
    empty.receive(b"\n");
    assert_eq!(empty.finish(false), "");
    assert_eq!(CommandCollector::new(None).unwrap().finish(false), "");
}

#[test]
fn command_output_lines_are_split_as_the_system_splits_them() {
    for text in ["", "a", "a\n", "a\r\nb", "\r\n", "a\r\r\nb\r", "\n\nx\n", "a\rb\n"] {
        let mut collector = CommandCollector::new(None).unwrap();
        collector.receive(text.as_bytes());
        let mut expected = text.lines().collect::<Vec<_>>().join("\n");
        if !expected.is_empty() {
            expected.push('\n');
        }
        assert_eq!(collector.finish(false), expected, "for {text:?}");
    }
}

#[test]
fn command_opening_and_closing() {
    assert_eq!(opening(None), None);
    assert_eq!(opening(Some("a\0b")), Some(vec![b'a', 0, 0, b'b']));
    assert_eq!(closing(), b"\0C{\"cmd\":\"disconnect\"}\0".to_vec());
}

#[test]
fn session_shows_data_without_timestamps() {
    let mut session = InteractiveSession::new(false);
    assert_eq!(
        session.step(SessionEvent::Incoming(b"hello\r\n".to_vec())),
        SessionAction::Show(b"hello\r\n".to_vec())
    );
}

#[test]
fn session_shows_data_with_timestamps() {
    let mut session = InteractiveSession::new(true);
    match session.step(SessionEvent::Incoming(b"hello\r\n".to_vec())) {
        SessionAction::Show(bytes) => {
            let s = String::from_utf8(bytes).unwrap();
            assert!(s.starts_with("\x1b[0m[20"));
            assert!(s.ends_with("] hello\r\n"));
        }
        _ => panic!("expected output"),
    }
}

#[test]
fn session_handles_keys() {
    let mut session = InteractiveSession::new(false);
    let key = |code, control| SessionEvent::Key(KeyEvent { code, control });
    assert_eq!(session.step(key(KeyCode::Char('a'), false)), SessionAction::Send(vec![b'a']));
    assert_eq!(
        session.step(key(KeyCode::Char('\u{e9}'), false)),
        SessionAction::Send("\u{e9}".as_bytes().to_vec())
    );
    assert_eq!(session.step(key(KeyCode::Left, false)), SessionAction::Send(b"\x1b[D".to_vec()));
    assert_eq!(session.step(key(KeyCode::Other, false)), SessionAction::Wait);
    assert_eq!(session.step(key(KeyCode::Char('t'), true)), SessionAction::Wait);
    assert_eq!(session.step(key(KeyCode::Char('Q'), false)), SessionAction::Stop);
    assert_eq!(session.step(key(KeyCode::Char(']'), true)), SessionAction::Stop);
}

#[test]
fn session_ends() {
    let mut session = InteractiveSession::new(false);
    assert_eq!(
        session.step(SessionEvent::ConnectionLost),
        SessionAction::StopWith("\r\nConnection lost".into())
    );
    assert_eq!(
        session.step(SessionEvent::InputFailed("tty gone".into())),
        SessionAction::StopWith("\r\nInput error: tty gone".into())
    );
    assert_eq!(session.step(SessionEvent::InputClosed), SessionAction::Stop);
    assert_eq!(session.step(SessionEvent::OtherInput), SessionAction::Wait);
}

#[test]
fn bridge_delivers_notices_then_data() {
    let mut bridge = SocketBridge::new();
    let mut wire = encode_data(b"ab");
    wire.extend(encode_message(MessageKind::Response, "{\"error\":\"x\"}"));
    wire.extend(encode_data(&[0x00]));
    wire.extend([0x00, b'X']);
    wire.extend(encode_message(MessageKind::Control, "{\"cmd\":\"status\"}"));
    let out = bridge.receive(&wire);
    assert_eq!(
        out,
        vec![
            b"\r\n[server: {\"error\":\"x\"}]\r\n".to_vec(),
            vec![b'a', b'b', 0, 0, b'X'],
        ]
    );
}

#[test]
fn bridge_suppresses_history_end() {
    let mut bridge = SocketBridge::new();
    let end = ResponseMessage::Event(EventResponse { event: "history_end".into() });
    assert!(bridge.receive(&encode_response(&end)).is_empty());
    let other = ResponseMessage::Event(EventResponse { event: "serial_connected".into() });
    assert_eq!(
        bridge.receive(&encode_response(&other)),
        vec![b"\r\n[server: {\"event\":\"serial_connected\"}]\r\n".to_vec()]
    );
}

#[test]
fn history_end_is_recognised() {
    assert!(is_history_end("{\"event\":\"history_end\"}"));
    assert!(is_history_end(" { \"x\": [1], \"event\" : \"history_end\" } "));
    assert!(!is_history_end("{\"event\":\"history\"}"));
    assert!(!is_history_end("[\"history_end\"]"));
    assert!(!is_history_end("history_end"));
    assert!(names_history_end(Some(Scalar::Text("history_end".into()))));
    assert!(!names_history_end(Some(Scalar::Flag(true))));
    assert!(!names_history_end(None));
}

#[test]
fn cut_streams_deliver_all_data() {
    let data: Vec<u8> = (0..=255).chain([0, 0, 0]).collect();
    let wire = encode_data(&data);
    for cut in 0..=wire.len() {
        let mut bridge = SocketBridge::new();
        let mut got: Vec<u8> = bridge.receive(&wire[..cut]).concat();
        got.extend(bridge.receive(&wire[cut..]).concat());
        assert_eq!(got, data);
    }
}

#[test]
fn messages_between_data_do_not_disturb_it() {
    let mut wire = Vec::new();
    let mut expected = Vec::new();
    for i in 0..50u8 {
        wire.extend(encode_data(&[i, 0, 255 - i]));
        expected.extend([i, 0, 255 - i]);
        wire.extend(encode_message(MessageKind::Response, "{\"event\":\"history_end\"}"));
    }
    let mut parser = Parser::new();
    let data: Vec<u8> = parser
        .feed_bytes(&wire)
        .into_iter()
        .filter_map(|e| match e {
            ParseEvent::DataByte(b) => Some(b),
            _ => None,
        })
        .collect();
    assert_eq!(data, expected);
    assert_eq!(SocketBridge::new().receive(&wire), vec![expected]);
}

#[test]
fn since_pattern_is_checked() {
    assert!(compile_since(None).unwrap().is_none());
    assert!(compile_since(Some("BOOT")).unwrap().unwrap().is_match("a BOOT b"));
    let message = compile_since(Some("(")).unwrap_err();
    assert_eq!(
        message,
        format!("invalid regex for --since: {}", Pattern::new("(").unwrap_err())
    );
}

#[test]
fn interactive_by_default_on_a_terminal() {
    assert!(is_interactive(true, true, true, true, true, false));
    assert!(!is_interactive(false, true, false, false, false, true));
    assert!(is_interactive(false, false, false, false, false, true));
    assert!(!is_interactive(false, false, false, false, false, false));
    assert!(!is_interactive(false, false, true, false, false, true));
    assert!(!is_interactive(false, false, false, true, false, true));
    assert!(!is_interactive(false, false, false, false, true, true));
}

#[test]
fn connections() {
    assert_eq!(
        plan_connection("dev", Some("host:1"), "/r/dev.sock", false, true),
        Connection::Remote {
            addr: "host:1".into(),
            notice: Some("history is not available for remote connections".into()),
        }
    );
    assert_eq!(
        plan_connection("dev", Some("host:1"), "/r/dev.sock", true, false),
        Connection::Remote { addr: "host:1".into(), notice: None }
    );
    assert_eq!(
        plan_connection("dev", None, "/r/dev.sock", true, true),
        Connection::Local { show_history: true }
    );
    assert_eq!(
        plan_connection("dev", None, "/r/dev.sock", false, true),
        Connection::NotRunning(
            "server 'dev' is not running (socket not found: /r/dev.sock)".into()
        )
    );
}

#[test]
fn history_sources() {
    assert_eq!(
        history_source(Err("gone".into()), true),
        HistorySource::Unavailable("history unavailable: could not read state file: gone".into())
    );
    assert_eq!(
        history_source(Ok(None), true),
        HistorySource::Unavailable("history unavailable: server was started without --log".into())
    );
    assert_eq!(
        history_source(Ok(Some("/l".into())), false),
        HistorySource::Unavailable("history unavailable: log file not found: /l".into())
    );
    assert_eq!(history_source(Ok(Some("/l".into())), true), HistorySource::Log("/l".into()));
}

#[test]
fn history_goals() {
    let pattern = Pattern::new("x").unwrap();
    assert!(matches!(history_goal(Some(3), Some(&pattern)), Some(Goal::LastLines(3))));
    assert!(matches!(history_goal(None, Some(&pattern)), Some(Goal::Since(_))));
    assert!(history_goal(None, None).is_none());
}

#[test]
fn history_reports() {
    let lines = vec!["[t] a".to_string(), "b".to_string()];
    let report = history_report(Ok(lines.clone()), true, false);
    assert_eq!(report.notice, None);
    assert_eq!(report.lines, vec!["a", "b"]);
    let report = history_report(Ok(lines), false, true);
    assert_eq!(report.lines, vec!["[t] a", "b"]);
    let report = history_report(Ok(vec![]), true, true);
    assert_eq!(report.notice.as_deref(), Some("no lines matched the --since pattern"));
    assert_eq!(history_report(Ok(vec![]), false, true).notice, None);
    let report = history_report(Err("denied".into()), true, true);
    assert_eq!(report.notice.as_deref(), Some("history error: denied"));
    assert!(report.lines.is_empty());
}

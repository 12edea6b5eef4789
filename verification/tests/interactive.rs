use rmux::client::interactive::{
    handle_key, EscapeState, KeyAction, KeyCode, KeyEvent, LineTimestamper,
};

fn make_key(code: KeyCode, control: bool) -> KeyEvent {
    KeyEvent { code, control }
}

#[test]
fn ctrl_bracket_quits() {
    let mut state = EscapeState::Normal;
    let action = handle_key(
        make_key(KeyCode::Char(']'), true),
        &mut state,
    );
    assert_eq!(action, KeyAction::Quit);
}

#[test]
fn ctrl_t_then_q_quits() {
    let mut state = EscapeState::Normal;
    let action1 = handle_key(
        make_key(KeyCode::Char('t'), true),
        &mut state,
    );
    assert_eq!(action1, KeyAction::Nothing);
    assert_eq!(state, EscapeState::CtrlT);

    let action2 = handle_key(
        make_key(KeyCode::Char('q'), false),
        &mut state,
    );
    assert_eq!(action2, KeyAction::Quit);
    assert_eq!(state, EscapeState::Normal);
}

#[test]
fn ctrl_t_ctrl_t_sends_literal() {
    let mut state = EscapeState::Normal;
    handle_key(
        make_key(KeyCode::Char('t'), true),
        &mut state,
    );
    assert_eq!(state, EscapeState::CtrlT);

    let action = handle_key(
        make_key(KeyCode::Char('t'), true),
        &mut state,
    );
    assert_eq!(action, KeyAction::SendByte(0x14));
    assert_eq!(state, EscapeState::Normal);
}

#[test]
fn normal_key_forwards() {
    let mut state = EscapeState::Normal;
    let action = handle_key(
        make_key(KeyCode::Char('a'), false),
        &mut state,
    );
    assert_eq!(action, KeyAction::SendByte(b'a'));
}

#[test]
fn enter_sends_cr() {
    let mut state = EscapeState::Normal;
    let action = handle_key(
        make_key(KeyCode::Enter, false),
        &mut state,
    );
    assert_eq!(action, KeyAction::SendByte(b'\r'));
}

#[test]
fn arrow_keys_send_escape_sequences() {
    let mut state = EscapeState::Normal;
    let action = handle_key(
        make_key(KeyCode::Up, false),
        &mut state,
    );
    assert_eq!(action, KeyAction::SendBytes(b"\x1b[A".to_vec()));
}

#[test]
fn ctrl_c_sends_control_code() {
    let mut state = EscapeState::Normal;
    let action = handle_key(
        make_key(KeyCode::Char('c'), true),
        &mut state,
    );
    assert_eq!(action, KeyAction::SendByte(0x03)); // ETX
}

/// Helper: check that a string contains a timestamp pattern `[YYYY-MM-DD HH:MM:SS.mmm] `.
fn has_timestamp(s: &str) -> bool {
    s.contains("] ") && s.contains("[20")
}

#[test]
fn timestamper_prepends_on_first_line() {
    let mut ts = LineTimestamper::new();
    let out = ts.process(b"hello\r\n");
    let s = String::from_utf8(out).unwrap();
    assert!(has_timestamp(&s), "expected timestamp, got: {s}");
    assert!(s.contains("] hello\r\n"));
}

#[test]
fn timestamper_each_line_gets_timestamp() {
    let mut ts = LineTimestamper::new();
    let out = ts.process(b"line1\nline2\nline3\n");
    let s = String::from_utf8(out).unwrap();
    // Each line should contain a timestamp
    for line in s.lines() {
        assert!(has_timestamp(line), "missing timestamp on: {line}");
    }
}

#[test]
fn timestamper_partial_lines_across_calls() {
    let mut ts = LineTimestamper::new();
    // First chunk: partial line
    let out1 = ts.process(b"hel");
    let s1 = String::from_utf8(out1).unwrap();
    assert!(has_timestamp(&s1), "first chunk should have timestamp");
    assert!(s1.contains("hel"));

    // Second chunk: rest of line + newline + start of next
    let out2 = ts.process(b"lo\nworld");
    let s2 = String::from_utf8(out2).unwrap();
    assert!(s2.contains("lo\n"));
    assert!(s2.contains("] world"), "new line should get timestamp: {s2}");
}

#[test]
fn timestamper_crlf_handled() {
    let mut ts = LineTimestamper::new();
    let out = ts.process(b"hello\r\nworld\r\n");
    let s = String::from_utf8(out).unwrap();
    assert!(has_timestamp(&s));
    let parts: Vec<&str> = s.split('\n').filter(|p| !p.is_empty()).collect();
    assert_eq!(parts.len(), 2);
    for part in &parts {
        assert!(has_timestamp(part), "missing timestamp on: {part}");
    }
}

#[test]
fn timestamper_empty_input() {
    let mut ts = LineTimestamper::new();
    let out = ts.process(b"");
    assert!(out.is_empty());
}

#[test]
fn timestamper_bare_newlines_no_spurious_timestamps() {
    let mut ts = LineTimestamper::new();
    let out = ts.process(b"\n\n");
    let s = String::from_utf8(out).unwrap();
    assert_eq!(s, "\n\n");
}

#[test]
fn timestamper_preserves_color_across_lines() {
    let mut ts = LineTimestamper::new();
    // Line 1 sets green
    ts.process(b"\x1b[32mgreen text\r\n");
    // Line 2 should restore green after the timestamp
    let out = ts.process(b"still green\r\n");
    let s = String::from_utf8(out).unwrap();
    // Should have: reset + timestamp + green restore + "still green"
    assert!(s.contains("\x1b[0m"), "should reset before timestamp");
    assert!(s.contains("\x1b[32m"), "should restore green after timestamp");
    // Green restore should come after the timestamp
    let ts_end = s.find("] ").unwrap();
    let green_pos = s.find("\x1b[32m").unwrap();
    assert!(green_pos > ts_end, "green should come after timestamp");
}

#[test]
fn timestamper_reset_clears_color_state() {
    let mut ts = LineTimestamper::new();
    // Set green then reset it
    ts.process(b"\x1b[32mgreen\x1b[0m\n");
    // Next line should NOT restore green
    let out = ts.process(b"no color\n");
    let s = String::from_utf8(out).unwrap();
    assert!(!s.contains("\x1b[32m"), "green should not be restored after reset");
}

#[test]
fn timestamper_multiple_sgr_attributes_preserved() {
    let mut ts = LineTimestamper::new();
    // Set bold + red
    ts.process(b"\x1b[1m\x1b[31mbold red\n");
    let out = ts.process(b"still styled\n");
    let s = String::from_utf8(out).unwrap();
    assert!(s.contains("\x1b[1m"), "should restore bold");
    assert!(s.contains("\x1b[31m"), "should restore red");
}

#[test]
fn timestamper_combined_sgr_params() {
    let mut ts = LineTimestamper::new();
    // Combined bold+red in one sequence
    ts.process(b"\x1b[1;31mbold red\n");
    let out = ts.process(b"still styled\n");
    let s = String::from_utf8(out).unwrap();
    assert!(s.contains("\x1b[1;31m"), "should restore combined SGR");
}

#[test]
fn timestamper_compound_reset_and_set() {
    let mut ts = LineTimestamper::new();
    // Set green first
    ts.process(b"\x1b[32mgreen\n");
    // Reset + set red in one sequence
    ts.process(b"\x1b[0;31mred\n");
    let out = ts.process(b"next line\n");
    let s = String::from_utf8(out).unwrap();
    // Should only restore red, not green
    assert!(!s.contains("\x1b[32m"), "green should have been cleared by reset");
    assert!(s.contains("\x1b[31m"), "should restore red");
}

#[test]
fn timestamper_escape_sequence_split_across_calls() {
    let mut ts = LineTimestamper::new();
    // ESC arrives at end of one chunk, rest of CSI in next
    ts.process(b"\x1b");
    ts.process(b"[32m green text\n");
    let out = ts.process(b"next\n");
    let s = String::from_utf8(out).unwrap();
    assert!(s.contains("\x1b[32m"), "should restore green from split sequence");
}

#[test]
fn timestamper_non_sgr_csi_ignored() {
    let mut ts = LineTimestamper::new();
    // Set green, then emit a cursor movement (CSI H), then newline
    ts.process(b"\x1b[32mgreen\x1b[H\n");
    let out = ts.process(b"next\n");
    let s = String::from_utf8(out).unwrap();
    // Green should still be tracked, cursor movement should not affect SGR state
    assert!(s.contains("\x1b[32m"), "non-SGR CSI should not affect color state");
}

#[test]
fn timestamper_redundant_colors_replaced_by_reset_set() {
    let mut ts = LineTimestamper::new();
    // Accumulate several color changes without reset
    ts.process(b"\x1b[31m\x1b[32m\x1b[33m\x1b[34myellow then blue\n");
    // Now reset+set via compound param
    ts.process(b"\x1b[0;35mpurple\n");
    let out = ts.process(b"next\n");
    let s = String::from_utf8(out).unwrap();
    // Only purple should remain, all prior colors cleared
    assert!(!s.contains("\x1b[31m"));
    assert!(!s.contains("\x1b[32m"));
    assert!(!s.contains("\x1b[33m"));
    assert!(!s.contains("\x1b[34m"));
    assert!(s.contains("\x1b[35m"), "should restore purple");
}

#[test]
fn timestamper_sgr_cap_prevents_unbounded_growth() {
    let mut ts = LineTimestamper::new();
    // Emit many color changes without any reset to exceed the 256-byte cap
    for i in 0..200 {
        let seq = format!("\x1b[38;5;{}m", i);
        ts.process(seq.as_bytes());
    }
    ts.process(b"text\n");
    let out = ts.process(b"next\n");
    let s = String::from_utf8(out).unwrap();
    // The restored SGR between timestamp and "next" should be bounded
    let ts_end = s.find("] ").unwrap();
    let next_pos = s.find("next").unwrap();
    let between = &s[ts_end + 2..next_pos];
    assert!(
        between.len() <= 300,
        "SGR replay should be bounded, got {} bytes",
        between.len()
    );
}

const STAMP: &str = "[2024-01-01 12:00:00.000] ";

fn show(ts: &mut LineTimestamper, input: &[u8]) -> String {
    let mut out = Vec::new();
    for &byte in input {
        ts.process_byte(byte, STAMP, &mut out);
    }
    String::from_utf8(out).unwrap()
}

#[test]
fn timestamper_exact_output() {
    let mut ts = LineTimestamper::new();
    assert_eq!(
        show(&mut ts, b"a\r\n\x1b[1mb\n\nc"),
        format!("\x1b[0m{STAMP}a\r\n\x1b[0m{STAMP}\x1b[1mb\n\n\x1b[0m{STAMP}\x1b[1mc")
    );
    assert!(!ts.needs_timestamp(b'x'));
    show(&mut ts, b"\n");
    assert!(ts.needs_timestamp(b'x'));
    assert!(!ts.needs_timestamp(b'\r'));
}

/// What is replayed in front of a line after some output.
fn replayed(output: &[u8]) -> String {
    let mut ts = LineTimestamper::new();
    show(&mut ts, output);
    let s = show(&mut ts, b"\nX");
    let start = s.find(STAMP).unwrap() + STAMP.len();
    s[start..s.len() - 1].to_string()
}

#[test]
fn rendition_that_is_replayed() {
    assert_eq!(replayed(b""), "");
    assert_eq!(replayed(b"\x1b[31m"), "\x1b[31m");
    assert_eq!(replayed(b"\x1b[31m\x1b[m"), "");
    assert_eq!(replayed(b"\x1b[31m\x1b[00m"), "");
    assert_eq!(replayed(b"\x1b[1;0;31;4m"), "\x1b[31;4m");
    assert_eq!(replayed(b"\x1b[1;;4m"), "\x1b[4m");
    assert_eq!(replayed(b"\x1b[38;5;0m"), "");
    assert_eq!(replayed(b"\x1b[31m\x1b[2K"), "\x1b[31m");
    assert_eq!(replayed(b"\x1b(31m"), "");
}

#[test]
fn device_output_is_all_shown() {
    let mut ts = LineTimestamper::new();
    let input = b"\x1b[31mred\r\n\r\nplain\n";
    let out = ts.process(input);
    let mut rest = out.as_slice();
    for byte in input {
        let at = rest.iter().position(|b| b == byte).unwrap();
        rest = &rest[at + 1..];
    }
}

#[test]
fn timestamped_chunks_add_up() {
    let input = b"a\x1b[0;32mb\r\nc\x1b[1md\n\n\x1b[me";
    let whole = show(&mut LineTimestamper::new(), input);
    for cut in 0..=input.len() {
        let mut ts = LineTimestamper::new();
        let mut out = show(&mut ts, &input[..cut]);
        out.push_str(&show(&mut ts, &input[cut..]));
        assert_eq!(out, whole);
    }
}

#[test]
fn other_keys() {
    let send = |code| {
        let mut state = EscapeState::Normal;
        handle_key(make_key(code, false), &mut state)
    };
    assert_eq!(send(KeyCode::Backspace), KeyAction::SendByte(0x7f));
    assert_eq!(send(KeyCode::Tab), KeyAction::SendByte(b'\t'));
    assert_eq!(send(KeyCode::Esc), KeyAction::SendByte(0x1b));
    assert_eq!(send(KeyCode::Down), KeyAction::SendBytes(b"\x1b[B".to_vec()));
    assert_eq!(send(KeyCode::Right), KeyAction::SendBytes(b"\x1b[C".to_vec()));
    assert_eq!(send(KeyCode::Left), KeyAction::SendBytes(b"\x1b[D".to_vec()));
    assert_eq!(send(KeyCode::Other), KeyAction::Nothing);
    assert_eq!(
        send(KeyCode::Char('\u{1F600}')),
        KeyAction::SendBytes("\u{1F600}".as_bytes().to_vec())
    );
}

#[test]
fn control_codes_wrap() {
    for c in ['a', 'z', 'A', '1', '`', '\u{e9}', '\u{141}', '\u{1F600}'] {
        let mut state = EscapeState::Normal;
        assert_eq!(
            handle_key(make_key(KeyCode::Char(c), true), &mut state),
            KeyAction::SendByte((c as u8).wrapping_sub(b'`'))
        );
    }
}

#[test]
fn prefix_is_swallowed() {
    let mut state = EscapeState::CtrlT;
    assert_eq!(
        handle_key(make_key(KeyCode::Char('x'), false), &mut state),
        KeyAction::SendByte(b'x')
    );
    assert_eq!(state, EscapeState::Normal);
    let mut state = EscapeState::CtrlT;
    assert_eq!(
        handle_key(make_key(KeyCode::Char(']'), true), &mut state),
        KeyAction::SendByte(0xfd)
    );
}

use rmux::log_reader::{read_last_lines, strip_timestamp};
use rmux::server::log_writer::{format_timestamp, LogLines};
use rmux::server::{deliver_to_log, Delivery, Received};

const STAMP: &str = "[2024-01-01 12:00:00.000] ";

#[test]
fn timestamp_format() {
    let ts = format_timestamp();
    // Should match pattern: [YYYY-MM-DD HH:MM:SS.mmm]
    assert!(ts.starts_with('['));
    assert!(ts.ends_with("] "));
    assert!(ts.len() > 20);
}

#[test]
fn timestamp_shape() {
    let ts = format_timestamp();
    assert_eq!(ts.len(), 26);
    for (i, c) in ts.chars().enumerate() {
        match i {
            0 => assert_eq!(c, '['),
            5 | 8 => assert_eq!(c, '-'),
            11 | 25 => assert_eq!(c, ' '),
            14 | 17 => assert_eq!(c, ':'),
            20 => assert_eq!(c, '.'),
            24 => assert_eq!(c, ']'),
            _ => assert!(c.is_ascii_digit(), "{ts}"),
        }
    }
}

fn accept_all(lines: &mut LogLines, data: &[u8]) -> Vec<u8> {
    let mut log = Vec::new();
    for &byte in data {
        lines.accept_byte(byte, STAMP, &mut log);
    }
    log
}

#[test]
fn log_writer_writes_complete_lines() {
    let mut lines = LogLines::new();
    let content = String::from_utf8(lines.accept(b"hello world\n")).unwrap();
    assert!(content.contains("hello world"));
    assert!(content.contains("[20")); // timestamp prefix
}

#[test]
fn log_writer_buffers_partial_lines() {
    let mut lines = LogLines::new();
    assert!(lines.accept(b"hel").is_empty());
    let content = String::from_utf8(lines.accept(b"lo\n")).unwrap();
    assert!(content.contains("hello"));
}

#[test]
fn log_writer_flushes_partial_on_cancel() {
    let mut lines = LogLines::new();
    assert!(lines.accept(b"partial data").is_empty());
    let content = String::from_utf8(lines.finish()).unwrap();
    assert!(content.contains("partial data"));
    assert!(content.ends_with('\n'));
}

#[test]
fn log_lines_exact() {
    let mut lines = LogLines::new();
    let log = accept_all(&mut lines, b"one\r\n\ntw\ro\nthr");
    assert_eq!(
        String::from_utf8(log).unwrap(),
        format!("{STAMP}one\n{STAMP}\n{STAMP}two\n")
    );
    assert_eq!(
        String::from_utf8(lines.finish_with(STAMP)).unwrap(),
        format!("{STAMP}thr\n")
    );
}

#[test]
fn nothing_is_left_of_a_complete_line() {
    let mut lines = LogLines::new();
    accept_all(&mut lines, b"done\n");
    assert!(lines.finish().is_empty());
}

#[test]
fn log_chunks_do_not_matter() {
    let data = b"alpha\r\nbeta\ngam\0ma\r\n\xff\n";
    for cut in 0..data.len() {
        let mut whole = LogLines::new();
        let mut parts = LogLines::new();
        let expected = accept_all(&mut whole, data);
        let mut log = accept_all(&mut parts, &data[..cut]);
        log.extend(accept_all(&mut parts, &data[cut..]));
        assert_eq!(log, expected);
    }
}

#[test]
fn logged_lines_read_back() {
    let mut lines = LogLines::new();
    let log = lines.accept("boot\r\n[x] y\r\n\u{2764} ok\r\n".as_bytes());
    let read = read_last_lines(&log, 10);
    let stripped: Vec<&str> = read.iter().map(|l| strip_timestamp(l)).collect();
    assert_eq!(stripped, vec!["boot", "[x] y", "\u{2764} ok"]);
}

#[test]
fn lines_that_are_no_text_read_back_repaired() {
    let log = LogLines::new().accept(b"\xe2\x9d ok\xff\n");
    let read = read_last_lines(&log, 1);
    assert_eq!(strip_timestamp(&read[0]), "\u{fffd} ok\u{fffd}");
}

#[test]
fn timestamps_have_their_ranges() {
    let stamp = format_timestamp();
    let number = |at: usize| stamp[at..at + 2].parse::<u32>().unwrap();
    assert_eq!(stamp.len(), 26);
    assert!((1..=12).contains(&number(6)));
    assert!((1..=31).contains(&number(9)));
    assert!(number(12) <= 23);
    assert!(number(15) <= 59);
    assert!(number(18) <= 60);
}

#[test]
fn the_log_survives_a_lag() {
    let mut lines = LogLines::new();
    assert_eq!(deliver_to_log(&mut lines, Received::Data(b"ab")), Delivery::Deliver(vec![]));
    assert_eq!(deliver_to_log(&mut lines, Received::Lagged(3)), Delivery::Skip);
    match deliver_to_log(&mut lines, Received::Data(b"c\n")) {
        Delivery::Deliver(log) => assert!(log.ends_with(b"] abc\n")),
        _ => panic!("expected a line"),
    }
    assert_eq!(deliver_to_log(&mut lines, Received::Closed), Delivery::Stop);
}

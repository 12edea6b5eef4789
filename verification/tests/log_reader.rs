use rmux::log_reader::{
    read_last_lines, read_lines_since_pattern, strip_timestamp, Goal, TailReader, CHUNK_SIZE,
};
use rmux::pattern::Pattern;

#[test]
fn read_last_lines_basic() {
    let content = "line1\nline2\nline3\nline4\nline5\n".as_bytes();

    let lines = read_last_lines(content, 3);
    assert_eq!(lines, vec!["line3", "line4", "line5"]);
}

#[test]
fn read_all_lines() {
    let content = "a\nb\nc\n".as_bytes();

    let lines = read_last_lines(content, 100);
    assert_eq!(lines, vec!["a", "b", "c"]);
}

#[test]
fn read_empty_file() {
    let content = "".as_bytes();

    let lines = read_last_lines(content, 10);
    assert!(lines.is_empty());
}

#[test]
fn read_zero_lines() {
    let content = "line1\nline2\n".as_bytes();

    let lines = read_last_lines(content, 0);
    assert!(lines.is_empty());
}

#[test]
fn read_single_line_no_trailing_newline() {
    let content = "only line".as_bytes();

    let lines = read_last_lines(content, 5);
    assert_eq!(lines, vec!["only line"]);
}

#[test]
fn skip_empty_lines() {
    let content = "line1\n\nline2\n\nline3\n".as_bytes();

    let lines = read_last_lines(content, 10);
    assert_eq!(lines, vec!["line1", "line2", "line3"]);
}

#[test]
fn large_file() {
    let mut content = String::new();
    for i in 0..10000 {
        content.push_str(&format!("line {i}\n"));
    }
    let content = content.as_bytes();

    let lines = read_last_lines(content, 5);
    assert_eq!(lines.len(), 5);
    assert_eq!(lines[4], "line 9999");
    assert_eq!(lines[0], "line 9995");
}

#[test]
fn strip_timestamp_with_prefix() {
    let line = "[2024-01-01 12:00:00.000] hello world";
    assert_eq!(strip_timestamp(line), "hello world");
}

#[test]
fn strip_timestamp_no_prefix() {
    let line = "hello world";
    assert_eq!(strip_timestamp(line), "hello world");
}

#[test]
fn strip_timestamp_bracket_no_close() {
    let line = "[incomplete timestamp";
    assert_eq!(strip_timestamp(line), "[incomplete timestamp");
}

#[test]
fn utf8_content() {
    let content = "hello \u{1F600}\nworld \u{2764}\n".as_bytes();

    let lines = read_last_lines(content, 10);
    assert_eq!(lines.len(), 2);
    assert!(lines[0].contains('\u{1F600}'));
    assert!(lines[1].contains('\u{2764}'));
}

#[test]
fn since_pattern_basic() {
    let content = "alpha\nbeta\ngamma\ndelta\n".as_bytes();

    let re = Pattern::new("gamma").unwrap();
    let lines = read_lines_since_pattern(content, &re);
    assert_eq!(lines, vec!["gamma", "delta"]);
}

#[test]
fn since_pattern_last_occurrence() {
    let content = "BOOT\nline1\nBOOT\nline2\nline3\n".as_bytes();

    let re = Pattern::new("BOOT").unwrap();
    let lines = read_lines_since_pattern(content, &re);
    assert_eq!(lines, vec!["BOOT", "line2", "line3"]);
}

#[test]
fn since_pattern_not_found() {
    let content = "alpha\nbeta\ngamma\n".as_bytes();

    let re = Pattern::new("MISSING").unwrap();
    let lines = read_lines_since_pattern(content, &re);
    assert!(lines.is_empty());
}

#[test]
fn since_pattern_empty_file() {
    let content = "".as_bytes();

    let re = Pattern::new("anything").unwrap();
    let lines = read_lines_since_pattern(content, &re);
    assert!(lines.is_empty());
}

#[test]
fn since_pattern_matches_last_line() {
    let content = "alpha\nbeta\ngamma\n".as_bytes();

    let re = Pattern::new("gamma").unwrap();
    let lines = read_lines_since_pattern(content, &re);
    assert_eq!(lines, vec!["gamma"]);
}

#[test]
fn since_pattern_matches_first_line() {
    let content = "alpha\nbeta\ngamma\n".as_bytes();

    let re = Pattern::new("alpha").unwrap();
    let lines = read_lines_since_pattern(content, &re);
    assert_eq!(lines, vec!["alpha", "beta", "gamma"]);
}

#[test]
fn since_pattern_with_timestamps() {
    let content =
        "[2024-01-01 12:00:00.000] init\n\
         [2024-01-01 12:00:01.000] U-Boot 2024.01\n\
         [2024-01-01 12:00:02.000] Loading kernel\n\
         [2024-01-01 12:00:03.000] Started\n"
        .as_bytes();

    // Pattern matches stripped content, not the timestamp
    let re = Pattern::new("U-Boot").unwrap();
    let lines = read_lines_since_pattern(content, &re);
    assert_eq!(lines.len(), 3);
    assert_eq!(strip_timestamp(&lines[0]), "U-Boot 2024.01");
    assert_eq!(strip_timestamp(&lines[1]), "Loading kernel");
    assert_eq!(strip_timestamp(&lines[2]), "Started");

    // A timestamp-like pattern should NOT match
    let re = Pattern::new("2024-01-01 12:00:01").unwrap();
    let lines = read_lines_since_pattern(content, &re);
    assert!(lines.is_empty(), "pattern should not match timestamp portion");
}

#[test]
fn since_pattern_regex() {
    let content = "setup\nboot 1\ndata\nboot 42\nrunning\n".as_bytes();

    let re = Pattern::new(r"boot\s+\d+").unwrap();
    let lines = read_lines_since_pattern(content, &re);
    assert_eq!(lines, vec!["boot 42", "running"]);
}

#[test]
fn since_pattern_large_file() {
    let mut content = String::new();
    for i in 0..10000 {
        content.push_str(&format!("line {i}\n"));
    }
    // Insert a marker near the end
    content.push_str("BOOT MARKER\n");
    content.push_str("after boot 1\n");
    content.push_str("after boot 2\n");
    let content = content.as_bytes();

    let re = Pattern::new("BOOT MARKER").unwrap();
    let lines = read_lines_since_pattern(content, &re);
    assert_eq!(lines, vec!["BOOT MARKER", "after boot 1", "after boot 2"]);
}

#[test]
fn strip_timestamp_takes_the_first_close() {
    assert_eq!(strip_timestamp("[a] [b] c"), "[b] c");
    assert_eq!(strip_timestamp("[a]b] \u{e9}"), "\u{e9}");
    assert_eq!(strip_timestamp("x[a] b"), "x[a] b");
    assert_eq!(strip_timestamp("[a] "), "");
    assert_eq!(strip_timestamp(""), "");
    assert_eq!(strip_timestamp("["), "[");
}

/// Drives a reader over content, a chunk at a time.
fn drive(content: &[u8], goal: &Goal) -> (Vec<String>, usize) {
    let mut reader = TailReader::new(goal, content.len() as u64);
    let mut reads = 0;
    while let Some((offset, size)) = reader.next_read() {
        let offset = offset as usize;
        reader.absorb(goal, &content[offset..offset + size]);
        reads += 1;
    }
    (reader.finish(goal), reads)
}

#[test]
fn reader_stops_when_it_has_enough() {
    let content: String = (0..10000).map(|i| format!("line {i}\n")).collect();
    let (lines, reads) = drive(content.as_bytes(), &Goal::LastLines(5));
    assert_eq!(lines, vec!["line 9995", "line 9996", "line 9997", "line 9998", "line 9999"]);
    assert_eq!(reads, 1);
    let pattern = Pattern::new("^line 0$").unwrap();
    let (lines, reads) = drive(content.as_bytes(), &Goal::Since(&pattern));
    assert_eq!(lines.len(), 10000);
    assert_eq!(reads as u64, (content.len() as u64).div_ceil(CHUNK_SIZE));
}

#[test]
fn reader_with_nothing_to_do() {
    let goal = Goal::LastLines(0);
    assert!(goal.is_nothing());
    assert_eq!(drive(b"a\nb\n", &goal), (vec![], 0));
    assert_eq!(drive(b"", &Goal::LastLines(3)), (vec![], 0));
}

#[test]
fn lines_across_chunks() {
    for len in [8190usize, 8191, 8192, 8193, 16384, 20000] {
        let long = "x".repeat(len);
        let content = format!("first\n{long}\nlast\n");
        assert_eq!(
            read_last_lines(content.as_bytes(), 3),
            vec!["first".to_string(), long.clone(), "last".to_string()]
        );
        assert_eq!(
            read_last_lines(content.as_bytes(), 2),
            vec![long, "last".to_string()]
        );
    }
}

#[test]
fn characters_on_chunk_boundaries() {
    // Every place that a boundary can fall on inside a character
    for padding in 0..4 {
        let line = format!("{}{}", "\u{1f980}".repeat(5000), "x".repeat(padding));
        let content = format!("first\n{line}\n");
        assert_eq!(read_last_lines(content.as_bytes(), 1), vec![line.clone()]);
        assert_eq!(
            read_last_lines(content.as_bytes(), 2),
            vec!["first".to_string(), line.clone()]
        );
        let pattern = Pattern::new("^\u{1f980}+x*$").unwrap();
        assert_eq!(read_lines_since_pattern(content.as_bytes(), &pattern), vec![line]);
    }
}

#[test]
fn invalid_bytes_on_chunk_boundaries() {
    let mut content = vec![0xff; 8192];
    content.extend(vec![b'x'; 8190]);
    content.extend(b"\n");
    let expected = format!("{}{}", "\u{fffd}".repeat(8192), "x".repeat(8190));
    assert_eq!(read_last_lines(&content, 1), vec![expected]);
}

#[test]
fn invalid_lines_are_repaired() {
    assert_eq!(read_last_lines(b"a\xffb\nok\n", 5), vec!["a\u{fffd}b", "ok"]);
}

#[test]
fn bad_patterns_are_refused() {
    let message = Pattern::new("[invalid").unwrap_err();
    assert!(message.contains("unclosed character class"), "{message}");
}

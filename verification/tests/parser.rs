use rmux::protocol::{MessageKind, ParseEvent, Parser, MAX_MESSAGE_SIZE};

#[test]
fn normal_data_passthrough() {
    let mut parser = Parser::new();
    let events = parser.feed_bytes(b"hello");
    assert_eq!(
        events,
        vec![
            ParseEvent::DataByte(b'h'),
            ParseEvent::DataByte(b'e'),
            ParseEvent::DataByte(b'l'),
            ParseEvent::DataByte(b'l'),
            ParseEvent::DataByte(b'o'),
        ]
    );
}

#[test]
fn escaped_nul() {
    let mut parser = Parser::new();
    let events = parser.feed_bytes(&[0x00, 0x00]);
    assert_eq!(events, vec![ParseEvent::DataByte(0x00)]);
}

#[test]
fn control_message() {
    let mut parser = Parser::new();
    let mut data = vec![0x00, b'C'];
    data.extend_from_slice(b"{\"cmd\":\"status\"}");
    data.push(0x00);

    let events = parser.feed_bytes(&data);
    assert_eq!(
        events,
        vec![ParseEvent::Message {
            kind: MessageKind::Control,
            json: "{\"cmd\":\"status\"}".to_string(),
        }]
    );
}

#[test]
fn response_message() {
    let mut parser = Parser::new();
    let mut data = vec![0x00, b'R'];
    data.extend_from_slice(b"{\"status\":\"ok\"}");
    data.push(0x00);

    let events = parser.feed_bytes(&data);
    assert_eq!(
        events,
        vec![ParseEvent::Message {
            kind: MessageKind::Response,
            json: "{\"status\":\"ok\"}".to_string(),
        }]
    );
}

#[test]
fn malformed_escape() {
    let mut parser = Parser::new();
    let events = parser.feed_bytes(&[0x00, b'X']);
    assert_eq!(events, vec![ParseEvent::MalformedEscape(b'X')]);
}

#[test]
fn interleaved_data_and_control() {
    let mut parser = Parser::new();
    let mut data = Vec::new();
    data.extend_from_slice(b"before");
    data.push(0x00);
    data.push(b'C');
    data.extend_from_slice(b"{\"cmd\":\"status\"}");
    data.push(0x00);
    data.extend_from_slice(b"after");

    let events = parser.feed_bytes(&data);
    assert_eq!(events.len(), 6 + 1 + 5); // "before"(6) + message + "after"(5)
    // Check the message is in the middle
    assert_eq!(
        events[6],
        ParseEvent::Message {
            kind: MessageKind::Control,
            json: "{\"cmd\":\"status\"}".to_string(),
        }
    );
    // Check data before
    assert_eq!(events[0], ParseEvent::DataByte(b'b'));
    assert_eq!(events[5], ParseEvent::DataByte(b'e'));
    // Check data after
    assert_eq!(events[7], ParseEvent::DataByte(b'a'));
}

#[test]
fn empty_json_message() {
    let mut parser = Parser::new();
    let data = vec![0x00, b'C', 0x00]; // empty JSON body
    let events = parser.feed_bytes(&data);
    assert_eq!(
        events,
        vec![ParseEvent::Message {
            kind: MessageKind::Control,
            json: String::new(),
        }]
    );
}

#[test]
fn partial_message_then_complete() {
    let mut parser = Parser::new();

    // First feed: start of message
    let events1 = parser.feed_bytes(&[0x00, b'C', b'{']);
    assert!(events1.is_empty()); // all Pending

    // Second feed: rest of message
    let events2 = parser.feed_bytes(b"\"cmd\":\"status\"}");
    assert!(events2.is_empty()); // still accumulating

    // Third feed: terminating NUL
    let events3 = parser.feed_bytes(&[0x00]);
    assert_eq!(
        events3,
        vec![ParseEvent::Message {
            kind: MessageKind::Control,
            json: "{\"cmd\":\"status\"}".to_string(),
        }]
    );
}

#[test]
fn very_long_json() {
    let mut parser = Parser::new();
    let long_value = "x".repeat(10000);
    let json = format!("{{\"data\":\"{long_value}\"}}");

    let mut data = vec![0x00, b'R'];
    data.extend_from_slice(json.as_bytes());
    data.push(0x00);

    let events = parser.feed_bytes(&data);
    assert_eq!(events.len(), 1);
    if let ParseEvent::Message { kind, json: parsed } = &events[0] {
        assert_eq!(*kind, MessageKind::Response);
        assert_eq!(*parsed, json);
    } else {
        panic!("expected Message event");
    }
}

#[test]
fn multiple_escaped_nuls_in_data() {
    let mut parser = Parser::new();
    // Data: \0\0 A \0\0 → should produce NUL, 'A', NUL
    let data = vec![0x00, 0x00, b'A', 0x00, 0x00];
    let events = parser.feed_bytes(&data);
    assert_eq!(
        events,
        vec![
            ParseEvent::DataByte(0x00),
            ParseEvent::DataByte(b'A'),
            ParseEvent::DataByte(0x00),
        ]
    );
}

#[test]
fn consecutive_messages() {
    let mut parser = Parser::new();
    let mut data = Vec::new();
    // First message
    data.push(0x00);
    data.push(b'C');
    data.extend_from_slice(b"{\"cmd\":\"status\"}");
    data.push(0x00);
    // Second message
    data.push(0x00);
    data.push(b'R');
    data.extend_from_slice(b"{\"status\":\"ok\"}");
    data.push(0x00);

    let events = parser.feed_bytes(&data);
    assert_eq!(events.len(), 2);
    assert_eq!(
        events[0],
        ParseEvent::Message {
            kind: MessageKind::Control,
            json: "{\"cmd\":\"status\"}".to_string(),
        }
    );
    assert_eq!(
        events[1],
        ParseEvent::Message {
            kind: MessageKind::Response,
            json: "{\"status\":\"ok\"}".to_string(),
        }
    );
}

#[test]
fn oversized_message_buffer_capped() {
    let mut parser = Parser::new();
    // Start a control message
    let mut data = vec![0x00, b'C'];
    // Feed MAX_MESSAGE_SIZE + 100 bytes of content
    data.extend(vec![b'x'; MAX_MESSAGE_SIZE + 100]);
    // Close the message
    data.push(0x00);

    let events = parser.feed_bytes(&data);
    // Should emit exactly one Message event with the body capped at MAX_MESSAGE_SIZE
    assert_eq!(events.len(), 1);
    if let ParseEvent::Message { kind, json } = &events[0] {
        assert_eq!(*kind, MessageKind::Control);
        assert_eq!(json.len(), MAX_MESSAGE_SIZE);
    } else {
        panic!("expected Message event, got {:?}", events[0]);
    }

    // Parser should recover and handle normal data after
    let events2 = parser.feed_bytes(b"ok");
    assert_eq!(
        events2,
        vec![ParseEvent::DataByte(b'o'), ParseEvent::DataByte(b'k')]
    );
}

#[test]
fn data_byte_by_byte() {
    let mut parser = Parser::new();
    assert_eq!(parser.feed(b'A'), ParseEvent::DataByte(b'A'));
    assert_eq!(parser.feed(0x00), ParseEvent::Pending);
    assert_eq!(parser.feed(0x00), ParseEvent::DataByte(0x00));
    assert_eq!(parser.feed(b'B'), ParseEvent::DataByte(b'B'));
}

use rmux::protocol::{
    encode_control, encode_data, encode_message, encode_response, ControlMessage, ErrorResponse,
    EventResponse,
    MessageKind, ParseEvent, Parser, ResponseMessage, StatusResponse, MAX_MESSAGE_SIZE,
};

#[test]
fn encode_data_no_nuls() {
    let data = b"hello world";
    assert_eq!(encode_data(data), data.to_vec());
}

#[test]
fn encode_data_with_nuls() {
    let data = vec![b'A', 0x00, b'B'];
    let encoded = encode_data(&data);
    assert_eq!(encoded, vec![b'A', 0x00, 0x00, b'B']);
}

#[test]
fn encode_data_all_nuls() {
    let data = vec![0x00, 0x00, 0x00];
    let encoded = encode_data(&data);
    assert_eq!(encoded, vec![0x00, 0x00, 0x00, 0x00, 0x00, 0x00]);
}

#[test]
fn encode_control_status() {
    let encoded = encode_control(&ControlMessage::Status);
    assert_eq!(encoded[0], 0x00);
    assert_eq!(encoded[1], b'C');
    assert_eq!(*encoded.last().unwrap(), 0x00);
    let json = std::str::from_utf8(&encoded[2..encoded.len() - 1]).unwrap();
    let value: serde_json::Value = serde_json::from_str(json).unwrap();
    assert_eq!(value["cmd"], "status");
}

#[test]
fn encode_control_history() {
    let msg = ControlMessage::History {
        lines: 100,
        timestamps: true,
        since: None,
    };
    let encoded = encode_control(&msg);
    assert_eq!(encoded[0], 0x00);
    assert_eq!(encoded[1], b'C');
    assert_eq!(*encoded.last().unwrap(), 0x00);
}

#[test]
fn encode_response_status() {
    let resp = ResponseMessage::Status(StatusResponse {
        status: "ok".into(),
        serial: true,
        port: "/dev/ttyUSB0".into(),
        baudrate: 115_200,
    });
    let encoded = encode_response(&resp);
    assert_eq!(encoded[0], 0x00);
    assert_eq!(encoded[1], b'R');
    assert_eq!(*encoded.last().unwrap(), 0x00);
}

#[test]
fn encode_response_event() {
    let resp = ResponseMessage::Event(EventResponse {
        event: "serial_connected".into(),
    });
    let encoded = encode_response(&resp);
    let json = std::str::from_utf8(&encoded[2..encoded.len() - 1]).unwrap();
    let value: serde_json::Value = serde_json::from_str(json).unwrap();
    assert_eq!(value["event"], "serial_connected");
}

#[test]
fn encode_response_error() {
    let resp = ResponseMessage::Error(ErrorResponse {
        error: "unknown command".into(),
    });
    let encoded = encode_response(&resp);
    let json = std::str::from_utf8(&encoded[2..encoded.len() - 1]).unwrap();
    let value: serde_json::Value = serde_json::from_str(json).unwrap();
    assert_eq!(value["error"], "unknown command");
}

// Round-trip tests: encode → parse → verify
#[test]
fn round_trip_data_no_nuls() {
    let data = b"hello world";
    let encoded = encode_data(data);
    let mut parser = Parser::new();
    let events = parser.feed_bytes(&encoded);
    let bytes: Vec<u8> = events
        .into_iter()
        .map(|e| match e {
            ParseEvent::DataByte(b) => b,
            _ => panic!("expected DataByte"),
        })
        .collect();
    assert_eq!(bytes, data.to_vec());
}

#[test]
fn round_trip_data_with_nuls() {
    let data = vec![b'A', 0x00, b'B', 0x00, 0x00, b'C'];
    let encoded = encode_data(&data);
    let mut parser = Parser::new();
    let events = parser.feed_bytes(&encoded);
    let bytes: Vec<u8> = events
        .into_iter()
        .map(|e| match e {
            ParseEvent::DataByte(b) => b,
            _ => panic!("expected DataByte"),
        })
        .collect();
    assert_eq!(bytes, data);
}

#[test]
fn round_trip_control_message() {
    let msg = ControlMessage::History {
        lines: 50,
        timestamps: false,
        since: None,
    };
    let encoded = encode_control(&msg);
    let mut parser = Parser::new();
    let events = parser.feed_bytes(&encoded);
    assert_eq!(events.len(), 1);
    if let ParseEvent::Message {
        kind: MessageKind::Control,
        json,
    } = &events[0]
    {
        let parsed = ControlMessage::from_json(json);
        assert_eq!(parsed, msg);
    } else {
        panic!("expected Control message event");
    }
}

#[test]
fn round_trip_response_message() {
    let resp = ResponseMessage::Status(StatusResponse {
        status: "ok".into(),
        serial: true,
        port: "/dev/ttyUSB0".into(),
        baudrate: 115_200,
    });
    let encoded = encode_response(&resp);
    let mut parser = Parser::new();
    let events = parser.feed_bytes(&encoded);
    assert_eq!(events.len(), 1);
    if let ParseEvent::Message {
        kind: MessageKind::Response,
        json,
    } = &events[0]
    {
        let Some(ResponseMessage::Status(parsed)) = ResponseMessage::from_json(json) else {
            panic!("expected a status");
        };
        assert_eq!(parsed.status, "ok");
        assert_eq!(parsed.baudrate, 115_200);
    } else {
        panic!("expected Response message event");
    }
}

#[test]
fn round_trip_mixed_data_and_messages() {
    let mut wire = Vec::new();
    // Some data
    wire.extend_from_slice(&encode_data(b"hello"));
    // A control message
    wire.extend_from_slice(&encode_control(&ControlMessage::Status));
    // More data with a NUL
    wire.extend_from_slice(&encode_data(&[0x00, b'!']));

    let mut parser = Parser::new();
    let events = parser.feed_bytes(&wire);

    // 5 data bytes + 1 control message + 2 data bytes = 8 events
    assert_eq!(events.len(), 8);
    assert_eq!(events[0], ParseEvent::DataByte(b'h'));
    assert!(matches!(
        &events[5],
        ParseEvent::Message {
            kind: MessageKind::Control,
            ..
        }
    ));
    assert_eq!(events[6], ParseEvent::DataByte(0x00));
    assert_eq!(events[7], ParseEvent::DataByte(b'!'));
}

#[test]
fn every_message_comes_back() {
    let messages = [
        ControlMessage::Status,
        ControlMessage::Disconnect,
        ControlMessage::History { lines: 1, timestamps: true, since: Some("a\0b\u{e9}".into()) },
    ];
    for message in messages {
        let mut parser = Parser::new();
        let events = parser.feed_bytes(&encode_control(&message));
        match &events[..] {
            [ParseEvent::Message { kind: MessageKind::Control, json }] => {
                assert_eq!(ControlMessage::from_json(json), message)
            }
            _ => panic!("expected one control message"),
        }
    }
}

#[test]
fn framed_text() {
    assert_eq!(encode_message(MessageKind::Control, "x"), vec![0, b'C', b'x', 0]);
    assert_eq!(encode_message(MessageKind::Response, ""), vec![0, b'R', 0]);
}

#[test]
fn oversized_messages_are_cut_and_the_stream_goes_on() {
    let json = "y".repeat(MAX_MESSAGE_SIZE + 5);
    let mut wire = encode_message(MessageKind::Response, &json);
    wire.extend(encode_data(b"z"));
    let events = Parser::new().feed_bytes(&wire);
    assert_eq!(
        events,
        vec![
            ParseEvent::Message {
                kind: MessageKind::Response,
                json: "y".repeat(MAX_MESSAGE_SIZE),
            },
            ParseEvent::DataByte(b'z'),
        ]
    );
}

#[test]
fn chunks_of_a_stream_add_up() {
    let mut wire = encode_data(&[1, 0, 0, 2]);
    wire.extend(encode_control(&ControlMessage::Status));
    wire.extend([0, b'Q', 0, b'R', 0xff, 0xfe, 0]);
    let whole = Parser::new().feed_bytes(&wire);
    for cut in 0..=wire.len() {
        let mut parser = Parser::new();
        let mut events = parser.feed_bytes(&wire[..cut]);
        events.extend(parser.feed_bytes(&wire[cut..]));
        assert_eq!(events, whole);
    }
}

#[test]
fn invalid_text_is_repaired() {
    let events = Parser::new().feed_bytes(&[0, b'R', b'a', 0xff, b'b', 0]);
    assert_eq!(
        events,
        vec![ParseEvent::Message { kind: MessageKind::Response, json: "a\u{fffd}b".into() }]
    );
}

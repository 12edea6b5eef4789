use rmux::entries::read_listing;
use rmux::json::Scalar;
use rmux::protocol::message::{control_from_members, response_from_listing};
use rmux::protocol::{
    ControlMessage, ErrorResponse, EventResponse, ResponseMessage, ServerInfoResponse,
    StatusResponse,
};

#[test]
fn parse_history_command() {
    let msg = ControlMessage::from_json(r#"{"cmd":"history","lines":50,"timestamps":false}"#);
    assert_eq!(
        msg,
        ControlMessage::History {
            lines: 50,
            timestamps: false,
            since: None,
        }
    );
}

#[test]
fn parse_history_defaults() {
    let msg = ControlMessage::from_json(r#"{"cmd":"history"}"#);
    assert_eq!(
        msg,
        ControlMessage::History {
            lines: 50,
            timestamps: false,
            since: None,
        }
    );
}

#[test]
fn parse_history_with_since() {
    let msg = ControlMessage::from_json(
        r#"{"cmd":"history","lines":50,"timestamps":false,"since":"U-Boot"}"#,
    );
    assert_eq!(
        msg,
        ControlMessage::History {
            lines: 50,
            timestamps: false,
            since: Some("U-Boot".into()),
        }
    );
}

#[test]
fn history_since_round_trip() {
    let original = ControlMessage::History {
        lines: 50,
        timestamps: false,
        since: Some("BOOT".into()),
    };
    let json = original.to_json();
    let parsed = ControlMessage::from_json(&json);
    assert_eq!(original, parsed);
}

#[test]
fn parse_status_command() {
    let msg = ControlMessage::from_json(r#"{"cmd":"status"}"#);
    assert_eq!(msg, ControlMessage::Status);
}

#[test]
fn parse_disconnect_command() {
    let msg = ControlMessage::from_json(r#"{"cmd":"disconnect"}"#);
    assert_eq!(msg, ControlMessage::Disconnect);
}

#[test]
fn parse_unknown_command() {
    let msg = ControlMessage::from_json(r#"{"cmd":"foobar"}"#);
    assert!(matches!(msg, ControlMessage::Unknown(_)));
}

#[test]
fn parse_invalid_json() {
    let msg = ControlMessage::from_json("not json");
    assert!(matches!(msg, ControlMessage::Unknown(_)));
}

#[test]
fn control_message_round_trip() {
    let original = ControlMessage::History {
        lines: 100,
        timestamps: true,
        since: None,
    };
    let json = original.to_json();
    let parsed = ControlMessage::from_json(&json);
    assert_eq!(original, parsed);
}

#[test]
fn status_response_serialize() {
    let resp = StatusResponse {
        status: "ok".into(),
        serial: true,
        port: "/dev/ttyUSB0".into(),
        baudrate: 115_200,
    };
    let json = resp.to_json();
    assert!(json.contains("\"status\":\"ok\""));
    assert!(json.contains("\"serial\":true"));
}

#[test]
fn event_response_serialize() {
    let resp = EventResponse {
        event: "history_end".into(),
    };
    let json = resp.to_json();
    assert!(json.contains("\"event\":\"history_end\""));
}

#[test]
fn error_response_serialize() {
    let resp = ErrorResponse {
        error: "unknown command".into(),
    };
    let json = resp.to_json();
    assert!(json.contains("\"error\":\"unknown command\""));
}

#[test]
fn server_info_response_serialize() {
    let resp = ServerInfoResponse {
        serial: true,
        port: "/dev/ttyUSB0".into(),
        baudrate: 115_200,
        clients: 2,
    };
    let json = resp.to_json();
    let parsed: serde_json::Value = serde_json::from_str(&json).unwrap();
    assert_eq!(parsed["clients"], 2);
    assert_eq!(parsed["serial"], true);
}

#[test]
fn status_round_trip() {
    let json = ControlMessage::Status.to_json();
    let parsed = ControlMessage::from_json(&json);
    assert_eq!(parsed, ControlMessage::Status);
}

#[test]
fn disconnect_round_trip() {
    let json = ControlMessage::Disconnect.to_json();
    let parsed = ControlMessage::from_json(&json);
    assert_eq!(parsed, ControlMessage::Disconnect);
}

#[test]
fn control_messages_as_text() {
    let history = ControlMessage::History {
        lines: 7,
        timestamps: true,
        since: Some("a\"b\0".into()),
    };
    assert_eq!(
        history.to_json(),
        "{\"cmd\":\"history\",\"lines\":7,\"since\":\"a\\\"b\\u0000\",\"timestamps\":true}"
    );
    assert_eq!(ControlMessage::from_json(&history.to_json()), history);
    assert_eq!(ControlMessage::Status.to_json(), "{\"cmd\":\"status\"}");
    assert_eq!(ControlMessage::Disconnect.to_json(), "{\"cmd\":\"disconnect\"}");
}

#[test]
fn unknown_commands_keep_their_text() {
    for text in ["", "not json", "[1]", "{\"cmd\":5}", "{\"cmd\":\"reboot\"}", "{\"x\":1}"] {
        let message = ControlMessage::from_json(text);
        assert_eq!(message, ControlMessage::Unknown(text.into()));
        assert_eq!(message.to_json(), text);
    }
}

#[test]
fn unusable_members_fall_back() {
    let message = ControlMessage::from_json(
        "{\"cmd\":\"history\",\"lines\":-3,\"timestamps\":\"yes\",\"since\":null}",
    );
    assert_eq!(
        message,
        ControlMessage::History { lines: 50, timestamps: false, since: None }
    );
    let message = ControlMessage::from_json("{\"cmd\":\"history\",\"lines\":1.5}");
    assert_eq!(
        message,
        ControlMessage::History { lines: 50, timestamps: false, since: None }
    );
    let message = ControlMessage::from_json("{\"cmd\":\"status\",\"cmd\":\"disconnect\"}");
    assert_eq!(message, ControlMessage::Disconnect);
}

#[test]
fn largest_line_count_survives() {
    let message = ControlMessage::History { lines: usize::MAX, timestamps: false, since: None };
    assert_eq!(ControlMessage::from_json(&message.to_json()), message);
}

#[test]
fn members_choose_the_message() {
    let text = |s: &str| Some(Scalar::Text(s.into()));
    assert_eq!(
        control_from_members(
            "j",
            text("history"),
            Some(Scalar::Number(3)),
            Some(Scalar::Flag(true)),
            text("p")
        ),
        ControlMessage::History { lines: 3, timestamps: true, since: Some("p".into()) }
    );
    assert_eq!(
        control_from_members("j", text("status"), None, None, None),
        ControlMessage::Status
    );
    assert_eq!(
        control_from_members("j", Some(Scalar::Flag(true)), None, None, None),
        ControlMessage::Unknown("j".into())
    );
}

#[test]
fn responses_as_text() {
    let status = StatusResponse {
        status: "ok".into(),
        serial: true,
        port: "/dev/ttyUSB0".into(),
        baudrate: 115_200,
    };
    assert_eq!(
        status.to_json(),
        "{\"status\":\"ok\",\"serial\":true,\"port\":\"/dev/ttyUSB0\",\"baudrate\":115200}"
    );
    let info = ServerInfoResponse {
        serial: false,
        port: "p".into(),
        baudrate: 9600,
        clients: 3,
    };
    assert_eq!(
        ResponseMessage::ServerInfo(info).to_json(),
        "{\"serial\":false,\"port\":\"p\",\"baudrate\":9600,\"clients\":3}"
    );
}

fn every_kind_of_response() -> Vec<ResponseMessage> {
    vec![
        ResponseMessage::Status(StatusResponse {
            status: "o\"k\0".into(),
            serial: true,
            port: "/dev/ttyUSB0".into(),
            baudrate: u32::MAX,
        }),
        ResponseMessage::Event(EventResponse { event: "history_end".into() }),
        ResponseMessage::ServerInfo(ServerInfoResponse {
            serial: false,
            port: "tcp://h:1".into(),
            baudrate: 0,
            clients: 7,
        }),
        ResponseMessage::Error(ErrorResponse { error: "unknown command".into() }),
    ]
}

#[test]
fn responses_read_as_they_were_written() {
    for response in every_kind_of_response() {
        assert_eq!(ResponseMessage::from_json(&response.to_json()), Some(response));
    }
}

#[test]
fn the_first_complete_kind_counts() {
    let all = r#"{"error":"e","clients":1,"event":"v","baudrate":2,"port":"p","serial":true,"status":"s"}"#;
    assert!(matches!(ResponseMessage::from_json(all), Some(ResponseMessage::Status(_))));
    let no_status = r#"{"error":"e","clients":1,"event":"v","baudrate":2,"port":"p","serial":true}"#;
    assert_eq!(
        ResponseMessage::from_json(no_status),
        Some(ResponseMessage::Event(EventResponse { event: "v".into() }))
    );
    let no_event = r#"{"error":"e","clients":1,"baudrate":2,"port":"p","serial":true}"#;
    assert_eq!(
        ResponseMessage::from_json(no_event),
        Some(ResponseMessage::ServerInfo(ServerInfoResponse {
            serial: true,
            port: "p".into(),
            baudrate: 2,
            clients: 1,
        }))
    );
    let too_many = r#"{"error":"e","clients":4294967296,"baudrate":2,"port":"p","serial":true}"#;
    assert_eq!(
        ResponseMessage::from_json(too_many),
        Some(ResponseMessage::Error(ErrorResponse { error: "e".into() }))
    );
}

#[test]
fn what_is_no_response() {
    for json in [
        "", "{}", "[]", "null", "1", r#""event""#, r#"{"status":"ok"}"#, r#"{"event":1}"#,
        r#"{"error":null}"#, r#"{"event":"e""#, r#"{"event":"e"} x"#, r#"{"event":"e",}"#,
        r#"["a","b"]"#, "[1]", r#"["ok",true,"p",-1]"#, r#"["ok",true,"p",1,2]"#,
        r#"[true,"p",1,4294967296]"#,
    ] {
        assert_eq!(ResponseMessage::from_json(json), None, "{json}");
    }
}

#[test]
fn repeated_members_are_refused() {
    assert_eq!(ResponseMessage::from_json(r#"{"event":"a","event":"b"}"#), None);
    assert_eq!(ResponseMessage::from_json(r#"{"event":"a","\u0065vent":"a"}"#), None);
    assert_eq!(
        ResponseMessage::from_json(r#"{"event":"a","event":"b","error":"e"}"#),
        Some(ResponseMessage::Error(ErrorResponse { error: "e".into() }))
    );
    // Members of no kind may come again
    assert_eq!(
        ResponseMessage::from_json(r#"{"x":1,"event":"a","x":{"event":"b"}}"#),
        Some(ResponseMessage::Event(EventResponse { event: "a".into() }))
    );
}

#[test]
fn arrays_give_the_members_in_order() {
    assert_eq!(
        ResponseMessage::from_json(r#" [ "ok" , true , "p,]\"" , 9600 ] "#),
        Some(ResponseMessage::Status(StatusResponse {
            status: "ok".into(),
            serial: true,
            port: "p,]\"".into(),
            baudrate: 9600,
        }))
    );
    assert_eq!(
        ResponseMessage::from_json(r#"[false,"p",1,2]"#),
        Some(ResponseMessage::ServerInfo(ServerInfoResponse {
            serial: false,
            port: "p".into(),
            baudrate: 1,
            clients: 2,
        }))
    );
    assert_eq!(
        ResponseMessage::from_json(r#"["e"]"#),
        Some(ResponseMessage::Event(EventResponse { event: "e".into() }))
    );
}

#[test]
fn responses_with_space_and_other_members() {
    assert_eq!(
        ResponseMessage::from_json(" {\n\t\"a\" : [1, {\"event\": 2}] , \"event\" :\r\"e\" } \n"),
        Some(ResponseMessage::Event(EventResponse { event: "e".into() }))
    );
}

#[test]
fn entries_choose_the_response() {
    let text = |t: &str| Some(Scalar::Text(t.into()));
    let device = vec![
        ("serial".to_string(), Some(Scalar::Flag(true))),
        ("port".to_string(), text("p")),
        ("baudrate".to_string(), Some(Scalar::Number(9600))),
    ];
    let mut status = device.clone();
    status.push(("status".to_string(), text("ok")));
    assert_eq!(
        response_from_listing(true, &status),
        Some(ResponseMessage::Status(StatusResponse {
            status: "ok".into(),
            serial: true,
            port: "p".into(),
            baudrate: 9600,
        }))
    );
    let mut error = device;
    error.push(("clients".to_string(), Some(Scalar::Flag(true))));
    error.push(("error".to_string(), text("e")));
    assert_eq!(
        response_from_listing(true, &error),
        Some(ResponseMessage::Error(ErrorResponse { error: "e".into() }))
    );
    assert_eq!(response_from_listing(true, &vec![("status".to_string(), text("ok"))]), None);
    assert_eq!(response_from_listing(true, &vec![("event".to_string(), None)]), None);
}

#[test]
fn entries_of_texts() {
    assert_eq!(
        read_listing(r#"{"a":1,"a":null}"#),
        Some((
            true,
            vec![("a".to_string(), Some(Scalar::Number(1))), ("a".to_string(), None)]
        ))
    );
    assert_eq!(
        read_listing("[true]"),
        Some((false, vec![(String::new(), Some(Scalar::Flag(true)))]))
    );
    assert_eq!(read_listing(" { } "), Some((true, vec![])));
    assert_eq!(read_listing("true"), None);
    assert_eq!(read_listing("{1:2}"), None);
}

use rmux::cli::{
    list_report, resolve_timestamps, scan_servers, server_config, server_status, validate_name,
    ScannedFile, ServerArgs, StatusArgs, StatusOutcome,
};
use rmux::types::{ServerConfig, ServerStateFile};

fn args(name: &str) -> ServerArgs {
    ServerArgs {
        name: name.into(),
        port: Some("/dev/ttyUSB0".into()),
        tcp: None,
        baudrate: 115_200,
        no_log: false,
        log_dir: None,
        no_interactive: false,
        pty: false,
        pty_link: None,
        no_reconnect: false,
        timestamps: false,
        no_timestamps: false,
    }
}

fn state(name: &str, port: &str) -> ServerStateFile {
    ServerStateFile {
        name: name.into(),
        pid: 4711,
        port: port.into(),
        baudrate: 9600,
        socket: "/tmp/rmux-1/dev.sock".into(),
        log_file: None,
        pty_device: None,
        started_at: "2024-01-01T00:00:00Z".into(),
        listen: None,
    }
}

#[test]
fn validate_name_accepts_valid() {
    assert!(validate_name("my-server").is_ok());
    assert!(validate_name("dev_1").is_ok());
    assert!(validate_name("ABC123").is_ok());
}

#[test]
fn validate_name_rejects_empty() {
    assert!(validate_name("").is_err());
}

#[test]
fn validate_name_rejects_path_traversal() {
    assert!(validate_name("../etc/passwd").is_err());
    assert!(validate_name("foo/bar").is_err());
}

#[test]
fn validate_name_rejects_special_chars() {
    assert!(validate_name("my server").is_err());
    assert!(validate_name("test.log").is_err());
}

#[test]
fn validate_name_messages() {
    assert_eq!(validate_name("").unwrap_err(), "server name cannot be empty");
    assert_eq!(
        validate_name("\u{e9}").unwrap_err(),
        "server name must contain only alphanumeric characters, hyphens, and underscores"
    );
    assert_eq!(StatusArgs { name: "a".into() }.name, "a");
}

#[test]
fn config_from_defaults() {
    let config = server_config(args("dev"), true).unwrap();
    assert_eq!(
        config,
        ServerConfig {
            name: "dev".into(),
            port: Some("/dev/ttyUSB0".into()),
            tcp: None,
            baudrate: 115_200,
            log: true,
            log_dir: None,
            interactive: true,
            pty: false,
            pty_link: None,
            reconnect: true,
            socket_path: None,
            timestamps: false,
            listen: None,
        }
    );
}

#[test]
fn config_from_all_flags() {
    let mut a = args("dev");
    a.port = None;
    a.tcp = Some("localhost:4321".into());
    a.no_log = true;
    a.log_dir = Some("/var/log/rmux".into());
    a.no_interactive = true;
    a.pty = true;
    a.pty_link = Some("/tmp/vserial".into());
    a.no_reconnect = true;
    a.timestamps = true;
    let config = server_config(a, true).unwrap();
    assert_eq!(config.tcp.as_deref(), Some("localhost:4321"));
    assert!(!config.log && !config.interactive && !config.reconnect);
    assert!(config.pty && config.timestamps);
    assert_eq!(config.pty_link.as_deref(), Some("/tmp/vserial"));
    assert_eq!(config.log_dir.as_deref(), Some("/var/log/rmux"));
}

#[test]
fn config_errors() {
    let mut neither = args("dev");
    neither.port = None;
    assert_eq!(
        server_config(neither, true).unwrap_err(),
        "either --port or --tcp must be specified"
    );
    let mut both = args("dev");
    both.tcp = Some("localhost:1".into());
    assert_eq!(
        server_config(both, true).unwrap_err(),
        "--port and --tcp are mutually exclusive"
    );
    let mut bad = args("a b");
    bad.port = None;
    assert_eq!(
        server_config(bad, true).unwrap_err(),
        "server name must contain only alphanumeric characters, hyphens, and underscores"
    );
}

#[test]
fn timestamps_default_to_piped_output() {
    assert!(resolve_timestamps(true, false, true));
    assert!(resolve_timestamps(true, true, true));
    assert!(!resolve_timestamps(false, true, false));
    assert!(!resolve_timestamps(false, false, true));
    assert!(resolve_timestamps(false, false, false));
}

#[test]
fn list_without_servers() {
    assert_eq!(list_report(&vec![]), vec!["No servers running."]);
}

#[test]
fn list_table() {
    let lines = list_report(&vec![
        state("dev", "/dev/ttyUSB0"),
        state("a-name-that-is-too-long", "tcp://h:1"),
    ]);
    assert_eq!(lines[0], format!("{:<15} {:<8} {:<20} {:<10} {:<8}", "NAME", "PID", "PORT", "BAUD", "CLIENTS"));
    assert_eq!(lines[1], "-".repeat(65));
    assert_eq!(lines[2], format!("{:<15} {:<8} {:<20} {:<10} {:<8}", "dev", 4711, "/dev/ttyUSB0", 9600, "-"));
    assert_eq!(
        lines[3],
        "a-name-that-is-too-long 4711     tcp://h:1            9600       -       "
    );
    assert_eq!(lines.len(), 4);
}

#[test]
fn scanning_the_runtime_directory() {
    let file = |extension: Option<&str>, stem: Option<&str>, state, alive| ScannedFile {
        extension: extension.map(String::from),
        stem: stem.map(String::from),
        state,
        alive,
    };
    let a = state("a", "/dev/ttyUSB0");
    let b = state("b", "/dev/ttyUSB1");
    let scan = scan_servers(vec![
        file(Some("sock"), Some("a"), None, false),
        file(Some("json"), Some("a"), Some(a.clone()), true),
        file(Some("log"), Some("a"), Some(a.clone()), true),
        file(Some("json"), Some("broken"), None, true),
        file(Some("json"), Some("gone"), Some(b.clone()), false),
        file(None, Some("json"), Some(b.clone()), false),
        file(Some("json"), None, Some(b.clone()), false),
        file(Some("json"), Some("b"), Some(b.clone()), true),
    ]);
    assert_eq!(scan.running, vec![a, b]);
    assert_eq!(scan.stale, vec!["gone", ""]);
}

#[test]
fn status_of_a_missing_server() {
    match server_status("dev", None, true) {
        StatusOutcome::NotFound(message) => assert_eq!(message, "server 'dev' not found"),
        _ => panic!("expected no server"),
    }
}

#[test]
fn status_of_a_stale_server() {
    match server_status("dev", Some(state("dev", "x")), false) {
        StatusOutcome::Stale(message) => assert_eq!(
            message,
            "server 'dev' is not running (stale state file cleaned up)"
        ),
        _ => panic!("expected a stale server"),
    }
}

#[test]
fn status_of_a_serial_server() {
    match server_status("dev", Some(state("dev", "/dev/ttyUSB0")), true) {
        StatusOutcome::Running(lines) => assert_eq!(
            lines,
            vec![
                "Server: dev",
                "  PID:       4711",
                "  Port:      /dev/ttyUSB0",
                "  Baud rate: 9600",
                "  Socket:    /tmp/rmux-1/dev.sock",
                "  Started:   2024-01-01T00:00:00Z",
                "  Status:    running",
            ]
        ),
        _ => panic!("expected a running server"),
    }
}

#[test]
fn status_of_a_tcp_server() {
    let mut s = state("dev", "tcp://localhost:4321");
    s.log_file = Some("/var/log/dev.log".into());
    s.pty_device = Some("/dev/pts/3".into());
    match server_status("dev", Some(s), true) {
        StatusOutcome::Running(lines) => assert_eq!(
            lines,
            vec![
                "Server: dev",
                "  PID:       4711",
                "  Transport: tcp://localhost:4321",
                "  Socket:    /tmp/rmux-1/dev.sock",
                "  Started:   2024-01-01T00:00:00Z",
                "  Log file:  /var/log/dev.log",
                "  PTY:       /dev/pts/3",
                "  Status:    running",
            ]
        ),
        _ => panic!("expected a running server"),
    }
}

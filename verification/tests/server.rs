use rmux::server::pty_bridge::{pty_step, PendingWrite, PtyAction, PtyRead};
use rmux::server::serial::{Backoff, DeviceLink, LinkAction, LinkEvent, Retry};
use rmux::server::state::{checked_pid, cleanup_paths, is_alive, EPERM};
use rmux::server::{
    client_context, deliver_raw, deliver_to_client, log_file, open_fallback, plan_server, port_label,
    shutdown_files, socket_file, state_file, transport, Delivery, OpenFallback, Received,
    Transport,
};
use rmux::types::ServerConfig;

fn config() -> ServerConfig {
    ServerConfig {
        name: "dev".into(),
        port: Some("/dev/ttyUSB0".into()),
        tcp: None,
        baudrate: 115_200,
        log: true,
        log_dir: None,
        interactive: false,
        pty: false,
        pty_link: None,
        reconnect: true,
        socket_path: None,
        timestamps: false,
        listen: None,
    }
}

#[test]
fn backoff_schedule() {
    let mut backoff = Backoff::new(true);
    let mut delays = Vec::new();
    for _ in 0..8 {
        match backoff.lost(false) {
            Retry::After(ms) => delays.push(ms),
            Retry::Stop => panic!("should go on"),
        }
    }
    assert_eq!(delays, vec![500, 1000, 2000, 4000, 8000, 16000, 30000, 30000]);
    backoff.opened();
    assert_eq!(backoff.lost(false), Retry::After(500));
}

#[test]
fn backoff_stops() {
    assert_eq!(Backoff::new(false).lost(false), Retry::Stop);
    assert_eq!(Backoff::new(true).lost(true), Retry::Stop);
}

const LOST: &str = "\r\n--- connection lost ---\r\n";
const BACK: &str = "\r\n--- reconnected ---\r\n";

fn broadcast(data: &str) -> LinkAction {
    LinkAction::Broadcast(data.as_bytes().to_vec())
}

fn received(data: &str) -> LinkEvent {
    LinkEvent::Received(data.as_bytes().to_vec())
}

#[test]
fn link_passes_data_both_ways() {
    let mut link = DeviceLink::new(true, false);
    assert_eq!(link.step(LinkEvent::Opened, false), vec![LinkAction::Poll]);
    assert_eq!(
        link.step(received("hello from device"), false),
        vec![broadcast("hello from device")]
    );
    assert_eq!(
        link.step(LinkEvent::Outgoing(b"AT\r\n".to_vec()), false),
        vec![LinkAction::Write(b"AT\r\n".to_vec())]
    );
    assert_eq!(link.step(LinkEvent::OutgoingClosed, false), vec![LinkAction::Stop]);
    assert_eq!(link.step(LinkEvent::Cancelled, true), vec![LinkAction::Stop]);
}

#[test]
fn link_reconnects() {
    let mut link = DeviceLink::new(true, false);
    assert_eq!(link.step(LinkEvent::OpenFailed, false), vec![LinkAction::Wait(500)]);
    assert_eq!(link.step(LinkEvent::Waited, false), vec![LinkAction::Open]);
    assert_eq!(link.step(LinkEvent::OpenFailed, false), vec![LinkAction::Wait(1000)]);
    assert_eq!(link.step(LinkEvent::Opened, false), vec![LinkAction::Poll]);
    assert_eq!(link.step(LinkEvent::Ended, false), vec![LinkAction::Wait(500)]);
    assert_eq!(link.step(LinkEvent::WriteFailed, false), vec![LinkAction::Wait(1000)]);
    assert_eq!(link.step(LinkEvent::ReadFailed, true), vec![LinkAction::Stop]);
}

#[test]
fn link_without_reconnect_stops() {
    for announces in [false, true] {
        let mut link = DeviceLink::new(false, announces);
        assert_eq!(link.step(LinkEvent::Opened, false), vec![LinkAction::Poll]);
        assert_eq!(link.step(LinkEvent::Ended, false), vec![LinkAction::Stop]);
    }
}

#[test]
fn link_tells_of_every_kind_of_loss() {
    for loss in [LinkEvent::Ended, LinkEvent::ReadFailed, LinkEvent::WriteFailed] {
        let mut link = DeviceLink::new(true, true);
        assert_eq!(link.step(LinkEvent::Opened, false), vec![LinkAction::Poll]);
        assert_eq!(link.step(loss, false), vec![broadcast(LOST), LinkAction::Wait(500)]);
    }
}

#[test]
fn link_tells_nothing_when_it_never_opened_or_is_stopped() {
    let mut link = DeviceLink::new(true, true);
    assert_eq!(link.step(LinkEvent::OpenFailed, false), vec![LinkAction::Wait(500)]);
    assert_eq!(link.step(LinkEvent::Ended, false), vec![LinkAction::Wait(1000)]);
    assert_eq!(link.step(LinkEvent::Opened, false), vec![LinkAction::Poll]);
    assert_eq!(link.step(LinkEvent::Ended, true), vec![LinkAction::Stop]);
}

#[test]
fn link_tells_of_a_loss_once() {
    let mut link = DeviceLink::new(true, true);
    link.step(LinkEvent::Opened, false);
    assert_eq!(link.step(LinkEvent::Ended, false), vec![broadcast(LOST), LinkAction::Wait(500)]);
    assert_eq!(link.step(LinkEvent::WriteFailed, false), vec![LinkAction::Wait(1000)]);
    assert_eq!(link.step(LinkEvent::Waited, false), vec![LinkAction::Open]);
    assert_eq!(link.step(LinkEvent::OpenFailed, false), vec![LinkAction::Wait(2000)]);
    assert_eq!(link.step(LinkEvent::Opened, false), vec![broadcast(BACK), LinkAction::Poll]);
    assert_eq!(link.step(LinkEvent::Opened, false), vec![LinkAction::Poll]);
}

/// Loses the link and opens it again.
fn reconnect(link: &mut DeviceLink) {
    let lost = link.step(LinkEvent::Ended, false);
    assert_eq!(lost, vec![broadcast(LOST), LinkAction::Wait(500)]);
    assert!(LOST.contains("--- connection lost ---"));
    assert_eq!(link.step(LinkEvent::Waited, false), vec![LinkAction::Open]);
    let back = link.step(LinkEvent::Opened, false);
    assert_eq!(back, vec![broadcast(BACK), LinkAction::Poll]);
    assert!(BACK.contains("--- reconnected ---"));
}

#[test]
fn tcp_reconnect_after_disconnect() {
    let mut link = DeviceLink::new(true, true);
    link.step(LinkEvent::Opened, false);
    assert_eq!(
        link.step(received("before disconnect"), false),
        vec![broadcast("before disconnect")]
    );
    reconnect(&mut link);
    assert_eq!(
        link.step(received("after reconnect"), false),
        vec![broadcast("after reconnect")]
    );
}

#[test]
fn tcp_reconnect_write_after_reconnect() {
    let mut link = DeviceLink::new(true, true);
    link.step(LinkEvent::Opened, false);
    assert_eq!(
        link.step(LinkEvent::Outgoing(b"first".to_vec()), false),
        vec![LinkAction::Write(b"first".to_vec())]
    );
    reconnect(&mut link);
    assert_eq!(
        link.step(LinkEvent::Outgoing(b"second".to_vec()), false),
        vec![LinkAction::Write(b"second".to_vec())]
    );
}

#[test]
fn tcp_reconnect_multiple_cycles() {
    let mut link = DeviceLink::new(true, true);
    link.step(LinkEvent::Opened, false);
    for data in ["cycle1", "cycle2"] {
        reconnect(&mut link);
        assert_eq!(link.step(received(data), false), vec![broadcast(data)]);
    }
}

#[test]
fn transport_of_a_configuration() {
    let serial = transport(&config()).unwrap();
    assert_eq!(
        serial,
        Transport::Serial { port: "/dev/ttyUSB0".into(), baudrate: 115_200 }
    );
    assert_eq!(port_label(&serial), "/dev/ttyUSB0");
    let mut c = config();
    c.tcp = Some("localhost:4321".into());
    assert_eq!(transport(&c), None);
    c.port = None;
    let tcp = transport(&c).unwrap();
    assert_eq!(port_label(&tcp), "tcp://localhost:4321");
    c.tcp = None;
    assert_eq!(transport(&c), None);
}

#[test]
fn files_of_a_server() {
    let mut c = config();
    assert_eq!(log_file(&c, "/run/rmux").as_deref(), Some("/run/rmux/dev.log"));
    assert_eq!(socket_file(&c, "/run/rmux"), "/run/rmux/dev.sock");
    c.log_dir = Some("/var/log".into());
    c.socket_path = Some("/tmp/other.sock".into());
    assert_eq!(log_file(&c, "/run/rmux").as_deref(), Some("/var/log/dev.log"));
    assert_eq!(socket_file(&c, "/run/rmux"), "/tmp/other.sock");
    c.log = false;
    assert_eq!(log_file(&c, "/run/rmux"), None);
}

#[test]
fn state_file_of_a_server() {
    let mut c = config();
    c.listen = Some("0.0.0.0:5555".into());
    let t = transport(&c).unwrap();
    let state = state_file(
        &c,
        &t,
        "/run/rmux",
        42,
        Some("/dev/pts/3".into()),
        "2024-01-01T00:00:00Z".into(),
    );
    assert_eq!(state.name, "dev");
    assert_eq!(state.pid, 42);
    assert_eq!(state.port, "/dev/ttyUSB0");
    assert_eq!(state.baudrate, 115_200);
    assert_eq!(state.socket, "/run/rmux/dev.sock");
    assert_eq!(state.log_file.as_deref(), Some("/run/rmux/dev.log"));
    assert_eq!(state.pty_device.as_deref(), Some("/dev/pts/3"));
    assert_eq!(state.started_at, "2024-01-01T00:00:00Z");
    assert_eq!(state.listen.as_deref(), Some("0.0.0.0:5555"));
}

#[test]
fn context_of_a_server() {
    let c = config();
    let ctx = client_context(&c, &transport(&c).unwrap(), "/run/rmux");
    assert_eq!(ctx.port, "/dev/ttyUSB0");
    assert!(ctx.serial_connected);
    assert_eq!(ctx.log_file.as_deref(), Some("/run/rmux/dev.log"));
    assert_eq!(ctx.client_count.load(std::sync::atomic::Ordering::Relaxed), 0);
}

#[test]
fn what_a_server_removes() {
    let mut c = config();
    assert_eq!(shutdown_files(&c, "/r"), vec!["/r/dev.json", "/r/dev.sock"]);
    c.pty = true;
    c.pty_link = Some("/tmp/vserial".into());
    assert_eq!(
        shutdown_files(&c, "/r"),
        vec!["/r/dev.pty", "/tmp/vserial", "/r/dev.json", "/r/dev.sock"]
    );
    assert_eq!(
        cleanup_paths("/r", "x"),
        ("/r/x.json".to_string(), "/r/x.sock".to_string())
    );
}

#[test]
fn fallback_when_the_port_does_not_open() {
    let mut c = config();
    assert_eq!(open_fallback(&c), OpenFallback::Reconnect);
    c.reconnect = false;
    assert_eq!(open_fallback(&c), OpenFallback::WritesDisabled);
}

#[test]
fn process_ids_fit_the_system() {
    assert_eq!(checked_pid(0), None);
    assert_eq!(checked_pid(1), Some(1));
    assert_eq!(checked_pid(999_999), Some(999_999));
    assert_eq!(checked_pid(0x7fff_ffff), Some(i32::MAX));
    assert_eq!(checked_pid(0x8000_0000), None);
}

#[test]
fn processes_that_are_there() {
    assert!(is_alive(true, None));
    assert!(is_alive(false, Some(EPERM)));
    assert!(!is_alive(false, Some(3)));
    assert!(!is_alive(false, None));
}

#[test]
fn listeners_get_their_data() {
    assert_eq!(
        deliver_to_client(Received::Data(&[65, 0, 66])),
        Delivery::Deliver(vec![65, 0, 0, 66])
    );
    assert_eq!(deliver_to_client(Received::Lagged(1)), Delivery::Stop);
    assert_eq!(deliver_to_client(Received::Closed), Delivery::Stop);
    assert_eq!(
        deliver_raw(Received::Data(&[65, 0, 66])),
        Delivery::Deliver(vec![65, 0, 66])
    );
    assert_eq!(deliver_raw(Received::Lagged(1)), Delivery::Skip);
    assert_eq!(deliver_raw(Received::Closed), Delivery::Stop);
}

#[test]
fn partial_writes() {
    let mut pending = PendingWrite::new(b"hello pty".to_vec());
    let mut out = Vec::new();
    for n in [0, 3, 1, 5] {
        assert!(!pending.is_done());
        let rest = pending.remaining();
        out.extend_from_slice(&rest[..n]);
        pending.advance(n);
    }
    assert!(pending.is_done());
    assert!(pending.remaining().is_empty());
    assert_eq!(out, b"hello pty");
    pending.advance(7);
    assert!(pending.is_done());
}

#[test]
fn pty_reads() {
    assert_eq!(pty_step(PtyRead::WouldBlock), PtyAction::Wait);
    assert_eq!(pty_step(PtyRead::Data(b"x".to_vec())), PtyAction::ToSerial(b"x".to_vec()));
    assert_eq!(pty_step(PtyRead::Closed), PtyAction::Stop);
    assert_eq!(pty_step(PtyRead::Failed), PtyAction::Stop);
}

#[test]
fn plan_of_a_server() {
    let mut c = config();
    c.interactive = true;
    c.timestamps = true;
    c.pty = true;
    c.pty_link = Some("/tmp/vserial".into());
    c.log_dir = Some("/var/log".into());
    c.listen = Some("0.0.0.0:5555".into());
    c.reconnect = false;
    let plan = plan_server(&c, "/r").unwrap();
    assert_eq!(plan.transport, transport(&c).unwrap());
    assert_eq!(plan.log_dir.as_deref(), Some("/var/log"));
    assert_eq!(plan.log_file.as_deref(), Some("/var/log/dev.log"));
    assert_eq!(plan.socket, "/r/dev.sock");
    assert_eq!(plan.listen.as_deref(), Some("0.0.0.0:5555"));
    assert_eq!(plan.pty_links, vec!["/r/dev.pty", "/tmp/vserial"]);
    assert_eq!(plan.console, Some(true));
    assert_eq!(plan.fallback, OpenFallback::WritesDisabled);
    c.log = false;
    c.pty = false;
    c.interactive = false;
    let plan = plan_server(&c, "/r").unwrap();
    assert_eq!(plan.log_dir, None);
    assert_eq!(plan.log_file, None);
    assert!(plan.pty_links.is_empty());
    assert_eq!(plan.console, None);
    c.tcp = Some("h:1".into());
    assert!(plan_server(&c, "/r").is_none());
}

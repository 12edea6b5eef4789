//! The server: what it keeps, answers and writes down.

pub mod client_handler;
pub mod log_writer;
pub mod pty_bridge;
pub mod serial;
pub mod state;

use crate::cli;
use crate::protocol::encode;
use crate::protocol::parser;
use crate::runtime;
use crate::server::client_handler::ClientContext;
use crate::server::log_writer::LogLines;
use crate::text;
use crate::types::{ServerConfig, ServerStateFile};
use std::sync::atomic::AtomicUsize;
use std::sync::Arc;
use vstd::prelude::*;
use vstd::utf8::*;

verus! {

/// How the server talks to its device.
#[derive(Debug, Clone, PartialEq)]
pub enum Transport {
    /// Over a serial port.
    Serial { port: String, baudrate: u32 },
    /// Over TCP.
    Tcp { addr: String },
}

/// Decides how the server talks to its device. The configuration names a
/// port or an address, not both.
pub fn transport(config: &ServerConfig) -> (transport: Option<Transport>)
    ensures
        match transport {
            Some(Transport::Serial { port, baudrate }) => config.port == Some(port)
                && config.tcp is None && baudrate == config.baudrate,
            Some(Transport::Tcp { addr }) => config.port is None && config.tcp == Some(addr),
            None => config.port is Some == config.tcp is Some,
        },
{
    match &config.port {
        Some(port) => match &config.tcp {
            Some(_) => None,
            None => Some(Transport::Serial { port: port.clone(), baudrate: config.baudrate }),
        },
        None => match &config.tcp {
            Some(addr) => Some(Transport::Tcp { addr: addr.clone() }),
            None => None,
        },
    }
}

/// What the server gives as its port: the serial port, or the address with
/// its scheme.
pub open spec fn port_label_of(transport: Transport) -> Seq<char> {
    match transport {
        Transport::Serial { port, .. } => port@,
        Transport::Tcp { addr } => "tcp://"@ + addr@,
    }
}

/// What the server gives as its port.
pub fn port_label(transport: &Transport) -> (label: String)
    ensures
        label@ == port_label_of(*transport),
{
    match transport {
        Transport::Serial { port, .. } => port.clone(),
        Transport::Tcp { addr } => {
            let mut label = "tcp://".to_owned();
            label.append(addr.as_str());
            label
        },
    }
}

/// A server that talks over TCP is told by its port from one that has a
/// serial port, unless that is named like an address.
pub proof fn transports_are_told_apart(transport: Transport)
    requires
        transport matches Transport::Serial { port, .. } ==> !text::starts_with(
            port@,
            "tcp://"@,
        ),
    ensures
        cli::is_tcp(port_label_of(transport)) <==> transport is Tcp,
{
    if let Transport::Tcp { addr } = transport {
        let label = "tcp://"@ + addr@;
        assert(label.take("tcp://"@.len() as int) == "tcp://"@);
    }
}

/// Where the server writes its log, if it does: in the directory of the
/// configuration, or else in the runtime directory.
pub open spec fn log_file_of(config: ServerConfig, runtime_dir: Seq<char>) -> Option<Seq<char>> {
    if !config.log {
        None
    } else {
        match config.log_dir {
            Some(dir) => Some(runtime::server_path(dir@, config.name@, ".log"@)),
            None => Some(runtime::server_path(runtime_dir, config.name@, ".log"@)),
        }
    }
}

/// Decides where the server writes its log.
pub fn log_file(config: &ServerConfig, runtime_dir: &str) -> (path: Option<String>)
    ensures
        text::optional(path) == log_file_of(*config, runtime_dir@),
{
    if !config.log {
        return None;
    }
    match &config.log_dir {
        Some(dir) => Some(runtime::log_path(dir.as_str(), config.name.as_str())),
        None => Some(runtime::log_path(runtime_dir, config.name.as_str())),
    }
}

/// Where the server listens: at the path of the configuration, or else in the
/// runtime directory.
pub open spec fn socket_of(config: ServerConfig, runtime_dir: Seq<char>) -> Seq<char> {
    match config.socket_path {
        Some(path) => path@,
        None => runtime::server_path(runtime_dir, config.name@, ".sock"@),
    }
}

/// Decides where the server listens.
pub fn socket_file(config: &ServerConfig, runtime_dir: &str) -> (path: String)
    ensures
        path@ == socket_of(*config, runtime_dir@),
{
    match &config.socket_path {
        Some(path) => path.clone(),
        None => runtime::socket_path(runtime_dir, config.name.as_str()),
    }
}

/// Copies an optional text.
fn clone_text(value: &Option<String>) -> (copy: Option<String>)
    ensures
        copy == *value,
{
    match value {
        Some(text) => Some(text.clone()),
        None => None,
    }
}

/// Makes the state file of a server that is starting.
pub fn state_file(
    config: &ServerConfig,
    transport: &Transport,
    runtime_dir: &str,
    pid: u32,
    pty_device: Option<String>,
    started_at: String,
) -> (state: ServerStateFile)
    ensures
        state.name@ == config.name@,
        state.pid == pid,
        state.port@ == port_label_of(*transport),
        state.baudrate == config.baudrate,
        state.socket@ == socket_of(*config, runtime_dir@),
        text::optional(state.log_file) == log_file_of(*config, runtime_dir@),
        state.pty_device == pty_device,
        state.started_at == started_at,
        state.listen == config.listen,
{
    ServerStateFile {
        name: config.name.clone(),
        pid,
        port: port_label(transport),
        baudrate: config.baudrate,
        socket: socket_file(config, runtime_dir),
        log_file: log_file(config, runtime_dir),
        pty_device,
        started_at,
        listen: clone_text(&config.listen),
    }
}

/// Makes what the clients of a starting server can ask about.
pub fn client_context(config: &ServerConfig, transport: &Transport, runtime_dir: &str) -> (ctx:
    ClientContext)
    ensures
        ctx.port@ == port_label_of(*transport),
        ctx.baudrate == config.baudrate,
        ctx.serial_connected,
        text::optional(ctx.log_file) == log_file_of(*config, runtime_dir@),
{
    ClientContext {
        port: port_label(transport),
        baudrate: config.baudrate,
        serial_connected: true,
        client_count: Arc::new(AtomicUsize::new(0)),
        log_file: log_file(config, runtime_dir),
    }
}

/// What becomes of the serial port when it cannot be opened at the start.
#[derive(Debug, Clone, Copy, PartialEq, Eq, Structural)]
pub enum OpenFallback {
    /// It is tried again, and read from once it opens.
    Reconnect,
    /// What clients write is dropped.
    WritesDisabled,
}

/// Decides what becomes of a serial port that cannot be opened at the start.
pub fn open_fallback(config: &ServerConfig) -> (fallback: OpenFallback)
    ensures
        fallback == (if config.reconnect {
            OpenFallback::Reconnect
        } else {
            OpenFallback::WritesDisabled
        }),
{
    if config.reconnect {
        OpenFallback::Reconnect
    } else {
        OpenFallback::WritesDisabled
    }
}

/// The files that a server removes when it stops, in order: the links to its
/// terminal, its state file and its socket.
pub open spec fn leftovers(config: ServerConfig, runtime_dir: Seq<char>) -> Seq<Seq<char>> {
    let default_link = if config.pty {
        seq![runtime::server_path(runtime_dir, config.name@, ".pty"@)]
    } else {
        seq![]
    };
    let link = match config.pty_link {
        Some(path) => seq![path@],
        None => seq![],
    };
    default_link + link + seq![
        runtime::server_path(runtime_dir, config.name@, ".json"@),
        runtime::server_path(runtime_dir, config.name@, ".sock"@),
    ]
}

/// Lists the files that a server removes when it stops.
pub fn shutdown_files(config: &ServerConfig, runtime_dir: &str) -> (paths: Vec<String>)
    ensures
        text::texts(paths@) == leftovers(*config, runtime_dir@),
{
    let mut paths: Vec<String> = Vec::new();
    if config.pty {
        paths.push(runtime::pty_path(runtime_dir, config.name.as_str()));
    }
    match &config.pty_link {
        Some(link) => {
            paths.push(link.clone());
        },
        None => {},
    }
    let (state_path, socket_path) = state::cleanup_paths(runtime_dir, config.name.as_str());
    paths.push(state_path);
    paths.push(socket_path);
    assert(text::texts(paths@) == leftovers(*config, runtime_dir@));
    paths
}

/// What a server sets up when it starts.
pub struct ServerPlan {
    /// How it talks to its device.
    pub transport: Transport,
    /// The directory to create for the log.
    pub log_dir: Option<String>,
    /// The log to write.
    pub log_file: Option<String>,
    /// Where clients connect.
    pub socket: String,
    /// Where else clients connect, over TCP.
    pub listen: Option<String>,
    /// The links to a pseudo terminal; without one there are none.
    pub pty_links: Vec<String>,
    /// Whether the user gets a console, and whether it shows timestamps.
    pub console: Option<bool>,
    /// What happens when the device is not there at the start.
    pub fallback: OpenFallback,
}

/// The links to a server's pseudo terminal: one in the runtime directory, and
/// one where the configuration says.
pub open spec fn pty_links_of(config: ServerConfig, runtime_dir: Seq<char>) -> Seq<Seq<char>> {
    if !config.pty {
        seq![]
    } else {
        let default_link = runtime::server_path(runtime_dir, config.name@, ".pty"@);
        match config.pty_link {
            Some(link) => seq![default_link, link@],
            None => seq![default_link],
        }
    }
}

/// Decides what a server sets up. A configuration that names no device, or
/// two, gives no plan.
pub fn plan_server(config: &ServerConfig, runtime_dir: &str) -> (planned: Option<ServerPlan>)
    ensures
        planned is None <==> config.port is Some == config.tcp is Some,
        planned matches Some(plan) ==> {
            &&& match plan.transport {
                Transport::Serial { port, baudrate } => config.port == Some(port) && baudrate
                    == config.baudrate,
                Transport::Tcp { addr } => config.tcp == Some(addr),
            }
            &&& plan.log_dir == (if config.log {
                config.log_dir
            } else {
                None
            })
            &&& text::optional(plan.log_file) == log_file_of(*config, runtime_dir@)
            &&& plan.socket@ == socket_of(*config, runtime_dir@)
            &&& plan.listen == config.listen
            &&& text::texts(plan.pty_links@) == pty_links_of(*config, runtime_dir@)
            &&& plan.console == (if config.interactive {
                Some(config.timestamps)
            } else {
                None
            })
            &&& plan.fallback == (if config.reconnect {
                OpenFallback::Reconnect
            } else {
                OpenFallback::WritesDisabled
            })
        },
{
    let transport = match transport(config) {
        Some(transport) => transport,
        None => {
            return None;
        },
    };
    let log_dir = if config.log {
        clone_text(&config.log_dir)
    } else {
        None
    };
    let mut pty_links: Vec<String> = Vec::new();
    if config.pty {
        pty_links.push(runtime::pty_path(runtime_dir, config.name.as_str()));
        match &config.pty_link {
            Some(link) => {
                pty_links.push(link.clone());
            },
            None => {},
        }
    }
    assert(text::texts(pty_links@) == pty_links_of(*config, runtime_dir@));
    Some(
        ServerPlan {
            transport,
            log_dir,
            log_file: log_file(config, runtime_dir),
            socket: socket_file(config, runtime_dir),
            listen: clone_text(&config.listen),
            pty_links,
            console: if config.interactive {
                Some(config.timestamps)
            } else {
                None
            },
            fallback: open_fallback(config),
        },
    )
}

/// Every link to its pseudo terminal that a server makes, it removes again.
pub proof fn links_are_removed(config: ServerConfig, runtime_dir: Seq<char>)
    ensures
        forall|i: int|
            0 <= i < pty_links_of(config, runtime_dir).len() ==> leftovers(
                config,
                runtime_dir,
            ).contains(#[trigger] pty_links_of(config, runtime_dir)[i]),
{
    let links = pty_links_of(config, runtime_dir);
    let gone = leftovers(config, runtime_dir);
    assert forall|i: int| 0 <= i < links.len() implies gone.contains(#[trigger] links[i]) by {
        assert(gone[i] == links[i]);
    }
}

/// What a listener gets from the serial data that the server fans out.
pub enum Received<'a> {
    /// Data.
    Data(&'a [u8]),
    /// The listener was too slow, and so many messages are gone.
    Lagged(u64),
    /// There will be no more data.
    Closed,
}

/// What is done for a listener.
#[derive(Debug, Clone, PartialEq)]
pub enum Delivery {
    /// It gets these bytes.
    Deliver(Vec<u8>),
    /// It goes on without.
    Skip,
    /// It is cut off.
    Stop,
}

/// What a [`Delivery`] says.
pub enum Delivered {
    Deliver(Seq<u8>),
    Skip,
    Stop,
}

impl View for Delivery {
    type V = Delivered;

    open spec fn view(&self) -> Delivered {
        match *self {
            Delivery::Deliver(bytes) => Delivered::Deliver(bytes@),
            Delivery::Skip => Delivered::Skip,
            Delivery::Stop => Delivered::Stop,
        }
    }
}

/// What a client gets: the data in its wire format. A client that is too slow
/// is disconnected.
pub fn deliver_to_client(received: Received) -> (delivery: Delivery)
    ensures
        delivery@ == (match received {
            Received::Data(data) => Delivered::Deliver(encode::escaped(data@)),
            Received::Lagged(_) => Delivered::Stop,
            Received::Closed => Delivered::Stop,
        }),
{
    match received {
        Received::Data(data) => Delivery::Deliver(encode::encode_data(data)),
        Received::Lagged(_) => Delivery::Stop,
        Received::Closed => Delivery::Stop,
    }
}

/// What the console or the pseudo terminal gets: the data as it is. It goes
/// on when it has been too slow.
pub fn deliver_raw(received: Received) -> (delivery: Delivery)
    ensures
        delivery@ == (match received {
            Received::Data(data) => Delivered::Deliver(data@),
            Received::Lagged(_) => Delivered::Skip,
            Received::Closed => Delivered::Stop,
        }),
{
    match received {
        Received::Data(data) => Delivery::Deliver(vstd::slice::slice_to_vec(data)),
        Received::Lagged(_) => Delivery::Skip,
        Received::Closed => Delivery::Stop,
    }
}

/// What the log gets: the lines that the data completes. It goes on when it
/// has been too slow.
pub fn deliver_to_log(lines: &mut LogLines, received: Received) -> (delivery: Delivery)
    ensures
        match received {
            Received::Data(data) => {
                &&& final(lines)@ == log_writer::waiting(old(lines)@, data@)
                &&& exists|stamps: Seq<Seq<char>>|
                    #[trigger] log_writer::stamps_for(
                        stamps,
                        log_writer::completed(old(lines)@, data@).len(),
                    ) && delivery@ == Delivered::Deliver(
                        log_writer::log_entries(
                            stamps,
                            log_writer::completed(old(lines)@, data@),
                        ),
                    )
            },
            Received::Lagged(_) => final(lines)@ == old(lines)@ && delivery@ == Delivered::Skip,
            Received::Closed => final(lines)@ == old(lines)@ && delivery@ == Delivered::Stop,
        },
{
    match received {
        Received::Data(data) => Delivery::Deliver(lines.accept(data)),
        Received::Lagged(_) => Delivery::Skip,
        Received::Closed => Delivery::Stop,
    }
}

/// A serial port is given as it is named. An address is given whole, behind its
/// scheme.
pub proof fn labels_name_the_device(transport: Transport)
    ensures
        match transport {
            Transport::Serial { port, .. } => port_label_of(transport) == port@,
            Transport::Tcp { addr } => {
                &&& port_label_of(transport).len() == 6 + addr@.len()
                &&& port_label_of(transport).take(6) == seq!['t', 'c', 'p', ':', '/', '/']
                &&& port_label_of(transport).skip(6) == addr@
            },
        },
{
    reveal_strlit("tcp://");
    if let Transport::Tcp { addr } = transport {
        let label = port_label_of(transport);
        assert(label.take(6) == seq!['t', 'c', 'p', ':', '/', '/']);
        assert(label.skip(6) == addr@);
    }
}

/// A name that stands for a file in a directory.
pub open spec fn names_a_file(dir: Seq<char>, name: Seq<char>) -> bool {
    dir.len() > 0 && dir.last() != '/' && name.len() > 0 && name[0] != '/'
}

proof fn file_in(dir: Seq<char>, name: Seq<char>, suffix: Seq<char>)
    requires
        names_a_file(dir, name),
    ensures
        runtime::server_path(dir, name, suffix) == dir + seq!['/'] + name + suffix,
{
    let file = name + suffix;
    assert(file[0] == name[0]);
    runtime::paths_are_directory_and_name(dir, file);
    assert(dir + seq!['/'] + file == dir + seq!['/'] + name + suffix);
}

/// A server writes a log if it is told to. The log has the server's name, and
/// stands where the configuration says, or else in the runtime directory.
pub proof fn logs_are_named_after_their_server(config: ServerConfig, runtime_dir: Seq<char>)
    ensures
        log_file_of(config, runtime_dir) is Some <==> config.log,
        ({
            let dir = match config.log_dir {
                Some(dir) => dir@,
                None => runtime_dir,
            };
            config.log && names_a_file(dir, config.name@) ==> log_file_of(config, runtime_dir)
                == Some(dir + seq!['/'] + config.name@ + ".log"@)
        }),
{
    let dir = match config.log_dir {
        Some(dir) => dir@,
        None => runtime_dir,
    };
    if config.log && names_a_file(dir, config.name@) {
        file_in(dir, config.name@, ".log"@);
    }
}

/// A server listens where the configuration says, or else at a socket with its
/// name in the runtime directory.
pub proof fn sockets_are_named_after_their_server(config: ServerConfig, runtime_dir: Seq<char>)
    ensures
        config.socket_path matches Some(path) ==> socket_of(config, runtime_dir) == path@,
        config.socket_path is None && names_a_file(runtime_dir, config.name@) ==> socket_of(
            config,
            runtime_dir,
        ) == runtime_dir + seq!['/'] + config.name@ + ".sock"@,
{
    if names_a_file(runtime_dir, config.name@) {
        file_in(runtime_dir, config.name@, ".sock"@);
    }
}

/// A server with a pseudo terminal links to it in the runtime directory, and
/// where the configuration says; one without links to nothing.
pub proof fn terminals_are_linked(config: ServerConfig, runtime_dir: Seq<char>, path: Seq<char>)
    requires
        names_a_file(runtime_dir, config.name@),
    ensures
        pty_links_of(config, runtime_dir).contains(path) <==> config.pty && (path == runtime_dir
            + seq!['/'] + config.name@ + ".pty"@ || (config.pty_link is Some
            && config.pty_link->0@ == path)),
        config.pty ==> pty_links_of(config, runtime_dir)[0] == runtime_dir + seq!['/']
            + config.name@ + ".pty"@,
{
    file_in(runtime_dir, config.name@, ".pty"@);
    let links = pty_links_of(config, runtime_dir);
    if config.pty {
        assert(links.contains(links[0]));
        if config.pty_link is Some {
            assert(links.contains(links[1]));
        }
    }
}

/// A server that stops removes its state file, its socket and the links to its
/// terminal, and nothing else.
pub proof fn only_its_own_files_are_removed(
    config: ServerConfig,
    runtime_dir: Seq<char>,
    path: Seq<char>,
)
    requires
        names_a_file(runtime_dir, config.name@),
    ensures
        ({
            let own = runtime_dir + seq!['/'] + config.name@;
            let gone = leftovers(config, runtime_dir);
            &&& gone.contains(path) <==> path == own + ".json"@ || path == own + ".sock"@ || (
            config.pty && path == own + ".pty"@) || (config.pty_link is Some
                && config.pty_link->0@ == path)
            &&& gone.last() == own + ".sock"@
            &&& gone[gone.len() - 2] == own + ".json"@
        }),
{
    let name = config.name@;
    file_in(runtime_dir, name, ".json"@);
    file_in(runtime_dir, name, ".sock"@);
    file_in(runtime_dir, name, ".pty"@);
    let gone = leftovers(config, runtime_dir);
    let n = gone.len() as int;
    assert(gone.contains(gone[n - 1]));
    assert(gone.contains(gone[n - 2]));
    assert(gone.contains(gone[0]));
    if config.pty_link is Some {
        assert(gone.contains(gone[n - 3]));
        assert(gone[n - 3] == config.pty_link->0@);
    }
}

/// A server talks to the one device that its configuration names; one that names
/// none, or two, gives none.
pub proof fn the_named_device_is_used(config: &ServerConfig, chosen: Option<Transport>)
    requires
        call_ensures(transport, (config,), chosen),
    ensures
        chosen is Some <==> (config.port is Some) != (config.tcp is Some),
        chosen is Some && config.port is Some ==> chosen->0 == (Transport::Serial {
            port: config.port->0,
            baudrate: config.baudrate,
        }),
        chosen is Some && config.tcp is Some ==> chosen->0 == (Transport::Tcp {
            addr: config.tcp->0,
        }),
{
}

/// The state file says of a server what is so.
pub proof fn state_files_describe_their_server(
    config: &ServerConfig,
    transport: &Transport,
    runtime_dir: &str,
    pid: u32,
    pty_device: Option<String>,
    started_at: String,
    state: ServerStateFile,
)
    requires
        call_ensures(
            state_file,
            (config, transport, runtime_dir, pid, pty_device, started_at),
            state,
        ),
        names_a_file(runtime_dir@, config.name@),
    ensures
        state.name@ == config.name@,
        state.pid == pid,
        state.baudrate == config.baudrate,
        state.pty_device == pty_device,
        state.started_at == started_at,
        state.listen == config.listen,
        transport matches Transport::Serial { port, .. } ==> state.port@ == port@,
        transport matches Transport::Tcp { addr } ==> state.port@ == "tcp://"@ + addr@,
        config.socket_path matches Some(path) ==> state.socket@ == path@,
        config.socket_path is None ==> state.socket@ == runtime_dir@ + seq!['/'] + config.name@
            + ".sock"@,
        state.log_file is Some <==> config.log,
        config.log && config.log_dir is None ==> state.log_file->0@ == runtime_dir@ + seq!['/']
            + config.name@ + ".log"@,
{
    sockets_are_named_after_their_server(*config, runtime_dir@);
    logs_are_named_after_their_server(*config, runtime_dir@);
}

/// What clients can ask about a server is what is so, with its device connected.
pub proof fn clients_are_told_what_is_so(
    config: &ServerConfig,
    transport: &Transport,
    runtime_dir: &str,
    ctx: ClientContext,
)
    requires
        call_ensures(client_context, (config, transport, runtime_dir), ctx),
    ensures
        transport matches Transport::Serial { port, .. } ==> ctx.port@ == port@,
        transport matches Transport::Tcp { addr } ==> ctx.port@ == "tcp://"@ + addr@,
        ctx.baudrate == config.baudrate,
        ctx.serial_connected,
        ctx.log_file is Some <==> config.log,
{
    logs_are_named_after_their_server(*config, runtime_dir@);
}

/// A plan sets up what the configuration asks for.
pub proof fn plans_follow_the_configuration(
    config: &ServerConfig,
    runtime_dir: &str,
    planned: Option<ServerPlan>,
)
    requires
        call_ensures(plan_server, (config, runtime_dir), planned),
    ensures
        planned is Some <==> (config.port is Some) != (config.tcp is Some),
        planned is Some ==> {
            let plan = planned->0;
            &&& config.port is Some ==> plan.transport == (Transport::Serial {
                port: config.port->0,
                baudrate: config.baudrate,
            })
            &&& config.tcp is Some ==> plan.transport == (Transport::Tcp { addr: config.tcp->0 })
            &&& plan.log_file is Some <==> config.log
            &&& config.log ==> plan.log_dir == config.log_dir
            &&& !config.log ==> plan.log_dir is None
            &&& config.socket_path matches Some(path) ==> plan.socket@ == path@
            &&& plan.listen == config.listen
            &&& plan.pty_links@.len() == (if !config.pty {
                0int
            } else if config.pty_link is Some {
                2int
            } else {
                1int
            })
            &&& plan.console == (if config.interactive {
                Some(config.timestamps)
            } else {
                None
            })
            &&& plan.fallback == OpenFallback::Reconnect <==> config.reconnect
        },
{
    logs_are_named_after_their_server(*config, runtime_dir@);
    if planned is Some {
        assert(text::texts(planned->0.pty_links@).len() == planned->0.pty_links@.len());
    }
}

/// A client gets all of the data, in order, and is cut off when it was too slow.
pub proof fn clients_get_all_data_or_are_cut_off(
    data: &[u8],
    missed: u64,
    delivery: Delivery,
)
    ensures
        call_ensures(deliver_to_client, (Received::Data(data),), delivery) ==> delivery is Deliver
            && parser::run(parser::State::Normal, delivery->Deliver_0@) == (
            parser::State::Normal,
            data@.map_values(|b: u8| parser::Event::DataByte(b)),
        ),
        call_ensures(deliver_to_client, (Received::Lagged(missed),), delivery) ==> delivery is Stop,
        call_ensures(deliver_to_client, (Received::Closed,), delivery) ==> delivery is Stop,
{
    encode::data_round_trip(data@);
    if call_ensures(deliver_to_client, (Received::Data(data),), delivery) {
        assert(delivery@ == Delivered::Deliver(encode::escaped(data@)));
    }
    if call_ensures(deliver_to_client, (Received::Lagged(missed),), delivery) {
        assert(delivery@ == Delivered::Stop);
    }
    if call_ensures(deliver_to_client, (Received::Closed,), delivery) {
        assert(delivery@ == Delivered::Stop);
    }
}

/// The console and the pseudo terminal get the data as it is, and go on when they
/// were too slow.
pub proof fn consoles_get_the_data_as_it_is(data: &[u8], missed: u64, delivery: Delivery)
    ensures
        call_ensures(deliver_raw, (Received::Data(data),), delivery) ==> delivery is Deliver
            && delivery->Deliver_0@ == data@,
        call_ensures(deliver_raw, (Received::Lagged(missed),), delivery) ==> delivery is Skip,
        call_ensures(deliver_raw, (Received::Closed,), delivery) ==> delivery is Stop,
{
    if call_ensures(deliver_raw, (Received::Data(data),), delivery) {
        assert(delivery@ == Delivered::Deliver(data@));
    }
    if call_ensures(deliver_raw, (Received::Lagged(missed),), delivery) {
        assert(delivery@ == Delivered::Skip);
    }
    if call_ensures(deliver_raw, (Received::Closed,), delivery) {
        assert(delivery@ == Delivered::Stop);
    }
}

/// The log loses nothing that it gets: the lines that it writes and what waits are
/// all of the data, without its carriage returns.
pub proof fn the_log_loses_nothing(data: &[u8], delivery: Delivery)
    ensures
        forall|lines: &mut LogLines| #[trigger]
            call_ensures(deliver_to_log, (lines, Received::Data(data)), delivery) ==> delivery
                is Deliver && log_writer::completed(lines@, data@).map_values(
                |l: Seq<u8>| l.push(10),
            ).flatten() + final(lines)@ == lines@ + data@.filter(|b: u8| b != 13) && exists|
                stamps: Seq<Seq<char>>,
            |
                #![trigger stamps.len()]
                stamps.len() == log_writer::completed(lines@, data@).len()
                    && delivery->Deliver_0@ == Seq::new(
                    stamps.len(),
                    |i: int|
                        encode_utf8(stamps[i]) + log_writer::completed(lines@, data@)[i].push(10),
                ).flatten(),
{
    assert forall|lines: &mut LogLines| #[trigger]
        call_ensures(deliver_to_log, (lines, Received::Data(data)), delivery) implies delivery
        is Deliver && log_writer::completed(lines@, data@).map_values(
        |l: Seq<u8>| l.push(10),
    ).flatten() + final(lines)@ == lines@ + data@.filter(|b: u8| b != 13) && exists|
        stamps: Seq<Seq<char>>,
    |
        #![trigger stamps.len()]
        stamps.len() == log_writer::completed(lines@, data@).len() && delivery->Deliver_0@
            == Seq::new(
            stamps.len(),
            |i: int| encode_utf8(stamps[i]) + log_writer::completed(lines@, data@)[i].push(10),
        ).flatten() by {
        let found = log_writer::completed(lines@, data@);
        let stamps = choose|stamps: Seq<Seq<char>>|
            #[trigger] log_writer::stamps_for(stamps, found.len()) && delivery@
                == Delivered::Deliver(log_writer::log_entries(stamps, found));
        assert(log_writer::stamps_for(stamps, found.len()) && delivery@ == Delivered::Deliver(
            log_writer::log_entries(stamps, found),
        ));
        log_writer::the_log_keeps_what_was_sent(lines@, data@);
        log_writer::the_log_is_its_entries(stamps, found);
        assert(stamps.len() == found.len());
    }
}

/// A log that was too slow goes on with what waits.
pub proof fn a_slow_log_goes_on(missed: u64, delivery: Delivery)
    ensures
        forall|lines: &mut LogLines| #[trigger]
            call_ensures(deliver_to_log, (lines, Received::Lagged(missed)), delivery) ==> delivery
                is Skip && final(lines)@ == lines@,
        forall|lines: &mut LogLines| #[trigger]
            call_ensures(deliver_to_log, (lines, Received::Closed), delivery) ==> delivery is Stop
                && final(lines)@ == lines@,
{
    assert(delivery@ is Skip <==> delivery is Skip);
    assert(delivery@ is Stop <==> delivery is Stop);
}

} // verus!

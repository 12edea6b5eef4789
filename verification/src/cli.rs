//! The commands of the program: their arguments, checks and reports.

use crate::runtime;
use crate::text;
use crate::types::{ServerConfig, ServerStateFile};
use vstd::prelude::*;

verus! {

/// Arguments for starting a server.
#[derive(Debug, Clone, PartialEq)]
pub struct ServerArgs {
    /// Name for this server instance
    pub name: String,
    /// Serial port device path
    pub port: Option<String>,
    /// TCP socket address (host:port)
    pub tcp: Option<String>,
    /// Baud rate
    pub baudrate: u32,
    /// Disable logging to file (logging enabled by default)
    pub no_log: bool,
    /// Directory for log files (default: runtime dir)
    pub log_dir: Option<String>,
    /// Disable interactive mode (interactive by default)
    pub no_interactive: bool,
    /// Create a virtual serial port (PTY)
    pub pty: bool,
    /// Symlink path for the PTY device
    pub pty_link: Option<String>,
    /// Disable auto-reconnect on serial port errors
    pub no_reconnect: bool,
    /// Show timestamps on output lines
    pub timestamps: bool,
    /// Disable timestamps on output lines
    pub no_timestamps: bool,
}

/// Arguments for asking for the status of a server.
#[derive(Debug, Clone, PartialEq)]
pub struct StatusArgs {
    /// Name of the server to query
    pub name: String,
}

/// A character that a server name may hold.
pub open spec fn is_name_char(c: char) -> bool {
    ||| 'a' <= c <= 'z'
    ||| 'A' <= c <= 'Z'
    ||| '0' <= c <= '9'
    ||| c == '-'
    ||| c == '_'
}

/// A name that is safe for use in file paths.
pub open spec fn is_valid_name(name: Seq<char>) -> bool {
    &&& name.len() > 0
    &&& forall|i: int| 0 <= i < name.len() ==> is_name_char(#[trigger] name[i])
}

/// Why a name is refused, if it is.
pub open spec fn name_error(name: Seq<char>) -> Option<Seq<char>> {
    if name.len() == 0 {
        Some("server name cannot be empty"@)
    } else if !is_valid_name(name) {
        Some(
            "server name must contain only alphanumeric characters, hyphens, and underscores"@,
        )
    } else {
        None
    }
}

/// Validate that a server name is safe for use in file paths.
pub fn validate_name(name: &str) -> (valid: Result<(), String>)
    ensures
        match valid {
            Ok(_) => name_error(name@) is None,
            Err(message) => name_error(name@) == Some(message@),
        },
        valid is Ok <==> is_valid_name(name@),
{
    let chars = text::characters(name);
    if chars.len() == 0 {
        return Err("server name cannot be empty".to_owned());
    }
    for i in 0..chars.len()
        invariant
            chars@ == name@,
            name@.len() > 0,
            forall|j: int| 0 <= j < i ==> is_name_char(#[trigger] name@[j]),
    {
        let c = chars[i];
        if !(('a' <= c && c <= 'z') || ('A' <= c && c <= 'Z') || ('0' <= c && c <= '9') || c == '-'
            || c == '_') {
            assert(!is_name_char(name@[i as int]));
            return Err(
                "server name must contain only alphanumeric characters, hyphens, and underscores".to_owned(),
            );
        }
    }
    Ok(())
}

/// A server whose name was accepted keeps its files in the runtime directory:
/// no name leads out of it.
pub proof fn accepted_names_stay_in_the_directory(
    dir: Seq<char>,
    name: Seq<char>,
    suffix: Seq<char>,
)
    requires
        is_valid_name(name),
        dir.len() > 0,
        dir.last() != '/',
        runtime::slash_free(suffix),
    ensures
        runtime::parent(runtime::server_path(dir, name, suffix)) == dir,
{
    assert forall|i: int| 0 <= i < name.len() implies #[trigger] name[i] != '/' by {
        assert(is_name_char(name[i]));
    }
    runtime::server_files_share_their_directory(dir, name, suffix);
}

/// Whether output lines get timestamps: as the flags say, and without flags
/// if the output is not a terminal.
pub open spec fn timestamps_wanted(
    timestamps: bool,
    no_timestamps: bool,
    stdout_is_terminal: bool,
) -> bool {
    timestamps || (!no_timestamps && !stdout_is_terminal)
}

/// Decides whether output lines get timestamps.
pub fn resolve_timestamps(
    timestamps: bool,
    no_timestamps: bool,
    stdout_is_terminal: bool,
) -> (wanted: bool)
    ensures
        wanted == timestamps_wanted(timestamps, no_timestamps, stdout_is_terminal),
{
    if timestamps {
        true
    } else if no_timestamps {
        false
    } else {
        !stdout_is_terminal
    }
}

/// Why a server cannot be started with these arguments, if it cannot.
pub open spec fn server_args_error(args: ServerArgs) -> Option<Seq<char>> {
    match name_error(args.name@) {
        Some(message) => Some(message),
        None => if args.port is None && args.tcp is None {
            Some("either --port or --tcp must be specified"@)
        } else if args.port is Some && args.tcp is Some {
            Some("--port and --tcp are mutually exclusive"@)
        } else {
            None
        },
    }
}

/// Makes the configuration of a server from its arguments.
pub fn server_config(args: ServerArgs, stdout_is_terminal: bool) -> (config: Result<
    ServerConfig,
    String,
>)
    ensures
        match config {
            Ok(c) => {
                &&& server_args_error(args) is None
                &&& c == ServerConfig {
                    name: args.name,
                    port: args.port,
                    tcp: args.tcp,
                    baudrate: args.baudrate,
                    log: !args.no_log,
                    log_dir: args.log_dir,
                    interactive: !args.no_interactive,
                    pty: args.pty,
                    pty_link: args.pty_link,
                    reconnect: !args.no_reconnect,
                    socket_path: None,
                    timestamps: timestamps_wanted(
                        args.timestamps,
                        args.no_timestamps,
                        stdout_is_terminal,
                    ),
                    listen: None,
                }
            },
            Err(message) => server_args_error(args) == Some(message@),
        },
{
    match validate_name(args.name.as_str()) {
        Ok(_) => {},
        Err(message) => {
            return Err(message);
        },
    }
    if args.port.is_none() && args.tcp.is_none() {
        return Err("either --port or --tcp must be specified".to_owned());
    }
    if args.port.is_some() && args.tcp.is_some() {
        return Err("--port and --tcp are mutually exclusive".to_owned());
    }
    Ok(
        ServerConfig {
            name: args.name,
            port: args.port,
            tcp: args.tcp,
            baudrate: args.baudrate,
            log: !args.no_log,
            log_dir: args.log_dir,
            interactive: !args.no_interactive,
            pty: args.pty,
            pty_link: args.pty_link,
            reconnect: !args.no_reconnect,
            socket_path: None,
            timestamps: resolve_timestamps(
                args.timestamps,
                args.no_timestamps,
                stdout_is_terminal,
            ),
            listen: None,
        },
    )
}

/// A file in the runtime directory: its extension and stem, what it holds if
/// it can be read as a state file, and whether the process that this names is
/// alive.
#[derive(Debug, Clone, PartialEq)]
pub struct ScannedFile {
    pub extension: Option<String>,
    pub stem: Option<String>,
    pub state: Option<ServerStateFile>,
    pub alive: bool,
}

/// Whether a file is a state file that can be read.
pub open spec fn is_state_file(file: ScannedFile) -> bool {
    file.state is Some && text::optional(file.extension) == Some("json"@)
}

/// The servers that are running, by the state files among some files.
pub open spec fn running_servers(files: Seq<ScannedFile>) -> Seq<ServerStateFile>
    decreases files.len(),
{
    if files.len() == 0 {
        seq![]
    } else {
        let before = running_servers(files.drop_last());
        let file = files.last();
        if is_state_file(file) && file.alive {
            before.push(file.state->0)
        } else {
            before
        }
    }
}

/// The names of the servers that left a state file behind.
pub open spec fn stale_servers(files: Seq<ScannedFile>) -> Seq<Seq<char>>
    decreases files.len(),
{
    if files.len() == 0 {
        seq![]
    } else {
        let before = stale_servers(files.drop_last());
        let file = files.last();
        if is_state_file(file) && !file.alive {
            before.push(
                match file.stem {
                    Some(name) => name@,
                    None => seq![],
                },
            )
        } else {
            before
        }
    }
}

/// What a scan of the runtime directory found: servers to show, and names of
/// servers to clean up after.
pub struct ServerScan {
    pub running: Vec<ServerStateFile>,
    pub stale: Vec<String>,
}

/// Whether a file has the extension of a state file.
pub fn has_state_extension(extension: &Option<String>) -> (has: bool)
    ensures
        has == (text::optional(*extension) == Some("json"@)),
{
    match extension {
        Some(extension) => text::same(extension.as_str(), "json"),
        None => false,
    }
}

/// What a file says about a server.
enum FileKind {
    Other,
    Running,
    Stale,
}

/// Tells what a file says about a server.
fn file_kind(file: &ScannedFile) -> (kind: FileKind)
    ensures
        match kind {
            FileKind::Other => !is_state_file(*file),
            FileKind::Running => is_state_file(*file) && file.alive,
            FileKind::Stale => is_state_file(*file) && !file.alive,
        },
{
    if !has_state_extension(&file.extension) || file.state.is_none() {
        FileKind::Other
    } else if file.alive {
        FileKind::Running
    } else {
        FileKind::Stale
    }
}

/// Finds the servers that are running, and those that are gone, by the files
/// in the runtime directory.
pub fn scan_servers(files: Vec<ScannedFile>) -> (scan: ServerScan)
    ensures
        scan.running@ == running_servers(files@),
        text::texts(scan.stale@) == stale_servers(files@),
{
    let ghost all = files@;
    let mut left = files;
    let mut running: Vec<ServerStateFile> = Vec::new();
    let mut stale: Vec<String> = Vec::new();
    let count: usize = left.len();
    assert(all.take(0) == Seq::<ScannedFile>::empty());
    assert(text::texts(stale@) == Seq::<Seq<char>>::empty());
    assert(all.skip(0) == all);
    for i in 0..count
        invariant
            count == all.len(),
            left@ == all.skip(i as int),
            running@ == running_servers(all.take(i as int)),
            text::texts(stale@) == stale_servers(all.take(i as int)),
    {
        let file = left.remove(0);
        proof {
            let next = all.take(i + 1);
            assert(next.drop_last() == all.take(i as int));
            assert(next.last() == file);
            assert(all.skip(i as int).remove(0) == all.skip(i + 1));
        }
        match file_kind(&file) {
            FileKind::Other => {},
            FileKind::Running => match file.state {
                Some(state) => {
                    running.push(state);
                },
                None => {},
            },
            FileKind::Stale => {
                let name = match file.stem {
                    Some(name) => name,
                    None => String::new(),
                };
                let ghost before = stale@;
                stale.push(name);
                assert(text::texts(stale@) == text::texts(before).push(name@));
            },
        }
    }
    assert(all.take(all.len() as int) == all);
    ServerScan { running, stale }
}

/// Every readable state file counts once: for a running server or for one
/// that is gone.
pub proof fn state_files_are_running_or_stale(files: Seq<ScannedFile>)
    ensures
        running_servers(files).len() + stale_servers(files).len() == files.filter(
            |file: ScannedFile| is_state_file(file),
        ).len(),
    decreases files.len(),
{
    let is_state = |file: ScannedFile| is_state_file(file);
    reveal(Seq::filter);
    if files.len() > 0 {
        state_files_are_running_or_stale(files.drop_last());
    }
}

/// A row of the server table.
pub open spec fn table_row(
    name: Seq<char>,
    pid: Seq<char>,
    port: Seq<char>,
    baud: Seq<char>,
    clients: Seq<char>,
) -> Seq<char> {
    text::padded(name, 15).push(' ') + text::padded(pid, 8).push(' ') + text::padded(port, 20).push(
        ' ',
    ) + text::padded(baud, 10).push(' ') + text::padded(clients, 8)
}

/// Writes a row of the server table.
fn write_row(name: &str, pid: &str, port: &str, baud: &str, clients: &str) -> (row: String)
    ensures
        row@ == table_row(name@, pid@, port@, baud@, clients@),
{
    let mut row = text::pad(name, 15);
    row.push(' ');
    let column = text::pad(pid, 8);
    row.append(column.as_str());
    row.push(' ');
    let column = text::pad(port, 20);
    row.append(column.as_str());
    row.push(' ');
    let column = text::pad(baud, 10);
    row.append(column.as_str());
    row.push(' ');
    let column = text::pad(clients, 8);
    row.append(column.as_str());
    assert(row@ == table_row(name@, pid@, port@, baud@, clients@));
    row
}

/// The row for a server. How many clients it has is not known from its state
/// file.
pub open spec fn server_row(state: ServerStateFile) -> Seq<char> {
    table_row(
        state.name@,
        text::decimal(state.pid as nat),
        state.port@,
        text::decimal(state.baudrate as nat),
        "-"@,
    )
}

/// So many dashes.
pub open spec fn dashes(count: nat) -> Seq<char> {
    Seq::new(count, |i: int| '-')
}

/// The lines of the server table: a notice if there is none, else a header, a
/// rule and a row for each server.
pub open spec fn list_lines(states: Seq<ServerStateFile>) -> Seq<Seq<char>> {
    if states.len() == 0 {
        seq!["No servers running."@]
    } else {
        seq![table_row("NAME"@, "PID"@, "PORT"@, "BAUD"@, "CLIENTS"@), dashes(65)]
            + states.map_values(|s: ServerStateFile| server_row(s))
    }
}

/// Writes the server table.
pub fn list_report(states: &Vec<ServerStateFile>) -> (lines: Vec<String>)
    ensures
        text::texts(lines@) == list_lines(states@),
{
    let mut lines: Vec<String> = Vec::new();
    if states.len() == 0 {
        lines.push("No servers running.".to_owned());
        assert(text::texts(lines@) == list_lines(states@));
        return lines;
    }
    lines.push(write_row("NAME", "PID", "PORT", "BAUD", "CLIENTS"));
    let mut rule = String::new();
    for i in 0..65usize
        invariant
            rule@ == dashes(i as nat),
    {
        rule.push('-');
        assert(dashes(i as nat).push('-') == dashes((i + 1) as nat));
    }
    lines.push(rule);
    let ghost head = seq![table_row("NAME"@, "PID"@, "PORT"@, "BAUD"@, "CLIENTS"@), dashes(65)];
    let ghost rows = states@.map_values(|s: ServerStateFile| server_row(s));
    assert(text::texts(lines@) == head + rows.take(0));
    for i in 0..states.len()
        invariant
            rows == states@.map_values(|s: ServerStateFile| server_row(s)),
            text::texts(lines@) == head + rows.take(i as int),
    {
        let state = &states[i];
        let pid = text::write_decimal(state.pid);
        let baud = text::write_decimal(state.baudrate);
        let row = write_row(
            state.name.as_str(),
            pid.as_str(),
            state.port.as_str(),
            baud.as_str(),
            "-",
        );
        let ghost before = lines@;
        lines.push(row);
        assert(text::texts(lines@) == text::texts(before).push(row@));
        assert(rows.take(i + 1) == rows.take(i as int).push(row@));
        assert(head + rows.take(i + 1) == (head + rows.take(i as int)).push(row@));
    }
    assert(rows.take(rows.len() as int) == rows);
    lines
}

/// Whether a server talks to its device over TCP, by the port in its state
/// file.
pub open spec fn is_tcp(port: Seq<char>) -> bool {
    text::starts_with(port, "tcp://"@)
}

/// The lines that describe a running server.
pub open spec fn status_lines(state: ServerStateFile) -> Seq<Seq<char>> {
    let head = seq![
        "Server: "@ + state.name@,
        "  PID:       "@ + text::decimal(state.pid as nat),
    ];
    let transport = if is_tcp(state.port@) {
        seq!["  Transport: "@ + state.port@]
    } else {
        seq![
            "  Port:      "@ + state.port@,
            "  Baud rate: "@ + text::decimal(state.baudrate as nat),
        ]
    };
    let common = seq![
        "  Socket:    "@ + state.socket@,
        "  Started:   "@ + state.started_at@,
    ];
    let log = match state.log_file {
        Some(path) => seq!["  Log file:  "@ + path@],
        None => seq![],
    };
    let pty = match state.pty_device {
        Some(path) => seq!["  PTY:       "@ + path@],
        None => seq![],
    };
    head + transport + common + log + pty + seq!["  Status:    running"@]
}

/// Adds a line made of a label and a value.
fn push_field(lines: &mut Vec<String>, label: &str, value: &str)
    ensures
        text::texts(final(lines)@) == text::texts(old(lines)@).push(label@ + value@),
{
    let mut line = label.to_owned();
    line.append(value);
    lines.push(line);
    assert(text::texts(lines@) == text::texts(old(lines)@).push(line@));
}

/// Describes a running server.
fn status_report(state: &ServerStateFile) -> (lines: Vec<String>)
    ensures
        text::texts(lines@) == status_lines(*state),
{
    let mut lines: Vec<String> = Vec::new();
    assert(text::texts(lines@) == Seq::<Seq<char>>::empty());
    push_field(&mut lines, "Server: ", state.name.as_str());
    let pid = text::write_decimal(state.pid);
    push_field(&mut lines, "  PID:       ", pid.as_str());
    if text::has_prefix(state.port.as_str(), "tcp://") {
        push_field(&mut lines, "  Transport: ", state.port.as_str());
    } else {
        push_field(&mut lines, "  Port:      ", state.port.as_str());
        let baud = text::write_decimal(state.baudrate);
        push_field(&mut lines, "  Baud rate: ", baud.as_str());
    }
    push_field(&mut lines, "  Socket:    ", state.socket.as_str());
    push_field(&mut lines, "  Started:   ", state.started_at.as_str());
    match &state.log_file {
        Some(path) => {
            push_field(&mut lines, "  Log file:  ", path.as_str());
        },
        None => {},
    }
    match &state.pty_device {
        Some(path) => {
            push_field(&mut lines, "  PTY:       ", path.as_str());
        },
        None => {},
    }
    push_field(&mut lines, "  Status:    running", "");
    assert("  Status:    running"@ + ""@ == "  Status:    running"@) by {
        reveal_strlit("");
    }
    assert(text::texts(lines@) == status_lines(*state));
    lines
}

/// The answer to a request for the status of a server.
pub enum StatusOutcome {
    /// There is no such server.
    NotFound(String),
    /// The server is gone: clean up after it.
    Stale(String),
    /// The server is running, and this describes it.
    Running(Vec<String>),
}

/// Answers a request for the status of a server, given its state file and
/// whether the process it names is alive.
pub fn server_status(name: &str, state: Option<ServerStateFile>, alive: bool) -> (outcome:
    StatusOutcome)
    ensures
        match outcome {
            StatusOutcome::NotFound(message) => state is None && message@ == "server '"@ + name@
                + "' not found"@,
            StatusOutcome::Stale(message) => state is Some && !alive && message@ == "server '"@
                + name@ + "' is not running (stale state file cleaned up)"@,
            StatusOutcome::Running(lines) => state matches Some(s) && alive && text::texts(lines@)
                == status_lines(s),
        },
{
    let mut message = "server '".to_owned();
    message.append(name);
    match state {
        None => {
            message.append("' not found");
            StatusOutcome::NotFound(message)
        },
        Some(state) => {
            if !alive {
                message.append("' is not running (stale state file cleaned up)");
                StatusOutcome::Stale(message)
            } else {
                StatusOutcome::Running(status_report(&state))
            }
        },
    }
}

/// A name of letters, digits, hyphens and underscores is accepted, however long
/// it is; any other character, and an empty name, are refused.
pub proof fn names_are_accepted_by_their_characters(name: Seq<char>)
    ensures
        name_error(name) is None <==> name.len() > 0 && forall|i: int|
            0 <= i < name.len() ==> {
                let c = #[trigger] name[i];
                ('a' <= c <= 'z') || ('A' <= c <= 'Z') || ('0' <= c <= '9') || c == '-' || c == '_'
            },
        name.len() == 0 ==> name_error(name) == Some("server name cannot be empty"@),
        name.len() > 0 && name_error(name) is Some ==> name_error(name) == Some(
            "server name must contain only alphanumeric characters, hyphens, and underscores"@,
        ),
{
    if name.len() > 0 && !is_valid_name(name) {
        let i = choose|i: int| 0 <= i < name.len() && !is_name_char(#[trigger] name[i]);
        assert(!is_name_char(name[i]));
    }
}

/// A server needs a name and one device, named in one way.
pub proof fn a_server_needs_one_device(args: ServerArgs)
    requires
        name_error(args.name@) is None,
    ensures
        server_args_error(args) is None <==> (args.port is Some) != (args.tcp is Some),
        args.port is None && args.tcp is None ==> server_args_error(args) == Some(
            "either --port or --tcp must be specified"@,
        ),
        args.port is Some && args.tcp is Some ==> server_args_error(args) == Some(
            "--port and --tcp are mutually exclusive"@,
        ),
{
}

/// A flag for timestamps decides, the one for them first; without flags they
/// are shown where the output is no terminal.
pub proof fn timestamp_flags_decide(terminal: bool)
    ensures
        timestamps_wanted(true, false, terminal),
        timestamps_wanted(true, true, terminal),
        !timestamps_wanted(false, true, terminal),
        timestamps_wanted(false, false, terminal) == !terminal,
{
}

/// The servers that are listed are those of all the readable state files whose
/// process is alive, in order.
pub proof fn every_live_server_is_listed(files: Seq<ScannedFile>)
    ensures
        running_servers(files) == files.filter(
            |f: ScannedFile|
                f.state is Some && text::optional(f.extension) == Some("json"@) && f.alive,
        ).map_values(|f: ScannedFile| f.state->0),
        stale_servers(files) == files.filter(
            |f: ScannedFile|
                f.state is Some && text::optional(f.extension) == Some("json"@) && !f.alive,
        ).map_values(
            |f: ScannedFile|
                match f.stem {
                    Some(name) => name@,
                    None => seq![],
                },
        ),
    decreases files.len(),
{
    let live = |f: ScannedFile|
        f.state is Some && text::optional(f.extension) == Some("json"@) && f.alive;
    let gone = |f: ScannedFile|
        f.state is Some && text::optional(f.extension) == Some("json"@) && !f.alive;
    let state_of = |f: ScannedFile| f.state->0;
    let name_of = |f: ScannedFile|
        match f.stem {
            Some(name) => name@,
            None => seq![],
        };
    reveal(Seq::filter);
    if files.len() > 0 {
        let fewer = files.drop_last();
        let last = files.last();
        every_live_server_is_listed(fewer);
        if live(last) {
            assert(fewer.filter(live).push(last).map_values(state_of) == fewer.filter(
                live,
            ).map_values(state_of).push(state_of(last)));
        }
        if gone(last) {
            assert(fewer.filter(gone).push(last).map_values(name_of) == fewer.filter(
                gone,
            ).map_values(name_of).push(name_of(last)));
        }
    }
}

/// The table has a row for each server, in order, under a header and a rule;
/// without servers it says so.
pub proof fn every_server_has_its_row(states: Seq<ServerStateFile>)
    ensures
        states.len() == 0 ==> list_lines(states) == seq!["No servers running."@],
        states.len() > 0 ==> {
            &&& list_lines(states).len() == states.len() + 2
            &&& list_lines(states)[1].len() == 65
            &&& forall|i: int|
                0 <= i < states.len() ==> #[trigger] list_lines(states)[i + 2] == server_row(
                    states[i],
                )
        },
{
}

/// What fits its column stands in a row at the column's place.
pub proof fn rows_line_up(
    name: Seq<char>,
    pid: Seq<char>,
    port: Seq<char>,
    baud: Seq<char>,
    clients: Seq<char>,
)
    requires
        name.len() <= 15,
        pid.len() <= 8,
        port.len() <= 20,
        baud.len() <= 10,
        clients.len() <= 8,
    ensures
        ({
            let row = table_row(name, pid, port, baud, clients);
            &&& row.len() == 65
            &&& row.subrange(0, name.len() as int) == name
            &&& row.subrange(16, 16 + pid.len() as int) == pid
            &&& row.subrange(25, 25 + port.len() as int) == port
            &&& row.subrange(46, 46 + baud.len() as int) == baud
            &&& row.subrange(57, 57 + clients.len() as int) == clients
        }),
{
    text::columns_hold_their_text(name, 15);
    text::columns_hold_their_text(pid, 8);
    text::columns_hold_their_text(port, 20);
    text::columns_hold_their_text(baud, 10);
    text::columns_hold_their_text(clients, 8);
    let row = table_row(name, pid, port, baud, clients);
    assert(row.subrange(0, name.len() as int) == text::padded(name, 15).take(name.len() as int));
    assert(row.subrange(16, 16 + pid.len() as int) == text::padded(pid, 8).take(pid.len() as int));
    assert(row.subrange(25, 25 + port.len() as int) == text::padded(port, 20).take(port.len() as int));
    assert(row.subrange(46, 46 + baud.len() as int) == text::padded(baud, 10).take(baud.len() as int));
    assert(row.subrange(57, 57 + clients.len() as int) == text::padded(clients, 8).take(
        clients.len() as int,
    ));
}

/// A row holds the whole of each value, in order, also where one is longer than
/// its column.
pub proof fn rows_hold_their_values(state: ServerStateFile)
    ensures
        server_row(state) == text::padded(state.name@, 15) + seq![' '] + text::padded(
            text::decimal(state.pid as nat),
            8,
        ) + seq![' '] + text::padded(state.port@, 20) + seq![' '] + text::padded(
            text::decimal(state.baudrate as nat),
            10,
        ) + seq![' '] + text::padded("-"@, 8),
{
    let row = server_row(state);
    assert(row == text::padded(state.name@, 15) + seq![' '] + text::padded(
        text::decimal(state.pid as nat),
        8,
    ) + seq![' '] + text::padded(state.port@, 20) + seq![' '] + text::padded(
        text::decimal(state.baudrate as nat),
        10,
    ) + seq![' '] + text::padded("-"@, 8));
}

/// The description of a server has a line for each thing that is known of it,
/// with all of its value, and for nothing else.
pub proof fn a_status_tells_all_that_is_known(state: ServerStateFile)
    ensures
        ({
            let lines = status_lines(state);
            let tcp = text::starts_with(state.port@, "tcp://"@);
            let next: int = if tcp {
                3
            } else {
                4
            };
            let extra: int = (if state.log_file is Some {
                1int
            } else {
                0int
            }) + (if state.pty_device is Some {
                1int
            } else {
                0int
            });
            &&& lines.len() == next + 3 + extra
            &&& lines[0] == "Server: "@ + state.name@
            &&& lines[1] == "  PID:       "@ + text::decimal(state.pid as nat)
            &&& tcp ==> lines[2] == "  Transport: "@ + state.port@
            &&& !tcp ==> lines[2] == "  Port:      "@ + state.port@ && lines[3]
                == "  Baud rate: "@ + text::decimal(state.baudrate as nat)
            &&& lines[next] == "  Socket:    "@ + state.socket@
            &&& lines[next + 1] == "  Started:   "@ + state.started_at@
            &&& state.log_file matches Some(path) ==> lines[next + 2] == "  Log file:  "@ + path@
            &&& state.pty_device matches Some(path) ==> lines[lines.len() - 2]
                == "  PTY:       "@ + path@
            &&& lines.last() == "  Status:    running"@
        }),
{
}

/// The first complaint about a server's arguments is about its name.
pub proof fn names_come_first(args: ServerArgs)
    requires
        name_error(args.name@) is Some,
    ensures
        server_args_error(args) == name_error(args.name@),
{
}

/// Above the rows stand the names of the columns, and a rule.
pub proof fn tables_have_a_header(states: Seq<ServerStateFile>)
    requires
        states.len() > 0,
    ensures
        ({
            let header = list_lines(states)[0];
            let rule = list_lines(states)[1];
            &&& header.len() == 65
            &&& header.subrange(0, 4) == seq!['N', 'A', 'M', 'E']
            &&& header.subrange(16, 19) == seq!['P', 'I', 'D']
            &&& header.subrange(25, 29) == seq!['P', 'O', 'R', 'T']
            &&& header.subrange(46, 50) == seq!['B', 'A', 'U', 'D']
            &&& header.subrange(57, 64) == seq!['C', 'L', 'I', 'E', 'N', 'T', 'S']
            &&& rule.len() == 65
            &&& forall|i: int| 0 <= i < 65 ==> #[trigger] rule[i] == '-'
        }),
{
    reveal_strlit("NAME");
    reveal_strlit("PID");
    reveal_strlit("PORT");
    reveal_strlit("BAUD");
    reveal_strlit("CLIENTS");
    rows_line_up("NAME"@, "PID"@, "PORT"@, "BAUD"@, "CLIENTS"@);
    assert("NAME"@ == seq!['N', 'A', 'M', 'E']);
    assert("PID"@ == seq!['P', 'I', 'D']);
    assert("PORT"@ == seq!['P', 'O', 'R', 'T']);
    assert("BAUD"@ == seq!['B', 'A', 'U', 'D']);
    assert("CLIENTS"@ == seq!['C', 'L', 'I', 'E', 'N', 'T', 'S']);
}

/// A name is validated by its characters alone.
pub proof fn names_are_validated_by_their_characters(name: &str, valid: Result<(), String>)
    requires
        call_ensures(validate_name, (name,), valid),
    ensures
        valid is Ok <==> name@.len() > 0 && forall|i: int|
            0 <= i < name@.len() ==> {
                let c = #[trigger] name@[i];
                ('a' <= c <= 'z') || ('A' <= c <= 'Z') || ('0' <= c <= '9') || c == '-' || c == '_'
            },
{
    names_are_accepted_by_their_characters(name@);
}

/// A configuration has what the arguments say, with everything on that was not
/// turned off.
pub proof fn configurations_follow_the_arguments(
    args: ServerArgs,
    terminal: bool,
    config: Result<ServerConfig, String>,
)
    requires
        call_ensures(server_config, (args, terminal), config),
    ensures
        config is Ok <==> name_error(args.name@) is None && (args.port is Some) != (
        args.tcp is Some),
        config is Ok ==> {
            let c = config->Ok_0;
            &&& c.name == args.name
            &&& c.port == args.port
            &&& c.tcp == args.tcp
            &&& c.baudrate == args.baudrate
            &&& c.log == !args.no_log
            &&& c.log_dir == args.log_dir
            &&& c.interactive == !args.no_interactive
            &&& c.pty == args.pty
            &&& c.pty_link == args.pty_link
            &&& c.reconnect == !args.no_reconnect
            &&& c.socket_path is None
            &&& c.listen is None
            &&& args.timestamps ==> c.timestamps
            &&& !args.timestamps && args.no_timestamps ==> !c.timestamps
            &&& !args.timestamps && !args.no_timestamps ==> c.timestamps == !terminal
        },
        config is Err ==> Some(config->Err_0@) == server_args_error(args),
{
    if name_error(args.name@) is None {
        a_server_needs_one_device(args);
    } else {
        names_come_first(args);
    }
    timestamp_flags_decide(terminal);
}

/// A scan finds every server with a readable state file: it runs or it is stale.
pub proof fn scans_find_every_server(files: Vec<ScannedFile>, scan: ServerScan)
    requires
        call_ensures(scan_servers, (files,), scan),
    ensures
        scan.running@ == files@.filter(
            |f: ScannedFile|
                f.state is Some && text::optional(f.extension) == Some("json"@) && f.alive,
        ).map_values(|f: ScannedFile| f.state->0),
        text::texts(scan.stale@) == files@.filter(
            |f: ScannedFile|
                f.state is Some && text::optional(f.extension) == Some("json"@) && !f.alive,
        ).map_values(
            |f: ScannedFile|
                match f.stem {
                    Some(name) => name@,
                    None => seq![],
                },
        ),
{
    every_live_server_is_listed(files@);
}

/// A list has a line for each server, in order, behind the header and the rule.
pub proof fn lists_have_every_server(
    states: &Vec<ServerStateFile>,
    lines: Vec<String>,
    i: int,
)
    requires
        call_ensures(list_report, (states,), lines),
    ensures
        states@.len() == 0 ==> lines@.len() == 1 && lines@[0]@ == "No servers running."@,
        states@.len() > 0 ==> lines@.len() == states@.len() + 2,
        0 <= i < states@.len() ==> lines@[i + 2]@ == server_row(states@[i]),
{
    every_server_has_its_row(states@);
    let shown = text::texts(lines@);
    assert(shown.len() == lines@.len());
    if states@.len() == 0 {
        assert(shown[0] == lines@[0]@);
    }
    if 0 <= i < states@.len() {
        assert(shown[i + 2] == lines@[i + 2]@);
        assert(list_lines(states@)[i + 2] == server_row(states@[i]));
    }
}

/// A server without a state file is not found, one whose process is gone is stale,
/// and any other is described.
pub proof fn servers_are_found_stale_or_running(
    name: &str,
    state: Option<ServerStateFile>,
    alive: bool,
    outcome: StatusOutcome,
)
    requires
        call_ensures(server_status, (name, state, alive), outcome),
    ensures
        outcome is NotFound <==> state is None,
        outcome is Stale <==> state is Some && !alive,
        outcome is Running <==> state is Some && alive,
        outcome matches StatusOutcome::NotFound(message) ==> message@ == "server '"@ + name@
            + "' not found"@,
        outcome matches StatusOutcome::Stale(message) ==> message@ == "server '"@ + name@
            + "' is not running (stale state file cleaned up)"@,
        outcome matches StatusOutcome::Running(lines) ==> lines@.len() >= 6 && lines@[0]@
            == "Server: "@ + state->0.name@ && lines@.last()@ == "  Status:    running"@,
{
    if let StatusOutcome::Running(lines) = outcome {
        let shown = text::texts(lines@);
        a_status_tells_all_that_is_known(state->0);
        assert(shown.len() == lines@.len());
        assert(shown[0] == lines@[0]@);
        assert(shown[shown.len() - 1] == lines@[lines@.len() - 1]@);
    }
}

} // verus!

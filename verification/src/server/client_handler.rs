//! One client of the server: what its stream asks for, and the answers.

use crate::json::Member;
use crate::log_reader;
use crate::log_reader::{Goal, Wanted, NEWLINE};
use crate::pattern;
use crate::pattern::Pattern;
use crate::protocol::encode;
use crate::protocol::message;
use crate::protocol::message::{
    Control, ControlMessage, ErrorResponse, EventResponse, Response, ResponseMessage,
    ServerInfoResponse,
};
use crate::protocol::parser;
use crate::protocol::parser::{Event, MessageKind, ParseEvent, Parser, State};
use crate::server::log_writer;
use crate::server::log_writer::CARRIAGE_RETURN;
use crate::text;
use std::sync::atomic::AtomicUsize;
use std::sync::atomic::Ordering;
use std::sync::Arc;
use vstd::prelude::*;
use vstd::utf8::*;

verus! {

/// Shared server state that client handlers can query.
pub struct ClientContext {
    pub port: String,
    pub baudrate: u32,
    pub serial_connected: bool,
    pub client_count: Arc<AtomicUsize>,
    pub log_file: Option<String>,
}

/// What is at the place of the log file.
pub enum LogFile<'a> {
    /// No file.
    Missing,
    /// A file that holds these bytes.
    Content(&'a [u8]),
    /// A file that cannot be read, for this reason.
    Unreadable(String),
}

/// A number of clients as a response gives it.
pub open spec fn reported_clients(clients: usize) -> u32 {
    if clients > u32::MAX {
        u32::MAX
    } else {
        clients as u32
    }
}

/// What the server tells about itself.
pub open spec fn server_info(ctx: ClientContext, clients: usize) -> Response {
    Response::ServerInfo {
        serial: ctx.serial_connected,
        port: ctx.port@,
        baudrate: ctx.baudrate,
        clients: reported_clients(clients),
    }
}

/// A line of the log as a client sees it.
pub open spec fn display_line(line: Seq<char>, timestamps: bool) -> Seq<char> {
    (if timestamps {
        line
    } else {
        log_reader::stripped(line)
    }) + "\r\n"@
}

/// Lines of the log as the data that a client sees.
pub open spec fn history_data(lines: Seq<Seq<char>>, timestamps: bool) -> Seq<u8>
    decreases lines.len(),
{
    if lines.len() == 0 {
        seq![]
    } else {
        history_data(lines.drop_last(), timestamps) + encode_utf8(
            display_line(lines.last(), timestamps),
        )
    }
}

/// An answer to a client: data to show, and the response behind it.
pub struct Reply {
    pub data: Seq<u8>,
    pub response: Response,
}

/// An answer that shows nothing.
pub open spec fn plain_reply(response: Response) -> Reply {
    Reply { data: seq![], response }
}

/// The answer that reports an error.
pub open spec fn error(error: Seq<char>) -> Reply {
    plain_reply(Response::Error { error })
}

/// The answer to a history request: the lines as data, then the event that
/// marks their end.
pub open spec fn history(lines: Seq<Seq<char>>, timestamps: bool) -> Reply {
    Reply {
        data: history_data(lines, timestamps),
        response: Response::Event { event: "history_end"@ },
    }
}

/// An answer in its wire format.
pub open spec fn reply_wire(reply: Reply) -> Seq<u8> {
    encode::escaped(reply.data) + encode::response_wire(reply.response)
}

/// Whether bytes are an answer in its wire format. What a client parses out of
/// them is the data, then one response, and its text reads as the response
/// that it was; nothing of them is left over for what follows.
pub open spec fn carries(bytes: Seq<u8>, reply: Reply) -> bool {
    &&& bytes == reply_wire(reply)
    &&& parser::run(State::Normal, bytes) == (
        State::Normal,
        encode::data_events(reply.data).push(
            parser::message_event(
                MessageKind::Response,
                encode_utf8(message::response_json(reply.response)),
            ),
        ),
    )
    &&& message::written_as(message::response_json(reply.response), reply.response)
}

/// Encodes an answer.
fn encode_reply(data: &[u8], response: &ResponseMessage) -> (bytes: Vec<u8>)
    ensures
        carries(bytes@, (Reply { data: data@, response: response@ })),
{
    let mut bytes = encode::encode_data(data);
    let encoded = encode::encode_response(response);
    proof {
        encode::data_round_trip(data@);
        parser::chunks_add_up(State::Normal, bytes@, encoded@);
        let events = encode::data_events(data@);
        let last = parser::message_event(
            MessageKind::Response,
            encode_utf8(message::response_json(response@)),
        );
        assert(events + seq![last] == events.push(last));
    }
    bytes.extend_from_slice(encoded.as_slice());
    assert(bytes@ == encode::escaped(data@) + encoded@);
    bytes
}

/// Encodes an answer that shows nothing.
fn encode_plain_reply(response: &ResponseMessage) -> (bytes: Vec<u8>)
    ensures
        carries(bytes@, plain_reply(response@)),
{
    let none: Vec<u8> = Vec::new();
    assert(none@ == Seq::<u8>::empty());
    encode_reply(none.as_slice(), response)
}

/// Encodes an answer that reports an error.
fn error_reply(error: &str) -> (reply: Vec<u8>)
    ensures
        carries(reply@, self::error(error@)),
{
    encode_plain_reply(&ResponseMessage::Error(ErrorResponse { error: error.to_owned() }))
}

/// Answers a status request.
pub fn status_reply(ctx: &ClientContext, clients: usize) -> (reply: Vec<u8>)
    ensures
        carries(reply@, plain_reply(server_info(*ctx, clients))),
{
    let reported: u32 = if clients > 0xffff_ffff {
        0xffff_ffff
    } else {
        clients as u32
    };
    let response = ResponseMessage::ServerInfo(
        ServerInfoResponse {
            serial: ctx.serial_connected,
            port: ctx.port.clone(),
            baudrate: ctx.baudrate,
            clients: reported,
        },
    );
    encode_plain_reply(&response)
}

/// Answers a history request with the lines that were found. What a client
/// parses out of it is the text of the lines, then one response that reads
/// as the end of the history.
pub fn history_reply(lines: &Vec<String>, timestamps: bool) -> (reply: Vec<u8>)
    ensures
        carries(reply@, history(text::texts(lines@), timestamps)),
{
    let mut data: Vec<u8> = Vec::new();
    let ghost all = text::texts(lines@);
    assert(all.take(0) == Seq::<Seq<char>>::empty());
    for i in 0..lines.len()
        invariant
            all == text::texts(lines@),
            data@ == history_data(all.take(i as int), timestamps),
    {
        let line = lines[i].as_str();
        let mut shown = if timestamps {
            line.to_owned()
        } else {
            log_reader::strip_timestamp(line).to_owned()
        };
        shown.append("\r\n");
        assert(shown@ == display_line(line@, timestamps));
        proof {
            let next = all.take(i + 1);
            assert(next.drop_last() == all.take(i as int));
            assert(next.last() == line@);
        }
        let ghost before = data@;
        data.extend_from_slice(shown.as_str().as_bytes());
        assert(data@ == before + encode_utf8(shown@));
    }
    assert(all.take(all.len() as int) == all);
    let end = ResponseMessage::Event(EventResponse { event: "history_end".to_owned() });
    encode_reply(data.as_slice(), &end)
}

/// What is to be looked up in the log for a client.
pub enum HistoryQuery {
    /// This many lines from the end.
    LastLines(usize),
    /// The lines from the last match of a pattern on.
    Since(Pattern),
}

impl View for HistoryQuery {
    type V = Wanted;

    open spec fn view(&self) -> Wanted {
        match *self {
            HistoryQuery::LastLines(n) => Wanted::LastLines(n as nat),
            HistoryQuery::Since(p) => Wanted::Since(p@),
        }
    }
}

impl HistoryQuery {
    /// What a log reader is to look for.
    pub fn goal(&self) -> (goal: Goal<'_>)
        ensures
            goal@ == self@,
    {
        match self {
            HistoryQuery::LastLines(n) => Goal::LastLines(*n),
            HistoryQuery::Since(pattern) => Goal::Since(pattern),
        }
    }
}

/// What the server does for a control command.
pub enum ControlPlan {
    /// Nothing is sent back.
    NoReply,
    /// This is sent back.
    Reply(Vec<u8>),
    /// The log is read, and [`history_result`] makes the answer.
    ReadLog { query: HistoryQuery, timestamps: bool },
}

/// What the server is to do for a control command.
pub enum Plan {
    NoReply,
    Reply(Reply),
    ReadLog { wanted: Wanted, timestamps: bool },
}

/// Whether what was decided is what is to be done.
pub open spec fn follows(decided: ControlPlan, plan: Plan) -> bool {
    match decided {
        ControlPlan::NoReply => plan is NoReply,
        ControlPlan::Reply(bytes) => plan matches Plan::Reply(reply) && carries(bytes@, reply),
        ControlPlan::ReadLog { query, timestamps } => plan == Plan::ReadLog {
            wanted: query@,
            timestamps,
        },
    }
}

/// What the server does for a control command, given the number of clients
/// and whether there is a file at the place of the log. For no lines the file
/// is not looked into.
pub open spec fn plan(
    command: Control,
    ctx: ClientContext,
    clients: usize,
    log_exists: bool,
) -> Plan {
    match command {
        Control::Status => Plan::Reply(plain_reply(server_info(ctx, clients))),
        Control::History { lines, timestamps, since } => if ctx.log_file is None {
            Plan::Reply(error("logging is not enabled on this server"@))
        } else if !log_exists {
            Plan::Reply(error("log file not found"@))
        } else {
            match since {
                Some(source) => match pattern::pattern_error(source) {
                    Some(reason) => Plan::Reply(error("invalid regex: "@ + reason)),
                    None => Plan::ReadLog { wanted: Wanted::Since(source), timestamps },
                },
                None => if lines == 0 {
                    Plan::Reply(history(seq![], timestamps))
                } else {
                    Plan::ReadLog { wanted: Wanted::LastLines(lines as nat), timestamps }
                },
            }
        },
        Control::Disconnect => Plan::NoReply,
        Control::Unknown(_) => Plan::Reply(error("unknown command"@)),
    }
}

/// Decides what a control command asks of the server.
pub fn plan_control_command(
    cmd: &ControlMessage,
    ctx: &ClientContext,
    clients: usize,
    log_exists: bool,
) -> (decided: ControlPlan)
    ensures
        follows(decided, plan(cmd@, *ctx, clients, log_exists)),
{
    match cmd {
        ControlMessage::Status => ControlPlan::Reply(status_reply(ctx, clients)),
        ControlMessage::History { lines, timestamps, since } => {
            match &ctx.log_file {
                Some(_) => {
                    if !log_exists {
                        return ControlPlan::Reply(error_reply("log file not found"));
                    }
                },
                None => {
                    return ControlPlan::Reply(
                        error_reply("logging is not enabled on this server"),
                    );
                },
            }
            match since {
                Some(source) => match Pattern::new(source.as_str()) {
                    Ok(pattern) => ControlPlan::ReadLog {
                        query: HistoryQuery::Since(pattern),
                        timestamps: *timestamps,
                    },
                    Err(reason) => {
                        let mut error = "invalid regex: ".to_owned();
                        error.append(reason.as_str());
                        ControlPlan::Reply(error_reply(error.as_str()))
                    },
                },
                None => {
                    if *lines == 0 {
                        let none: Vec<String> = Vec::new();
                        assert(text::texts(none@) == Seq::<Seq<char>>::empty());
                        return ControlPlan::Reply(history_reply(&none, *timestamps));
                    }
                    ControlPlan::ReadLog {
                        query: HistoryQuery::LastLines(*lines),
                        timestamps: *timestamps,
                    }
                },
            }
        },
        ControlMessage::Disconnect => ControlPlan::NoReply,
        ControlMessage::Unknown(_) => ControlPlan::Reply(error_reply("unknown command")),
    }
}

/// Answers a history request once the log has been read, or could not be.
pub fn history_result(found: Result<Vec<String>, String>, timestamps: bool) -> (reply: Vec<u8>)
    ensures
        carries(
            reply@,
            match found {
                Ok(lines) => history(text::texts(lines@), timestamps),
                Err(reason) => error("failed to read log: "@ + reason@),
            },
        ),
{
    match found {
        Ok(lines) => history_reply(&lines, timestamps),
        Err(reason) => {
            let mut error = "failed to read log: ".to_owned();
            error.append(reason.as_str());
            error_reply(error.as_str())
        },
    }
}

/// The answer to a control command, given the number of clients and what is
/// at the place of the log.
pub open spec fn answer(
    command: Control,
    ctx: ClientContext,
    clients: usize,
    log: LogFile,
) -> Option<Reply> {
    match plan(command, ctx, clients, !(log is Missing)) {
        Plan::NoReply => None,
        Plan::Reply(reply) => Some(reply),
        Plan::ReadLog { wanted, timestamps } => match log {
            LogFile::Content(content) => Some(
                history(
                    log_reader::selection(wanted, log_reader::lines_of(content@)),
                    timestamps,
                ),
            ),
            LogFile::Unreadable(reason) => Some(error("failed to read log: "@ + reason@)),
            LogFile::Missing => None,
        },
    }
}

/// Whether what is sent back, if anything, is the answer.
pub open spec fn sends(bytes: Option<Vec<u8>>, answer: Option<Reply>) -> bool {
    match (bytes, answer) {
        (Some(bytes), Some(reply)) => carries(bytes@, reply),
        (None, None) => true,
        _ => false,
    }
}

/// Answers a control command, given the number of clients.
pub fn answer_control_command(
    cmd: &ControlMessage,
    ctx: &ClientContext,
    clients: usize,
    log: LogFile,
) -> (reply: Option<Vec<u8>>)
    ensures
        sends(reply, answer(cmd@, *ctx, clients, log)),
{
    let log_exists = match &log {
        LogFile::Missing => false,
        _ => true,
    };
    match plan_control_command(cmd, ctx, clients, log_exists) {
        ControlPlan::NoReply => None,
        ControlPlan::Reply(bytes) => Some(bytes),
        ControlPlan::ReadLog { query, timestamps } => match log {
            LogFile::Content(content) => {
                let lines = match &query {
                    HistoryQuery::LastLines(n) => log_reader::read_last_lines(content, *n),
                    HistoryQuery::Since(pattern) => log_reader::read_lines_since_pattern(
                        content,
                        pattern,
                    ),
                };
                Some(history_result(Ok(lines), timestamps))
            },
            LogFile::Unreadable(reason) => Some(history_result(Err(reason), timestamps)),
            LogFile::Missing => None,
        },
    }
}

/// Handle a parsed control command from a client.
/// Returns encoded response bytes to send back, or None.
///
/// The number of clients is the one at the moment of the call.
pub fn handle_control_command(
    cmd: &ControlMessage,
    ctx: &ClientContext,
    log: LogFile,
) -> (reply: Option<Vec<u8>>)
    ensures
        exists|clients: usize| sends(reply, #[trigger] answer(cmd@, *ctx, clients, log)),
{
    let clients: usize = ctx.client_count.load(Ordering::Relaxed);
    answer_control_command(cmd, ctx, clients, log)
}

/// Every command is answered but a disconnect, whatever the state of the
/// server and its log: a request that cannot be met gets an error.
pub proof fn only_disconnect_is_unanswered(
    command: Control,
    ctx: ClientContext,
    clients: usize,
    log: LogFile,
)
    ensures
        answer(command, ctx, clients, log) is None <==> command is Disconnect,
{
}

/// What a client's stream asks the server to do.
pub enum ClientAction {
    /// Send these bytes to the serial port.
    ToSerial(Vec<u8>),
    /// Handle this command.
    Command(ControlMessage),
}

/// What a [`ClientAction`] says.
pub enum Request {
    ToSerial(Seq<u8>),
    Command(Control),
}

impl View for ClientAction {
    type V = Request;

    open spec fn view(&self) -> Request {
        match *self {
            ClientAction::ToSerial(bytes) => Request::ToSerial(bytes@),
            ClientAction::Command(cmd) => Request::Command(cmd@),
        }
    }
}

/// What a list of actions says.
pub open spec fn requests(actions: Seq<ClientAction>) -> Seq<Request> {
    actions.map_values(|a: ClientAction| a@)
}

/// What the server does for one event of a client's stream.
pub open spec fn request_of(event: Event) -> Option<Request> {
    match event {
        Event::DataByte(b) => Some(Request::ToSerial(seq![b])),
        Event::MalformedEscape(b) => Some(Request::ToSerial(seq![0u8, b])),
        Event::Message { kind: MessageKind::Control, json } => Some(
            Request::Command(message::control_of(json)),
        ),
        Event::Message { kind: MessageKind::Response, .. } => None,
        Event::Pending => None,
    }
}

/// What the server does for the events of a client's stream, in order.
pub open spec fn requests_of(events: Seq<Event>) -> Seq<Request>
    decreases events.len(),
{
    if events.len() == 0 {
        seq![]
    } else {
        let before = requests_of(events.drop_last());
        match request_of(events.last()) {
            Some(request) => before.push(request),
            None => before,
        }
    }
}

/// The receiving side of a client connection.
pub struct ClientSession {
    parser: Parser,
}

impl View for ClientSession {
    type V = State;

    closed spec fn view(&self) -> State {
        self.parser@
    }
}

impl ClientSession {
    /// A connection on which nothing has been received.
    pub fn new() -> (session: Self)
        ensures
            session@ == State::Normal,
    {
        ClientSession { parser: Parser::new() }
    }

    /// Takes a chunk of the client's stream and says what to do for it, in
    /// order.
    pub fn receive(&mut self, chunk: &[u8]) -> (actions: Vec<ClientAction>)
        ensures
            final(self)@ == parser::run(old(self)@, chunk@).0,
            requests(actions@) == requests_of(parser::run(old(self)@, chunk@).1),
    {
        let events = self.parser.feed_bytes(chunk);
        let ghost all = parser::events_view(events@);
        let mut actions: Vec<ClientAction> = Vec::new();
        assert(all.take(0) == Seq::<Event>::empty());
        assert(requests(actions@) == Seq::<Request>::empty());
        for i in 0..events.len()
            invariant
                all == parser::events_view(events@),
                requests(actions@) == requests_of(all.take(i as int)),
        {
            let event = &events[i];
            let ghost before = actions@;
            proof {
                let next = all.take(i + 1);
                assert(next.drop_last() == all.take(i as int));
                assert(next.last() == event@);
            }
            match event {
                ParseEvent::DataByte(b) => {
                    let mut bytes: Vec<u8> = Vec::new();
                    bytes.push(*b);
                    assert(bytes@ == seq![*b]);
                    let action = ClientAction::ToSerial(bytes);
                    actions.push(action);
                    assert(requests(actions@) == requests(before).push(action@));
                },
                ParseEvent::MalformedEscape(b) => {
                    // Forward the NUL and the byte as raw data
                    let mut bytes: Vec<u8> = Vec::new();
                    bytes.push(0x00);
                    bytes.push(*b);
                    assert(bytes@ == seq![0u8, *b]);
                    let action = ClientAction::ToSerial(bytes);
                    actions.push(action);
                    assert(requests(actions@) == requests(before).push(action@));
                },
                ParseEvent::Message { kind: MessageKind::Control, json } => {
                    let action = ClientAction::Command(ControlMessage::from_json(json.as_str()));
                    actions.push(action);
                    assert(requests(actions@) == requests(before).push(action@));
                },
                ParseEvent::Message { kind: MessageKind::Response, json: _ } => {},
                ParseEvent::Pending => {},
            }
        }
        assert(all.take(all.len() as int) == all);
        actions
    }
}

/// The bytes that requests send to the serial port, in order.
pub open spec fn serial_bytes(requests: Seq<Request>) -> Seq<u8>
    decreases requests.len(),
{
    if requests.len() == 0 {
        seq![]
    } else {
        let before = serial_bytes(requests.drop_last());
        match requests.last() {
            Request::ToSerial(bytes) => before + bytes,
            Request::Command(_) => before,
        }
    }
}

proof fn data_is_sent(data: Seq<u8>)
    ensures
        serial_bytes(requests_of(encode::data_events(data))) == data,
        forall|i: int|
            0 <= i < requests_of(encode::data_events(data)).len() ==> (#[trigger] requests_of(
                encode::data_events(data),
            )[i]) is ToSerial,
    decreases data.len(),
{
    let events = encode::data_events(data);
    if data.len() == 0 {
        assert(events == Seq::<Event>::empty());
    } else {
        let before = data.drop_last();
        data_is_sent(before);
        assert(events.drop_last() == encode::data_events(before));
        assert(events.last() == Event::DataByte(data.last()));
        let sent = requests_of(events);
        let earlier = requests_of(encode::data_events(before));
        assert(sent.drop_last() == earlier);
        assert forall|i: int| 0 <= i < sent.len() implies (#[trigger] sent[i]) is ToSerial by {
            if i < earlier.len() {
                assert(sent[i] == earlier[i]);
            }
        }
        assert(before + seq![data.last()] == data);
    }
}

/// Data that a client encodes reaches the serial port as it was, and is never
/// taken for a command.
pub proof fn client_data_reaches_the_port(data: Seq<u8>)
    ensures
        parser::run(State::Normal, encode::escaped(data)).0 == State::Normal,
        ({
            let asked = requests_of(parser::run(State::Normal, encode::escaped(data)).1);
            &&& serial_bytes(asked) == data
            &&& forall|i: int| 0 <= i < asked.len() ==> (#[trigger] asked[i]) is ToSerial
        }),
{
    encode::data_round_trip(data);
    data_is_sent(data);
}

/// Lines as a terminal shows them: the text of each, with a carriage return and
/// a newline behind it.
pub open spec fn terminal_lines(lines: Seq<Seq<u8>>) -> Seq<u8>
    decreases lines.len(),
{
    if lines.len() == 0 {
        seq![]
    } else {
        terminal_lines(lines.drop_last()) + encode_utf8(text::lossy(lines.last())) + seq![
            CARRIAGE_RETURN,
            NEWLINE,
        ]
    }
}

/// A line of valid UTF-8 is shown as it was sent, byte for byte.
pub proof fn valid_lines_are_shown_as_they_are(lines: Seq<Seq<u8>>)
    requires
        lines.len() > 0,
        valid_utf8(lines.last()),
    ensures
        terminal_lines(lines) == terminal_lines(lines.drop_last()) + lines.last() + seq![
            CARRIAGE_RETURN,
            NEWLINE,
        ],
{
    decode_utf8_encode_utf8(lines.last());
}

/// So many lines from the end.
pub open spec fn last_of<T>(lines: Seq<T>, count: nat) -> Seq<T> {
    if lines.len() <= count {
        lines
    } else {
        lines.skip(lines.len() - count)
    }
}

proof fn line_ending_bytes()
    ensures
        encode_utf8("\r\n"@) == seq![CARRIAGE_RETURN, NEWLINE],
{
    reveal_strlit("\r\n");
    is_ascii_chars_encode_utf8("\r\n"@);
    assert("\r\n"@[0] as u8 == CARRIAGE_RETURN);
    assert("\r\n"@[1] as u8 == NEWLINE);
    assert(encode_utf8("\r\n"@) == seq![CARRIAGE_RETURN, NEWLINE]);
}

proof fn history_of_stripped_lines(texts: Seq<Seq<char>>, lines: Seq<Seq<u8>>)
    requires
        texts.len() == lines.len(),
        forall|i: int|
            0 <= i < lines.len() ==> log_reader::stripped(texts[i]) == text::lossy(
                #[trigger] lines[i],
            ),
    ensures
        history_data(texts, false) == terminal_lines(lines),
    decreases lines.len(),
{
    if lines.len() > 0 {
        let fewer = lines.drop_last();
        assert forall|i: int| 0 <= i < fewer.len() implies log_reader::stripped(
            texts.drop_last()[i],
        ) == text::lossy(#[trigger] fewer[i]) by {
            assert(fewer[i] == lines[i]);
            assert(texts.drop_last()[i] == texts[i]);
        }
        history_of_stripped_lines(texts.drop_last(), fewer);
        let line = text::lossy(lines[lines.len() - 1]);
        text::encoding_adds_up(line, "\r\n"@);
        line_ending_bytes();
        let before = terminal_lines(fewer);
        assert(before + (encode_utf8(line) + seq![CARRIAGE_RETURN, NEWLINE]) == before
            + encode_utf8(line) + seq![CARRIAGE_RETURN, NEWLINE]);
    }
}

/// The history that a client gets is what the device sent: the last lines
/// that were logged, without the timestamps that the log put in front of
/// them.
pub proof fn history_shows_what_was_logged(
    stamps: Seq<Seq<char>>,
    lines: Seq<Seq<u8>>,
    count: nat,
)
    requires
        log_writer::stamps_for(stamps, lines.len()),
        forall|i: int| 0 <= i < lines.len() ==> log_writer::is_line(#[trigger] lines[i]),
    ensures
        history_data(
            log_reader::selection(
                Wanted::LastLines(count),
                log_reader::lines_of(log_writer::log_entries(stamps, lines)),
            ),
            false,
        ) == terminal_lines(last_of(lines, count)),
{
    let content = log_writer::log_entries(stamps, lines);
    let read = log_reader::lines_of(content);
    log_writer::log_reads_back(stamps, lines);
    let shown = last_of(read, count);
    let wanted = last_of(lines, count);
    assert(log_reader::selection(Wanted::LastLines(count), read) == shown);
    assert forall|i: int| 0 <= i < wanted.len() implies log_reader::stripped(shown[i])
        == text::lossy(#[trigger] wanted[i]) by {
        let k = if lines.len() <= count {
            i
        } else {
            i + lines.len() - count
        };
        assert(wanted[i] == lines[k]);
        assert(shown[i] == read[k]);
    }
    history_of_stripped_lines(shown, wanted);
}

/// The lines from the last one on whose text matches a pattern; none where no
/// line does.
pub open spec fn since_of(pattern: Seq<char>, lines: Seq<Seq<u8>>) -> Seq<Seq<u8>>
    decreases lines.len(),
{
    if lines.len() == 0 {
        seq![]
    } else if pattern::pattern_matches(pattern, text::lossy(lines.last())) {
        seq![lines.last()]
    } else {
        let before = since_of(pattern, lines.drop_last());
        if before.len() == 0 {
            before
        } else {
            before.push(lines.last())
        }
    }
}

proof fn matches_agree(pattern: Seq<char>, texts: Seq<Seq<char>>, lines: Seq<Seq<u8>>)
    requires
        texts.len() == lines.len(),
        forall|i: int|
            0 <= i < lines.len() ==> log_reader::stripped(texts[i]) == text::lossy(
                #[trigger] lines[i],
            ),
    ensures
        match log_reader::last_match(pattern, texts) {
            Some(i) => 0 <= i < lines.len() && since_of(pattern, lines) == lines.skip(i),
            None => since_of(pattern, lines) == Seq::<Seq<u8>>::empty(),
        },
    decreases lines.len(),
{
    if lines.len() > 0 {
        let fewer = lines.drop_last();
        let last = lines.len() - 1;
        assert(log_reader::stripped(texts[last]) == text::lossy(lines[last]));
        assert forall|i: int| 0 <= i < fewer.len() implies log_reader::stripped(
            texts.drop_last()[i],
        ) == text::lossy(#[trigger] fewer[i]) by {
            assert(fewer[i] == lines[i]);
            assert(texts.drop_last()[i] == texts[i]);
        }
        matches_agree(pattern, texts.drop_last(), fewer);
        assert(lines.skip(last) == seq![lines.last()]);
        if let Some(i) = log_reader::last_match(pattern, texts.drop_last()) {
            assert(fewer.skip(i).push(lines.last()) == lines.skip(i));
        }
    }
}

/// The history since a pattern is what the device sent from the last line on
/// that matches it: the timestamps of the log are neither matched nor shown.
pub proof fn history_since_shows_what_was_logged(
    stamps: Seq<Seq<char>>,
    lines: Seq<Seq<u8>>,
    pattern: Seq<char>,
)
    requires
        log_writer::stamps_for(stamps, lines.len()),
        forall|i: int| 0 <= i < lines.len() ==> log_writer::is_line(#[trigger] lines[i]),
    ensures
        history_data(
            log_reader::selection(
                Wanted::Since(pattern),
                log_reader::lines_of(log_writer::log_entries(stamps, lines)),
            ),
            false,
        ) == terminal_lines(since_of(pattern, lines)),
{
    let content = log_writer::log_entries(stamps, lines);
    let read = log_reader::lines_of(content);
    log_writer::log_reads_back(stamps, lines);
    assert forall|i: int| 0 <= i < lines.len() implies log_reader::stripped(read[i])
        == text::lossy(#[trigger] lines[i]) by {
        assert(read[i] == stamps[i] + text::lossy(lines[i]));
    }
    matches_agree(pattern, read, lines);
    match log_reader::last_match(pattern, read) {
        Some(from) => {
            let shown = read.skip(from);
            let wanted = lines.skip(from);
            assert forall|i: int| 0 <= i < wanted.len() implies log_reader::stripped(shown[i])
                == text::lossy(#[trigger] wanted[i]) by {
                assert(wanted[i] == lines[i + from]);
                assert(shown[i] == read[i + from]);
            }
            history_of_stripped_lines(shown, wanted);
        },
        None => {
            assert(terminal_lines(since_of(pattern, lines)) == Seq::<u8>::empty());
        },
    }
}

/// A history is its lines in their order, with timestamps or without: each
/// whole, as the log has it or with its timestamp taken off, and a line ending
/// behind it.
pub proof fn history_shows_every_line_in_order(lines: Seq<Seq<char>>)
    ensures
        history_data(lines, true) == lines.map_values(
            |l: Seq<char>| encode_utf8(l + "\r\n"@),
        ).flatten(),
        history_data(lines, false) == lines.map_values(
            |l: Seq<char>| encode_utf8(log_reader::stripped(l) + "\r\n"@),
        ).flatten(),
    decreases lines.len(),
{
    let whole = |l: Seq<char>| encode_utf8(l + "\r\n"@);
    let bare = |l: Seq<char>| encode_utf8(log_reader::stripped(l) + "\r\n"@);
    if lines.len() == 0 {
        assert(lines.map_values(whole) == Seq::<Seq<u8>>::empty());
        assert(lines.map_values(bare) == Seq::<Seq<u8>>::empty());
    } else {
        let fewer = lines.drop_last();
        history_shows_every_line_in_order(fewer);
        assert(lines.map_values(whole) == fewer.map_values(whole).push(whole(lines.last())));
        assert(lines.map_values(bare) == fewer.map_values(bare).push(bare(lines.last())));
        fewer.map_values(whole).lemma_flatten_push(whole(lines.last()));
        fewer.map_values(bare).lemma_flatten_push(bare(lines.last()));
    }
}

/// The history of two runs of lines is that of the first and that of the
/// second, with timestamps or without.
pub proof fn histories_add_up(first: Seq<Seq<char>>, second: Seq<Seq<char>>, timestamps: bool)
    ensures
        history_data(first + second, timestamps) == history_data(first, timestamps)
            + history_data(second, timestamps),
    decreases second.len(),
{
    if second.len() == 0 {
        assert(first + second == first);
        assert(history_data(first, timestamps) + Seq::<u8>::empty() == history_data(
            first,
            timestamps,
        ));
    } else {
        histories_add_up(first, second.drop_last(), timestamps);
        assert((first + second).drop_last() == first + second.drop_last());
        assert((first + second).last() == second.last());
        let last = encode_utf8(display_line(second.last(), timestamps));
        let before = history_data(first, timestamps);
        let after = history_data(second.drop_last(), timestamps);
        assert((before + after) + last == before + (after + last));
    }
}

/// The history with timestamps is the last lines of the log as they were
/// logged: each with the timestamp that it got.
pub proof fn stamped_history_shows_the_log(
    stamps: Seq<Seq<char>>,
    lines: Seq<Seq<u8>>,
    count: nat,
)
    requires
        log_writer::stamps_for(stamps, lines.len()),
        forall|i: int| 0 <= i < lines.len() ==> log_writer::is_line(#[trigger] lines[i]),
    ensures
        ({
            let from = if lines.len() <= count {
                0
            } else {
                lines.len() - count
            };
            history_data(
                log_reader::selection(
                    Wanted::LastLines(count),
                    log_reader::lines_of(log_writer::log_entries(stamps, lines)),
                ),
                true,
            ) == Seq::new(
                (lines.len() - from) as nat,
                |i: int|
                    encode_utf8(stamps[from + i] + text::lossy(lines[from + i]) + "\r\n"@),
            ).flatten()
        }),
{
    let from = if lines.len() <= count {
        0
    } else {
        lines.len() - count
    };
    let read = log_reader::lines_of(log_writer::log_entries(stamps, lines));
    log_writer::log_reads_back(stamps, lines);
    log_reader::last_lines_are_the_last(count, read);
    let found = log_reader::selection(Wanted::LastLines(count), read);
    history_shows_every_line_in_order(found);
    let whole = |l: Seq<char>| encode_utf8(l + "\r\n"@);
    let expected = Seq::new(
        (lines.len() - from) as nat,
        |i: int| encode_utf8(stamps[from + i] + text::lossy(lines[from + i]) + "\r\n"@),
    );
    assert(found.map_values(whole) == expected) by {
        assert forall|i: int| 0 <= i < expected.len() implies found.map_values(whole)[i]
            == expected[i] by {
            assert(found[i] == read[from + i]);
            assert(read[from + i] == stamps[from + i] + text::lossy(lines[from + i]));
        }
    }
}

/// What the requests of two runs of events ask for is what those of the first
/// ask for, and then those of the second.
pub proof fn requests_add_up(first: Seq<Event>, second: Seq<Event>)
    ensures
        requests_of(first + second) == requests_of(first) + requests_of(second),
    decreases second.len(),
{
    if second.len() == 0 {
        assert(first + second == first);
        assert(requests_of(first) + Seq::<Request>::empty() == requests_of(first));
    } else {
        requests_add_up(first, second.drop_last());
        assert((first + second).drop_last() == first + second.drop_last());
        assert((first + second).last() == second.last());
        if let Some(request) = request_of(second.last()) {
            assert((requests_of(first) + requests_of(second.drop_last())).push(request)
                == requests_of(first) + requests_of(second.drop_last()).push(request));
        }
    }
}

/// Each byte of data goes to the port by itself, in order.
pub proof fn data_goes_to_the_port_byte_by_byte(data: Seq<u8>)
    ensures
        requests_of(parser::run(State::Normal, encode::escaped(data)).1) == data.map_values(
            |b: u8| Request::ToSerial(seq![b]),
        ),
    decreases data.len(),
{
    let to_port = |b: u8| Request::ToSerial(seq![b]);
    encode::data_round_trip(data);
    if data.len() == 0 {
        assert(encode::data_events(data) == Seq::<Event>::empty());
        assert(data.map_values(to_port) == Seq::<Request>::empty());
    } else {
        let before = data.drop_last();
        encode::data_round_trip(before);
        data_goes_to_the_port_byte_by_byte(before);
        let events = encode::data_events(data);
        assert(events.drop_last() == encode::data_events(before));
        assert(events.last() == Event::DataByte(data.last()));
        assert(data.map_values(to_port) == before.map_values(to_port).push(to_port(data.last())));
    }
}

/// A malformed escape goes to the port as the two bytes that it came as.
pub proof fn malformed_escapes_go_to_the_port(byte: u8)
    requires
        byte != 0,
        byte != 0x43,
        byte != 0x52,
    ensures
        requests_of(parser::run(State::Normal, seq![0u8, byte]).1) == seq![
            Request::ToSerial(seq![0u8, byte]),
        ],
{
    parser::malformed_escapes_are_reported(byte);
    let events = seq![Event::MalformedEscape(byte)];
    assert(events.drop_last() == Seq::<Event>::empty());
    reveal_with_fuel(requests_of, 2);
    let request = Request::ToSerial(seq![0u8, byte]);
    assert(Seq::<Request>::empty().push(request) == seq![request]);
}

/// A control message is one command, the one that its text stands for; a
/// response from a client asks for nothing.
pub proof fn a_control_message_is_one_command(json: Seq<char>)
    requires
        text::nul_free(json),
        encode_utf8(json).len() <= 1048576,
    ensures
        requests_of(
            parser::run(
                State::Normal,
                seq![0u8, 0x43u8] + encode_utf8(json) + seq![0u8],
            ).1,
        ) == seq![Request::Command(message::control_of(json))],
        requests_of(
            parser::run(
                State::Normal,
                seq![0u8, 0x52u8] + encode_utf8(json) + seq![0u8],
            ).1,
        ) == Seq::<Request>::empty(),
{
    text::nul_free_encoding(json);
    text::lossy_undoes_encoding(json);
    encode::framed_bytes_are_one_message(encode_utf8(json));
    let control = seq![Event::Message { kind: MessageKind::Control, json }];
    let response = seq![Event::Message { kind: MessageKind::Response, json }];
    assert(control.drop_last() == Seq::<Event>::empty());
    assert(response.drop_last() == Seq::<Event>::empty());
    reveal_with_fuel(requests_of, 2);
    let request = Request::Command(message::control_of(json));
    assert(Seq::<Request>::empty().push(request) == seq![request]);
}

/// A status request is answered with what the server is, as it is.
pub proof fn status_tells_what_the_server_is(
    ctx: ClientContext,
    clients: usize,
    log: LogFile,
)
    ensures
        answer(Control::Status, ctx, clients, log) matches Some(reply) && {
            &&& reply.data == Seq::<u8>::empty()
            &&& reply.response matches Response::ServerInfo {
                serial,
                port,
                baudrate,
                clients: told,
            } && {
                &&& serial == ctx.serial_connected
                &&& port == ctx.port@
                &&& baudrate == ctx.baudrate
                &&& clients <= 0xffff_ffff ==> told == clients
                &&& clients > 0xffff_ffff ==> told == 0xffff_ffff
            }
        },
{
}

/// A request for history that can be met is answered with the lines that it
/// asks for, and the event that marks their end.
pub proof fn history_is_answered_from_the_log(
    lines: usize,
    timestamps: bool,
    since: Option<Seq<char>>,
    ctx: ClientContext,
    clients: usize,
    content: &[u8],
)
    requires
        ctx.log_file is Some,
        since matches Some(source) ==> pattern::pattern_error(source) is None,
    ensures
        ({
            let found = match since {
                Some(source) => log_reader::selection(
                    Wanted::Since(source),
                    log_reader::lines_of(content@),
                ),
                None => log_reader::selection(
                    Wanted::LastLines(lines as nat),
                    log_reader::lines_of(content@),
                ),
            };
            answer(
                Control::History { lines, timestamps, since },
                ctx,
                clients,
                LogFile::Content(content),
            ) == Some(
                Reply {
                    data: history_data(found, timestamps),
                    response: Response::Event { event: "history_end"@ },
                },
            )
        }),
{
    if since is None && lines == 0 {
        log_reader::last_lines_are_the_last(0, log_reader::lines_of(content@));
        let found = log_reader::selection(
            Wanted::LastLines(0),
            log_reader::lines_of(content@),
        );
        assert(found == Seq::<Seq<char>>::empty());
    }
}

/// A request that cannot be met is answered with the error that says why, and
/// shows nothing.
pub proof fn refusals_say_why(command: Control, ctx: ClientContext, clients: usize, log: LogFile)
    ensures
        ({
            let error = |text: Seq<char>|
                Some(Reply { data: seq![], response: Response::Error { error: text } });
            let reply = answer(command, ctx, clients, log);
            &&& command is Unknown ==> reply == error("unknown command"@)
            &&& command is History && ctx.log_file is None ==> reply == error(
                "logging is not enabled on this server"@,
            )
            &&& command is History && ctx.log_file is Some && log is Missing ==> reply == error(
                "log file not found"@,
            )
            &&& ctx.log_file is Some && !(log is Missing) ==> (match (command, log) {
                (Control::History { since: Some(source), .. }, _) if pattern::pattern_error(
                    source,
                ) is Some => reply == error(
                    "invalid regex: "@ + pattern::pattern_error(source)->0,
                ),
                (Control::History { lines, since, .. }, LogFile::Unreadable(reason)) => lines > 0
                    || since is Some ==> reply == error("failed to read log: "@ + reason@),
                _ => true,
            })
        }),
{
}

/// A request for no lines is answered with none, whatever there is to read.
pub proof fn no_lines_are_answered_with_none(
    timestamps: bool,
    ctx: ClientContext,
    clients: usize,
    log: LogFile,
)
    requires
        ctx.log_file is Some,
        !(log is Missing),
    ensures
        answer(Control::History { lines: 0, timestamps, since: None }, ctx, clients, log) == Some(
            Reply { data: seq![], response: Response::Event { event: "history_end"@ } },
        ),
{
    if let LogFile::Content(content) = log {
        assert(history_data(seq![], timestamps) == Seq::<u8>::empty());
    }
}

/// A reply goes over the wire as its data, escaped, and behind it the response in
/// its frame.
pub proof fn replies_are_data_and_a_response(reply: Reply)
    ensures
        reply_wire(reply) == encode::escaped(reply.data) + (seq![0u8, 0x52u8] + encode_utf8(
            crate::json::object_text(message::response_members(reply.response)),
        ) + seq![0u8]),
{
    encode::messages_are_framed(
        encode_utf8(crate::json::object_text(message::response_members(reply.response))),
    );
}

/// A reply with history carries every line, in order, with the end of history
/// behind them.
pub proof fn history_replies_carry_every_line(
    lines: &Vec<String>,
    timestamps: bool,
    reply: Vec<u8>,
)
    requires
        call_ensures(history_reply, (lines, timestamps), reply),
    ensures
        ({
            let data = Seq::new(
                lines@.len(),
                |i: int|
                    encode_utf8(
                        (if timestamps {
                            lines@[i]@
                        } else {
                            log_reader::stripped(lines@[i]@)
                        }) + "\r\n"@,
                    ),
            ).flatten();
            reply@ == encode::escaped(data) + (seq![0u8, 0x52u8] + encode_utf8(
                crate::json::object_text(seq![("event"@, Member::Text("history_end"@))]),
            ) + seq![0u8])
        }),
{
    let shown = text::texts(lines@);
    let pieces = Seq::new(
        lines@.len(),
        |i: int|
            encode_utf8(
                (if timestamps {
                    lines@[i]@
                } else {
                    log_reader::stripped(lines@[i]@)
                }) + "\r\n"@,
            ),
    );
    history_shows_every_line_in_order(shown);
    if timestamps {
        assert(pieces == shown.map_values(|l: Seq<char>| encode_utf8(l + "\r\n"@)));
    } else {
        assert(pieces == shown.map_values(
            |l: Seq<char>| encode_utf8(log_reader::stripped(l) + "\r\n"@),
        ));
    }
    replies_are_data_and_a_response(history(shown, timestamps));
}

/// A failure to read the log is told with the whole of its reason.
pub proof fn failures_are_told(reason: String, timestamps: bool, reply: Vec<u8>)
    requires
        call_ensures(history_result, (Err::<Vec<String>, String>(reason), timestamps), reply),
    ensures
        reply@ == seq![0u8, 0x52u8] + encode_utf8(
            crate::json::object_text(
                seq![("error"@, Member::Text("failed to read log: "@ + reason@))],
            ),
        ) + seq![0u8],
{
    replies_are_data_and_a_response(error("failed to read log: "@ + reason@));
    assert(encode::escaped(seq![]) == Seq::<u8>::empty());
}

/// A status reply tells what the server is, in its frame.
pub proof fn status_replies_tell_what_the_server_is(
    ctx: &ClientContext,
    clients: usize,
    reply: Vec<u8>,
)
    requires
        call_ensures(status_reply, (ctx, clients), reply),
        clients <= 0xffff_ffff,
    ensures
        reply@ == seq![0u8, 0x52u8] + encode_utf8(
            crate::json::object_text(
                seq![
                    ("serial"@, Member::Flag(ctx.serial_connected)),
                    ("port"@, Member::Text(ctx.port@)),
                    ("baudrate"@, Member::Number(ctx.baudrate as u64)),
                    ("clients"@, Member::Number(clients as u64)),
                ],
            ),
        ) + seq![0u8],
{
    replies_are_data_and_a_response(plain_reply(server_info(*ctx, clients)));
    assert(encode::escaped(seq![]) == Seq::<u8>::empty());
}

/// A command is answered, unless it is to disconnect, and a request for history of
/// a log that is there with all the lines that it asks for, in order.
pub proof fn commands_are_answered(
    cmd: &ControlMessage,
    ctx: &ClientContext,
    clients: usize,
    content: &[u8],
    reply: Option<Vec<u8>>,
)
    requires
        call_ensures(answer_control_command, (cmd, ctx, clients, LogFile::Content(content)), reply),
        ctx.log_file is Some,
    ensures
        reply is None <==> cmd is Disconnect,
        cmd@ matches Control::History { lines, timestamps, since: None } ==> reply->0@
            == encode::escaped(
            log_reader::selection(
                Wanted::LastLines(lines as nat),
                log_reader::lines_of(content@),
            ).map_values(
                |l: Seq<char>|
                    encode_utf8(
                        (if timestamps {
                            l
                        } else {
                            log_reader::stripped(l)
                        }) + "\r\n"@,
                    ),
            ).flatten(),
        ) + (seq![0u8, 0x52u8] + encode_utf8(
            crate::json::object_text(seq![("event"@, Member::Text("history_end"@))]),
        ) + seq![0u8]),
{
    let answered = answer(cmd@, *ctx, clients, LogFile::Content(content));
    only_disconnect_is_unanswered(cmd@, *ctx, clients, LogFile::Content(content));
    assert(sends(reply, answered));
    if let Control::History { lines, timestamps, since: None } = cmd@ {
        let found = log_reader::selection(
            Wanted::LastLines(lines as nat),
            log_reader::lines_of(content@),
        );
        history_is_answered_from_the_log(lines, timestamps, None, *ctx, clients, content);
        replies_are_data_and_a_response(answered->0);
        history_shows_every_line_in_order(found);
        let shown = found.map_values(
            |l: Seq<char>|
                encode_utf8(
                    (if timestamps {
                        l
                    } else {
                        log_reader::stripped(l)
                    }) + "\r\n"@,
                ),
        );
        if timestamps {
            assert(shown == found.map_values(|l: Seq<char>| encode_utf8(l + "\r\n"@)));
        } else {
            assert(shown == found.map_values(
                |l: Seq<char>| encode_utf8(log_reader::stripped(l) + "\r\n"@),
            ));
        }
    }
}

/// What a client sends goes to the port, each byte as it is.
pub proof fn received_data_goes_to_the_port(
    data: Seq<u8>,
    chunk: &[u8],
    actions: Vec<ClientAction>,
)
    requires
        chunk@ == encode::escaped(data),
    ensures
        forall|session: &mut ClientSession| #[trigger]
            call_ensures(ClientSession::receive, (session, chunk), actions) && session@
                == State::Normal ==> final(session)@ == State::Normal && requests(actions@)
                == data.map_values(|b: u8| Request::ToSerial(seq![b])),
{
    data_goes_to_the_port_byte_by_byte(data);
    encode::data_round_trip(data);
}

} // verus!

//! The messages that clients and server exchange, and their JSON form.

use crate::entries;
use crate::entries::Listing;
use crate::json;
use crate::json::{Member, Scalar};
use crate::text;
use vstd::prelude::*;

verus! {

/// Control messages sent from client to server.
#[derive(Debug, Clone, PartialEq)]
pub enum ControlMessage {
    History { lines: usize, timestamps: bool, since: Option<String> },
    Status,
    Disconnect,
    Unknown(String),
}

/// Response messages sent from server to client.
#[derive(Debug, Clone, PartialEq)]
pub enum ResponseMessage {
    Status(StatusResponse),
    Event(EventResponse),
    ServerInfo(ServerInfoResponse),
    Error(ErrorResponse),
}

#[derive(Debug, Clone, PartialEq)]
pub struct StatusResponse {
    pub status: String,
    pub serial: bool,
    pub port: String,
    pub baudrate: u32,
}

#[derive(Debug, Clone, PartialEq)]
pub struct EventResponse {
    pub event: String,
}

#[derive(Debug, Clone, PartialEq)]
pub struct ServerInfoResponse {
    pub serial: bool,
    pub port: String,
    pub baudrate: u32,
    pub clients: u32,
}

#[derive(Debug, Clone, PartialEq)]
pub struct ErrorResponse {
    pub error: String,
}

/// What a [`ControlMessage`] says.
pub enum Control {
    History { lines: usize, timestamps: bool, since: Option<Seq<char>> },
    Status,
    Disconnect,
    Unknown(Seq<char>),
}

impl View for ControlMessage {
    type V = Control;

    open spec fn view(&self) -> Control {
        match *self {
            ControlMessage::History { lines, timestamps, since } => Control::History {
                lines,
                timestamps,
                since: text::optional(since),
            },
            ControlMessage::Status => Control::Status,
            ControlMessage::Disconnect => Control::Disconnect,
            ControlMessage::Unknown(s) => Control::Unknown(s@),
        }
    }
}

/// What a [`ResponseMessage`] says.
pub enum Response {
    Status { status: Seq<char>, serial: bool, port: Seq<char>, baudrate: u32 },
    Event { event: Seq<char> },
    ServerInfo { serial: bool, port: Seq<char>, baudrate: u32, clients: u32 },
    Error { error: Seq<char> },
}

impl View for StatusResponse {
    type V = Response;

    open spec fn view(&self) -> Response {
        Response::Status {
            status: self.status@,
            serial: self.serial,
            port: self.port@,
            baudrate: self.baudrate,
        }
    }
}

impl View for EventResponse {
    type V = Response;

    open spec fn view(&self) -> Response {
        Response::Event { event: self.event@ }
    }
}

impl View for ServerInfoResponse {
    type V = Response;

    open spec fn view(&self) -> Response {
        Response::ServerInfo {
            serial: self.serial,
            port: self.port@,
            baudrate: self.baudrate,
            clients: self.clients,
        }
    }
}

impl View for ErrorResponse {
    type V = Response;

    open spec fn view(&self) -> Response {
        Response::Error { error: self.error@ }
    }
}

impl View for ResponseMessage {
    type V = Response;

    open spec fn view(&self) -> Response {
        match *self {
            ResponseMessage::Status(r) => r@,
            ResponseMessage::Event(r) => r@,
            ResponseMessage::ServerInfo(r) => r@,
            ResponseMessage::Error(r) => r@,
        }
    }
}

/// The number of history lines that a request asks for when it names none.
pub const DEFAULT_HISTORY_LINES: usize = 50;

/// The message that a text stands for, given the members that its object
/// has: a command that is not known keeps its text.
pub open spec fn control_from(
    text: Seq<char>,
    cmd: Option<Member>,
    lines: Option<Member>,
    timestamps: Option<Member>,
    since: Option<Member>,
) -> Control {
    match cmd {
        Some(Member::Text(name)) => if name == "history"@ {
            Control::History {
                lines: match lines {
                    Some(Member::Number(n)) if n <= usize::MAX => n as usize,
                    _ => DEFAULT_HISTORY_LINES,
                },
                timestamps: match timestamps {
                    Some(Member::Flag(b)) => b,
                    _ => false,
                },
                since: match since {
                    Some(Member::Text(t)) => Some(t),
                    _ => None,
                },
            }
        } else if name == "status"@ {
            Control::Status
        } else if name == "disconnect"@ {
            Control::Disconnect
        } else {
            Control::Unknown(text)
        },
        _ => Control::Unknown(text),
    }
}

/// The message that a text stands for.
pub open spec fn control_of(text: Seq<char>) -> Control {
    match json::parsed_object(text) {
        Some(members) => control_from(
            text,
            json::usable(json::lookup(members, "cmd"@)),
            json::usable(json::lookup(members, "lines"@)),
            json::usable(json::lookup(members, "timestamps"@)),
            json::usable(json::lookup(members, "since"@)),
        ),
        None => Control::Unknown(text),
    }
}

/// The members of the object that a message is written as.
pub open spec fn control_members(message: Control) -> Seq<(Seq<char>, Member)> {
    match message {
        Control::History { lines, timestamps, since } => {
            let head = seq![
                ("cmd"@, Member::Text("history"@)),
                ("lines"@, Member::Number(lines as u64)),
            ];
            let tail = seq![("timestamps"@, Member::Flag(timestamps))];
            match since {
                Some(pattern) => head.push(("since"@, Member::Text(pattern))) + tail,
                None => head + tail,
            }
        },
        Control::Status => seq![("cmd"@, Member::Text("status"@))],
        Control::Disconnect => seq![("cmd"@, Member::Text("disconnect"@))],
        Control::Unknown(_) => seq![],
    }
}

/// The text that a message is written as.
pub open spec fn control_json(message: Control) -> Seq<char> {
    match message {
        Control::Unknown(text) => text,
        _ => json::object_text(control_members(message)),
    }
}

/// A command that is not known is written as the text it was read from.
pub proof fn unknown_command_keeps_its_text(text: Seq<char>)
    requires
        control_of(text) is Unknown,
    ensures
        control_json(control_of(text)) == text,
{
}

/// Chooses the message that a text stands for by the members of its object.
pub fn control_from_members(
    json: &str,
    cmd: Option<Scalar>,
    lines: Option<Scalar>,
    timestamps: Option<Scalar>,
    since: Option<Scalar>,
) -> (message: ControlMessage)
    ensures
        message@ == control_from(
            json@,
            json::scalar_view(cmd),
            json::scalar_view(lines),
            json::scalar_view(timestamps),
            json::scalar_view(since),
        ),
{
    match cmd {
        Some(Scalar::Text(name)) => {
            if text::same(name.as_str(), "history") {
                let lines: usize = match lines {
                    Some(Scalar::Number(n)) if n <= usize::MAX as u64 => n as usize,
                    _ => DEFAULT_HISTORY_LINES,
                };
                let timestamps: bool = match timestamps {
                    Some(Scalar::Flag(b)) => b,
                    _ => false,
                };
                let since: Option<String> = match since {
                    Some(Scalar::Text(t)) => Some(t),
                    _ => None,
                };
                ControlMessage::History { lines, timestamps, since }
            } else if text::same(name.as_str(), "status") {
                ControlMessage::Status
            } else if text::same(name.as_str(), "disconnect") {
                ControlMessage::Disconnect
            } else {
                ControlMessage::Unknown(json.to_owned())
            }
        },
        _ => ControlMessage::Unknown(json.to_owned()),
    }
}

impl ControlMessage {
    /// Parse a control message from a JSON string.
    pub fn from_json(json: &str) -> (message: Self)
        ensures
            message@ == control_of(json@),
    {
        match json::parse_object(json) {
            Some(object) => control_from_members(
                json,
                json::get(&object, "cmd"),
                json::get(&object, "lines"),
                json::get(&object, "timestamps"),
                json::get(&object, "since"),
            ),
            None => ControlMessage::Unknown(json.to_owned()),
        }
    }

    /// Serialize this control message to JSON. Reading the result gives the
    /// same message back, unless it is one that was not known: its text is
    /// written as it is.
    pub fn to_json(&self) -> (json: String)
        ensures
            json@ == control_json(self@),
            !(self is Unknown) ==> json::parsed_object(json@) == Some(control_members(self@)),
            !(self is Unknown) ==> control_of(json@) == self@,
            !(self is Unknown) ==> text::nul_free(json@),
    {
        match self {
            ControlMessage::History { lines, timestamps, since } => {
                let mut object = json::new_object();
                proof {
                    history_keys_differ();
                    reveal_with_fuel(json::lookup, 6);
                }
                json::insert(&mut object, "cmd", Scalar::Text("history".to_owned()));
                json::insert(&mut object, "lines", Scalar::Number(*lines as u64));
                match since {
                    Some(pattern) => {
                        json::insert(&mut object, "since", Scalar::Text(pattern.clone()));
                    },
                    None => {},
                }
                json::insert(&mut object, "timestamps", Scalar::Flag(*timestamps));
                assert(json::members(object) == control_members(self@));
                json::write_object(object)
            },
            ControlMessage::Status => {
                let mut object = json::new_object();
                json::insert(&mut object, "cmd", Scalar::Text("status".to_owned()));
                assert(json::members(object) == control_members(self@));
                proof {
                    command_names_differ();
                }
                json::write_object(object)
            },
            ControlMessage::Disconnect => {
                let mut object = json::new_object();
                json::insert(&mut object, "cmd", Scalar::Text("disconnect".to_owned()));
                assert(json::members(object) == control_members(self@));
                proof {
                    command_names_differ();
                }
                json::write_object(object)
            },
            ControlMessage::Unknown(s) => s.clone(),
        }
    }
}

/// The members of the object that a response is written as: those of its kind,
/// with no tag around them.
pub open spec fn response_members(response: Response) -> Seq<(Seq<char>, Member)> {
    match response {
        Response::Status { status, serial, port, baudrate } => seq![
            ("status"@, Member::Text(status)),
            ("serial"@, Member::Flag(serial)),
            ("port"@, Member::Text(port)),
            ("baudrate"@, Member::Number(baudrate as u64)),
        ],
        Response::Event { event } => seq![("event"@, Member::Text(event))],
        Response::ServerInfo { serial, port, baudrate, clients } => seq![
            ("serial"@, Member::Flag(serial)),
            ("port"@, Member::Text(port)),
            ("baudrate"@, Member::Number(baudrate as u64)),
            ("clients"@, Member::Number(clients as u64)),
        ],
        Response::Error { error } => seq![("error"@, Member::Text(error))],
    }
}

/// The text that a response is written as.
pub open spec fn response_json(response: Response) -> Seq<char> {
    json::object_text(response_members(response))
}

/// The text that a member holds.
pub open spec fn text_of(member: Option<Member>) -> Option<Seq<char>> {
    match member {
        Some(Member::Text(t)) => Some(t),
        _ => None,
    }
}

/// The flag that a member holds.
pub open spec fn flag_of(member: Option<Member>) -> Option<bool> {
    match member {
        Some(Member::Flag(b)) => Some(b),
        _ => None,
    }
}

/// The number that a member holds, if it is one of 32 bits.
pub open spec fn number_of(member: Option<Member>) -> Option<u32> {
    match member {
        Some(Member::Number(n)) if n <= u32::MAX => Some(n as u32),
        _ => None,
    }
}

/// The response that the members of an object stand for. There is no tag to
/// tell the kinds apart: it is the first kind, of status, event, server
/// information and error, whose members are all there.
pub open spec fn response_from(
    status: Option<Member>,
    serial: Option<Member>,
    port: Option<Member>,
    baudrate: Option<Member>,
    event: Option<Member>,
    clients: Option<Member>,
    error: Option<Member>,
) -> Option<Response> {
    match (text_of(status), flag_of(serial), text_of(port), number_of(baudrate)) {
        (Some(status), Some(serial), Some(port), Some(baudrate)) => Some(
            Response::Status { status, serial, port, baudrate },
        ),
        (_, serial, port, baudrate) => match (text_of(event), text_of(error)) {
            (Some(event), _) => Some(Response::Event { event }),
            (None, error) => match (serial, port, baudrate, number_of(clients)) {
                (Some(serial), Some(port), Some(baudrate), Some(clients)) => Some(
                    Response::ServerInfo { serial, port, baudrate, clients },
                ),
                _ => match error {
                    Some(error) => Some(Response::Error { error }),
                    None => None,
                },
            },
        },
    }
}

/// How many entries have this key.
pub open spec fn occurrences(entries: Seq<(Seq<char>, Member)>, key: Seq<char>) -> nat
    decreases entries.len(),
{
    if entries.len() == 0 {
        0
    } else {
        occurrences(entries.drop_last(), key) + if entries.last().0 == key {
            1nat
        } else {
            0nat
        }
    }
}

/// The value of the only entry with this key. A key that comes again counts as
/// missing.
pub open spec fn sole(entries: Seq<(Seq<char>, Member)>, key: Seq<char>) -> Option<Member> {
    if occurrences(entries, key) == 1 {
        json::usable(json::lookup(entries, key))
    } else {
        None
    }
}

/// The response that the entries of an object stand for. Entries with other
/// keys do not matter.
pub open spec fn response_of_entries(entries: Seq<(Seq<char>, Member)>) -> Option<Response> {
    response_from(
        sole(entries, "status"@),
        sole(entries, "serial"@),
        sole(entries, "port"@),
        sole(entries, "baudrate"@),
        sole(entries, "event"@),
        sole(entries, "clients"@),
        sole(entries, "error"@),
    )
}

/// The response that the items of an array stand for: the first kind that has
/// just these members, in order. One text is an event, and never an error.
pub open spec fn response_of_items(items: Seq<(Seq<char>, Member)>) -> Option<Response> {
    let item = |i: int| Some(items[i].1);
    if items.len() == 1 {
        match text_of(item(0)) {
            Some(event) => Some(Response::Event { event }),
            None => None,
        }
    } else if items.len() == 4 {
        match (text_of(item(0)), flag_of(item(1)), text_of(item(2)), number_of(item(3))) {
            (Some(status), Some(serial), Some(port), Some(baudrate)) => Some(
                Response::Status { status, serial, port, baudrate },
            ),
            _ => match (flag_of(item(0)), text_of(item(1)), number_of(item(2)), number_of(item(3))) {
                (Some(serial), Some(port), Some(baudrate), Some(clients)) => Some(
                    Response::ServerInfo { serial, port, baudrate, clients },
                ),
                _ => None,
            },
        }
    } else {
        None
    }
}

/// The response that an object or an array stands for.
pub open spec fn response_of_listing(listing: Listing) -> Option<Response> {
    if listing.keyed {
        response_of_entries(listing.entries)
    } else {
        response_of_items(listing.entries)
    }
}

/// The response that a text stands for.
pub open spec fn response_of(text: Seq<char>) -> Option<Response> {
    match entries::listing_of(text) {
        Some(listing) => response_of_listing(listing),
        None => None,
    }
}

/// Though nothing tags the kinds of responses, none is taken for another: the
/// members that a response is written with stand for that response alone.
pub proof fn responses_are_told_apart(response: Response)
    ensures
        response_of_entries(response_members(response)) == Some(response),
{
    response_keys_differ();
    reveal_with_fuel(json::lookup, 5);
    reveal_with_fuel(occurrences, 5);
}

/// Whether a text is what a response is written as, and reads as it: as an
/// object with its members, and as the response itself.
pub open spec fn written_as(json: Seq<char>, response: Response) -> bool {
    &&& json == response_json(response)
    &&& json::parsed_object(json) == Some(response_members(response))
    &&& entries::listing_of(json) == Some(
        Listing { keyed: true, entries: response_members(response) },
    )
    &&& response_of(json) == Some(response)
    &&& text::nul_free(json)
}

impl StatusResponse {
    /// Serialize this response to JSON.
    pub fn to_json(&self) -> (json: String)
        ensures
            written_as(json@, self@),
    {
        let mut object = json::new_object();
        proof {
            response_keys_differ();
            reveal_with_fuel(json::lookup, 5);
        }
        json::insert(&mut object, "status", Scalar::Text(self.status.clone()));
        json::insert(&mut object, "serial", Scalar::Flag(self.serial));
        json::insert(&mut object, "port", Scalar::Text(self.port.clone()));
        json::insert(&mut object, "baudrate", Scalar::Number(self.baudrate as u64));
        assert(json::members(object) == response_members(self@));
        proof {
            responses_are_told_apart(self@);
        }
        json::write_object(object)
    }
}

impl EventResponse {
    /// Serialize this response to JSON.
    pub fn to_json(&self) -> (json: String)
        ensures
            written_as(json@, self@),
    {
        let mut object = json::new_object();
        json::insert(&mut object, "event", Scalar::Text(self.event.clone()));
        assert(json::members(object) == response_members(self@));
        proof {
            responses_are_told_apart(self@);
        }
        json::write_object(object)
    }
}

impl ServerInfoResponse {
    /// Serialize this response to JSON.
    pub fn to_json(&self) -> (json: String)
        ensures
            written_as(json@, self@),
    {
        let mut object = json::new_object();
        proof {
            response_keys_differ();
            reveal_with_fuel(json::lookup, 5);
        }
        json::insert(&mut object, "serial", Scalar::Flag(self.serial));
        json::insert(&mut object, "port", Scalar::Text(self.port.clone()));
        json::insert(&mut object, "baudrate", Scalar::Number(self.baudrate as u64));
        json::insert(&mut object, "clients", Scalar::Number(self.clients as u64));
        assert(json::members(object) == response_members(self@));
        proof {
            responses_are_told_apart(self@);
        }
        json::write_object(object)
    }
}

impl ErrorResponse {
    /// Serialize this response to JSON.
    pub fn to_json(&self) -> (json: String)
        ensures
            written_as(json@, self@),
    {
        let mut object = json::new_object();
        json::insert(&mut object, "error", Scalar::Text(self.error.clone()));
        assert(json::members(object) == response_members(self@));
        proof {
            responses_are_told_apart(self@);
        }
        json::write_object(object)
    }
}

fn text_in(member: Option<Scalar>) -> (text: Option<String>)
    ensures
        text::optional(text) == text_of(json::scalar_view(member)),
{
    match member {
        Some(Scalar::Text(t)) => Some(t),
        _ => None,
    }
}

fn flag_in(member: Option<Scalar>) -> (flag: Option<bool>)
    ensures
        flag == flag_of(json::scalar_view(member)),
{
    match member {
        Some(Scalar::Flag(b)) => Some(b),
        _ => None,
    }
}

fn number_in(member: Option<Scalar>) -> (number: Option<u32>)
    ensures
        number == number_of(json::scalar_view(member)),
{
    match member {
        Some(Scalar::Number(n)) if n <= 0xffff_ffff => Some(n as u32),
        _ => None,
    }
}

/// Chooses the response that the members of an object stand for.
fn response_from_members(
    status: Option<Scalar>,
    serial: Option<Scalar>,
    port: Option<Scalar>,
    baudrate: Option<Scalar>,
    event: Option<Scalar>,
    clients: Option<Scalar>,
    error: Option<Scalar>,
) -> (response: Option<ResponseMessage>)
    ensures
        (match response {
            Some(r) => Some(r@),
            None => None,
        }) == response_from(
            json::scalar_view(status),
            json::scalar_view(serial),
            json::scalar_view(port),
            json::scalar_view(baudrate),
            json::scalar_view(event),
            json::scalar_view(clients),
            json::scalar_view(error),
        ),
{
    let status = text_in(status);
    let event = text_in(event);
    let error = text_in(error);
    let clients = number_in(clients);
    // What a status and the server information have in common
    let device = match (flag_in(serial), text_in(port), number_in(baudrate)) {
        (Some(serial), Some(port), Some(baudrate)) => Some((serial, port, baudrate)),
        _ => None,
    };
    match (status, event, device, clients, error) {
        (Some(status), _, Some((serial, port, baudrate)), _, _) => Some(
            ResponseMessage::Status(StatusResponse { status, serial, port, baudrate }),
        ),
        (_, Some(event), _, _, _) => Some(ResponseMessage::Event(EventResponse { event })),
        (_, _, Some((serial, port, baudrate)), Some(clients), _) => Some(
            ResponseMessage::ServerInfo(ServerInfoResponse { serial, port, baudrate, clients }),
        ),
        (_, _, _, _, Some(error)) => Some(ResponseMessage::Error(ErrorResponse { error })),
        _ => None,
    }
}

/// A copy of what was read of a value.
fn copy_of(value: &Option<Scalar>) -> (copy: Option<Scalar>)
    ensures
        json::member_of(copy) == json::member_of(*value),
        json::scalar_view(copy) == json::scalar_view(*value),
{
    match value {
        Some(Scalar::Text(t)) => Some(Scalar::Text(t.clone())),
        Some(Scalar::Number(n)) => Some(Scalar::Number(*n)),
        Some(Scalar::Flag(b)) => Some(Scalar::Flag(*b)),
        None => None,
    }
}

/// The value of the only entry with this key.
fn sole_value(entries: &Vec<(String, Option<Scalar>)>, key: &str) -> (value: Option<Scalar>)
    ensures
        json::scalar_view(value) == sole(entries::entries_view(entries@), key@),
{
    let ghost all = entries::entries_view(entries@);
    let mut found: Option<usize> = None;
    let mut repeated = false;
    assert(all.take(0) == Seq::<(Seq<char>, Member)>::empty());
    for i in 0..entries.len()
        invariant
            all == entries::entries_view(entries@),
            repeated == (occurrences(all.take(i as int), key@) > 1),
            match found {
                Some(k) => k < i && occurrences(all.take(i as int), key@) >= 1 && json::lookup(
                    all.take(i as int),
                    key@,
                ) == Some(all[k as int].1),
                None => occurrences(all.take(i as int), key@) == 0,
            },
    {
        proof {
            let next = all.take(i + 1);
            assert(next.drop_last() == all.take(i as int));
            assert(next.last() == all[i as int]);
        }
        if text::same(entries[i].0.as_str(), key) {
            repeated = found.is_some();
            found = Some(i);
        }
    }
    assert(all.take(all.len() as int) == all);
    match found {
        Some(k) if !repeated => copy_of(&entries[k].1),
        _ => None,
    }
}

/// Chooses the response that the items of an array stand for.
fn response_from_items(items: &Vec<(String, Option<Scalar>)>) -> (response: Option<
    ResponseMessage,
>)
    ensures
        (match response {
            Some(r) => Some(r@),
            None => None,
        }) == response_of_items(entries::entries_view(items@)),
{
    let ghost all = entries::entries_view(items@);
    if items.len() == 1 {
        assert(all[0].1 == json::member_of(items@[0].1));
        return match text_in(copy_of(&items[0].1)) {
            Some(event) => Some(ResponseMessage::Event(EventResponse { event })),
            None => None,
        };
    }
    if items.len() != 4 {
        return None;
    }
    assert forall|i: int| 0 <= i < 4 implies (#[trigger] all[i]).1 == json::member_of(
        items@[i].1,
    ) by {}
    let status = text_in(copy_of(&items[0].1));
    let serial = flag_in(copy_of(&items[1].1));
    let port = text_in(copy_of(&items[2].1));
    let baudrate = number_in(copy_of(&items[3].1));
    match (status, serial, port, baudrate) {
        (Some(status), Some(serial), Some(port), Some(baudrate)) => {
            return Some(
                ResponseMessage::Status(StatusResponse { status, serial, port, baudrate }),
            );
        },
        _ => {},
    }
    let serial = flag_in(copy_of(&items[0].1));
    let port = text_in(copy_of(&items[1].1));
    let baudrate = number_in(copy_of(&items[2].1));
    let clients = number_in(copy_of(&items[3].1));
    match (serial, port, baudrate, clients) {
        (Some(serial), Some(port), Some(baudrate), Some(clients)) => Some(
            ResponseMessage::ServerInfo(ServerInfoResponse { serial, port, baudrate, clients }),
        ),
        _ => None,
    }
}

/// Chooses the response that the entries of an object, or the items of an
/// array, stand for.
pub fn response_from_listing(
    keyed: bool,
    entries: &Vec<(String, Option<Scalar>)>,
) -> (response: Option<ResponseMessage>)
    ensures
        (match response {
            Some(r) => Some(r@),
            None => None,
        }) == response_of_listing((Listing { keyed, entries: entries::entries_view(entries@) })),
{
    if !keyed {
        return response_from_items(entries);
    }
    response_from_members(
        sole_value(entries, "status"),
        sole_value(entries, "serial"),
        sole_value(entries, "port"),
        sole_value(entries, "baudrate"),
        sole_value(entries, "event"),
        sole_value(entries, "clients"),
        sole_value(entries, "error"),
    )
}

impl ResponseMessage {
    /// Parse a response from JSON: an object with the members of one kind of
    /// response, each once, or an array of their values in order.
    pub fn from_json(json: &str) -> (response: Option<Self>)
        ensures
            (match response {
                Some(r) => Some(r@),
                None => None,
            }) == response_of(json@),
    {
        match entries::read_listing(json) {
            Some((keyed, entries)) => response_from_listing(keyed, &entries),
            None => None,
        }
    }

    /// Serialize this response to JSON. Reading the result gives the same
    /// response back.
    pub fn to_json(&self) -> (json: String)
        ensures
            written_as(json@, self@),
    {
        match self {
            ResponseMessage::Status(r) => r.to_json(),
            ResponseMessage::Event(r) => r.to_json(),
            ResponseMessage::ServerInfo(r) => r.to_json(),
            ResponseMessage::Error(r) => r.to_json(),
        }
    }
}

proof fn response_keys_differ()
    ensures
        "status"@ != "serial"@,
        "status"@ != "port"@,
        "status"@ != "baudrate"@,
        "status"@ != "event"@,
        "status"@ != "clients"@,
        "status"@ != "error"@,
        "serial"@ != "port"@,
        "serial"@ != "baudrate"@,
        "serial"@ != "event"@,
        "serial"@ != "clients"@,
        "serial"@ != "error"@,
        "port"@ != "baudrate"@,
        "port"@ != "event"@,
        "port"@ != "clients"@,
        "port"@ != "error"@,
        "baudrate"@ != "event"@,
        "baudrate"@ != "clients"@,
        "baudrate"@ != "error"@,
        "event"@ != "clients"@,
        "event"@ != "error"@,
        "clients"@ != "error"@,
{
    reveal_strlit("status");
    reveal_strlit("serial");
    reveal_strlit("port");
    reveal_strlit("baudrate");
    reveal_strlit("event");
    reveal_strlit("clients");
    reveal_strlit("error");
    assert("status"@.len() == 6 && "serial"@.len() == 6 && "port"@.len() == 4
        && "baudrate"@.len() == 8 && "event"@.len() == 5 && "clients"@.len() == 7
        && "error"@.len() == 5);
    assert("status"@[1] == 't' && "serial"@[1] == 'e');
    assert("event"@[1] == 'v' && "error"@[1] == 'r');
}

proof fn command_names_differ()
    ensures
        "history"@ != "status"@,
        "history"@ != "disconnect"@,
        "status"@ != "disconnect"@,
{
    reveal_strlit("history");
    reveal_strlit("status");
    reveal_strlit("disconnect");
    assert("history"@.len() == 7 && "status"@.len() == 6 && "disconnect"@.len() == 10);
}

proof fn history_keys_differ()
    ensures
        "cmd"@ != "lines"@,
        "cmd"@ != "since"@,
        "cmd"@ != "timestamps"@,
        "lines"@ != "since"@,
        "lines"@ != "timestamps"@,
        "since"@ != "timestamps"@,
{
    reveal_strlit("cmd");
    reveal_strlit("lines");
    reveal_strlit("since");
    reveal_strlit("timestamps");
    assert("cmd"@.len() == 3 && "lines"@.len() == 5 && "since"@.len() == 5
        && "timestamps"@.len() == 10);
    assert("lines"@[0] == 'l' && "since"@[0] == 's');
}

/// Only a response that reports an event has a member of that name, and it is
/// the name of the event.
pub proof fn event_members_are_their_own(response: Response)
    ensures
        json::lookup(response_members(response), "event"@) == (match response {
            Response::Event { event } => Some(Member::Text(event)),
            _ => None,
        }),
{
    response_keys_differ();
    reveal_with_fuel(json::lookup, 5);
}

/// What is no JSON object, names no command or names one that is not known, is
/// kept as it is.
pub proof fn what_is_not_understood_is_kept(text: Seq<char>)
    requires
        json::parsed_object(text) matches Some(members) ==> match json::lookup(members, "cmd"@) {
            Some(Member::Text(name)) => name != "history"@ && name != "status"@ && name
                != "disconnect"@,
            _ => true,
        },
    ensures
        control_of(text) == Control::Unknown(text),
{
}

/// A request for history asks for what its members say, each by itself: so many
/// lines, or fifty; with timestamps, or without; since a pattern, or not.
pub proof fn history_requests_say_what_they_ask_for(text: Seq<char>)
    requires
        json::parsed_object(text) matches Some(members) && json::lookup(members, "cmd"@) == Some(
            Member::Text("history"@),
        ),
    ensures
        ({
            let members = json::parsed_object(text)->0;
            control_of(text) matches Control::History { lines, timestamps, since } && {
                &&& match json::lookup(members, "lines"@) {
                    Some(Member::Number(n)) if n <= usize::MAX => lines == n,
                    _ => lines == 50,
                }
                &&& timestamps == (json::lookup(members, "timestamps"@) == Some(
                    Member::Flag(true),
                ))
                &&& match json::lookup(members, "since"@) {
                    Some(Member::Text(pattern)) => since == Some(pattern),
                    _ => since is None,
                }
            }
        }),
{
}

/// The two commands without members are told by their names.
pub proof fn commands_are_told_by_their_names(text: Seq<char>)
    requires
        json::parsed_object(text) is Some,
    ensures
        ({
            let cmd = json::lookup(json::parsed_object(text)->0, "cmd"@);
            &&& control_of(text) is Status <==> cmd == Some(Member::Text("status"@))
            &&& control_of(text) is Disconnect <==> cmd == Some(Member::Text("disconnect"@))
            &&& control_of(text) is History <==> cmd == Some(Member::Text("history"@))
        }),
{
    command_names_differ();
}

/// A response that is written as an array reads as the first kind with such
/// members: as itself, but an error as the event of that text.
pub proof fn arrays_read_as_what_they_list(response: Response, keys: Seq<Seq<char>>)
    requires
        keys.len() == response_members(response).len(),
    ensures
        ({
            let members = response_members(response);
            let items = Seq::new(members.len(), |i: int| (keys[i], members[i].1));
            response_of_items(items) == Some(
                match response {
                    Response::Error { error } => Response::Event { event: error },
                    _ => response,
                },
            )
        }),
{
}

proof fn other_entries_do_not_count(
    entries: Seq<(Seq<char>, Member)>,
    key: Seq<char>,
    value: Member,
    sought: Seq<char>,
)
    requires
        key != sought,
    ensures
        sole(entries.push((key, value)), sought) == sole(entries, sought),
{
    assert(entries.push((key, value)).drop_last() == entries);
}

/// An entry that no kind of response has makes no difference.
pub proof fn other_members_do_not_matter(
    entries: Seq<(Seq<char>, Member)>,
    key: Seq<char>,
    value: Member,
)
    requires
        key != "status"@ && key != "serial"@ && key != "port"@ && key != "baudrate"@ && key
            != "event"@ && key != "clients"@ && key != "error"@,
    ensures
        response_of_entries(entries.push((key, value))) == response_of_entries(entries),
{
    other_entries_do_not_count(entries, key, value, "status"@);
    other_entries_do_not_count(entries, key, value, "serial"@);
    other_entries_do_not_count(entries, key, value, "port"@);
    other_entries_do_not_count(entries, key, value, "baudrate"@);
    other_entries_do_not_count(entries, key, value, "event"@);
    other_entries_do_not_count(entries, key, value, "clients"@);
    other_entries_do_not_count(entries, key, value, "error"@);
}

proof fn occurring_is_counted(entries: Seq<(Seq<char>, Member)>, at: int)
    requires
        0 <= at < entries.len(),
    ensures
        occurrences(entries, entries[at].0) >= 1,
    decreases entries.len(),
{
    if at < entries.len() - 1 {
        occurring_is_counted(entries.drop_last(), at);
        assert(entries.drop_last()[at] == entries[at]);
    }
}

/// A key that comes a second time counts as missing, whatever its values; one
/// that comes once counts with its value, wherever it stands.
pub proof fn repeated_members_count_as_missing(
    entries: Seq<(Seq<char>, Member)>,
    at: int,
    value: Member,
)
    requires
        0 <= at < entries.len(),
    ensures
        sole(entries.push((entries[at].0, value)), entries[at].0) is None,
        (forall|i: int|
            0 <= i < entries.len() && i != at ==> (#[trigger] entries[i]).0 != entries[at].0)
            ==> sole(entries, entries[at].0) == json::usable(Some(entries[at].1)),
{
    let key = entries[at].0;
    assert(entries.push((key, value)).drop_last() == entries);
    occurring_is_counted(entries, at);
    if forall|i: int| 0 <= i < entries.len() && i != at ==> (#[trigger] entries[i]).0 != key {
        sole_entry_is_found(entries, at);
    }
}

proof fn sole_entry_is_found(entries: Seq<(Seq<char>, Member)>, at: int)
    requires
        0 <= at < entries.len(),
        forall|i: int|
            0 <= i < entries.len() && i != at ==> (#[trigger] entries[i]).0 != entries[at].0,
    ensures
        occurrences(entries, entries[at].0) == 1,
        json::lookup(entries, entries[at].0) == Some(entries[at].1),
    decreases entries.len(),
{
    let key = entries[at].0;
    let fewer = entries.drop_last();
    if at < entries.len() - 1 {
        assert forall|i: int| 0 <= i < fewer.len() && i != at implies (#[trigger] fewer[i]).0
            != fewer[at].0 by {
            assert(fewer[i] == entries[i]);
        }
        assert(fewer[at] == entries[at]);
        sole_entry_is_found(fewer, at);
        assert(entries[entries.len() - 1].0 != key);
    } else {
        assert forall|i: int| 0 <= i < fewer.len() implies (#[trigger] fewer[i]).0 != key by {
            assert(fewer[i] == entries[i]);
        }
        missing_key_is_not_counted(fewer, key);
    }
}

proof fn missing_key_is_not_counted(entries: Seq<(Seq<char>, Member)>, key: Seq<char>)
    requires
        forall|i: int| 0 <= i < entries.len() ==> (#[trigger] entries[i]).0 != key,
    ensures
        occurrences(entries, key) == 0,
    decreases entries.len(),
{
    if entries.len() > 0 {
        let fewer = entries.drop_last();
        assert forall|i: int| 0 <= i < fewer.len() implies (#[trigger] fewer[i]).0 != key by {
            assert(fewer[i] == entries[i]);
        }
        missing_key_is_not_counted(fewer, key);
        assert(entries[entries.len() - 1].0 != key);
    }
}

/// An object reads as the first kind of response, of status, event, server
/// information and error, whose members it has, and as none where it has those
/// of none.
pub proof fn the_first_complete_kind_counts(
    status: Option<Member>,
    serial: Option<Member>,
    port: Option<Member>,
    baudrate: Option<Member>,
    event: Option<Member>,
    clients: Option<Member>,
    error: Option<Member>,
)
    ensures
        ({
            let read = response_from(status, serial, port, baudrate, event, clients, error);
            let device = (serial matches Some(Member::Flag(_))) && (port matches Some(
                Member::Text(_),
            )) && (baudrate matches Some(Member::Number(n)) && n <= 0xffff_ffff);
            let is_status = device && (status matches Some(Member::Text(_)));
            let is_event = event matches Some(Member::Text(_));
            let is_info = device && (clients matches Some(Member::Number(n)) && n <= 0xffff_ffff);
            let is_error = error matches Some(Member::Text(_));
            &&& read is Some <==> is_status || is_event || is_info || is_error
            &&& is_status ==> read->0 is Status
            &&& !is_status && is_event ==> read->0 is Event
            &&& !is_status && !is_event && is_info ==> read->0 is ServerInfo
            &&& !is_status && !is_event && !is_info && is_error ==> read->0 is Error
            &&& read matches Some(Response::Status { status: s, serial: f, port: p, baudrate: b })
                ==> status == Some(Member::Text(s)) && serial == Some(Member::Flag(f)) && port
                == Some(Member::Text(p)) && baudrate == Some(Member::Number(b as u64))
            &&& read matches Some(Response::Event { event: e }) ==> event == Some(Member::Text(e))
            &&& read matches Some(
                Response::ServerInfo { serial: f, port: p, baudrate: b, clients: c },
            ) ==> serial == Some(Member::Flag(f)) && port == Some(Member::Text(p)) && baudrate
                == Some(Member::Number(b as u64)) && clients == Some(Member::Number(c as u64))
            &&& read matches Some(Response::Error { error: e }) ==> error == Some(Member::Text(e))
        }),
{
}

/// A command is written with its name in front, and a request for history with all
/// that it asks for behind it.
pub proof fn commands_are_written_with_all_they_ask_for(message: Control)
    ensures
        ({
            let members = control_members(message);
            match message {
                Control::History { lines, timestamps, since } => {
                    &&& members.len() == 3 + (if since is Some {
                        1int
                    } else {
                        0int
                    })
                    &&& members[0] == ("cmd"@, Member::Text("history"@))
                    &&& members[1] == ("lines"@, Member::Number(lines as u64))
                    &&& since is Some ==> members[2] == ("since"@, Member::Text(since->0))
                    &&& members.last() == ("timestamps"@, Member::Flag(timestamps))
                    &&& control_json(message) == json::object_text(members)
                },
                Control::Status => control_json(message) == json::object_text(
                    seq![("cmd"@, Member::Text("status"@))],
                ),
                Control::Disconnect => control_json(message) == json::object_text(
                    seq![("cmd"@, Member::Text("disconnect"@))],
                ),
                Control::Unknown(text) => control_json(message) == text,
            }
        }),
{
}

/// An array is a response if it lists one text, or what a status or the server
/// says of itself, and otherwise none.
pub proof fn only_complete_arrays_are_responses(items: Seq<(Seq<char>, Member)>)
    ensures
        ({
            let read = response_of_items(items);
            let device = |at: int|
                (items[at].1 is Flag) && (items[at + 1].1 is Text) && (items[at + 2].1 matches
                    Member::Number(n) && n <= 0xffff_ffff);
            let is_event = items.len() == 1 && items[0].1 is Text;
            let is_status = items.len() == 4 && items[0].1 is Text && device(1);
            let is_info = items.len() == 4 && device(0) && (items[3].1 matches Member::Number(n)
                && n <= 0xffff_ffff);
            &&& read is Some <==> is_event || is_status || is_info
            &&& is_event ==> read == Some(Response::Event { event: items[0].1->Text_0 })
            &&& is_status ==> read == Some(
                Response::Status {
                    status: items[0].1->Text_0,
                    serial: items[1].1->Flag_0,
                    port: items[2].1->Text_0,
                    baudrate: items[3].1->Number_0 as u32,
                },
            )
            &&& is_info ==> read == Some(
                Response::ServerInfo {
                    serial: items[0].1->Flag_0,
                    port: items[1].1->Text_0,
                    baudrate: items[2].1->Number_0 as u32,
                    clients: items[3].1->Number_0 as u32,
                },
            )
        }),
{
}

/// A text is read as the response that its object or its array is; any other text
/// is none.
pub proof fn texts_are_read_as_what_they_list(text: Seq<char>, listing: Listing)
    ensures
        entries::listing_of(text) is None ==> response_of(text) is None,
        entries::listing_of(text) == Some(listing) && !listing.keyed ==> response_of(text)
            == response_of_items(listing.entries),
        entries::listing_of(text) == Some(listing) && listing.keyed ==> response_of(text)
            == response_from(
            sole(listing.entries, "status"@),
            sole(listing.entries, "serial"@),
            sole(listing.entries, "port"@),
            sole(listing.entries, "baudrate"@),
            sole(listing.entries, "event"@),
            sole(listing.entries, "clients"@),
            sole(listing.entries, "error"@),
        ),
{
}

/// What was written of a command is read as the command, and what was written of a
/// response as the response.
pub proof fn messages_are_read_as_they_were_written(
    control: &ControlMessage,
    response: &ResponseMessage,
    written: String,
    text: &str,
    control_read: ControlMessage,
    response_read: Option<ResponseMessage>,
)
    requires
        text@ == written@,
    ensures
        call_ensures(ControlMessage::to_json, (control,), written) && call_ensures(
            ControlMessage::from_json,
            (text,),
            control_read,
        ) && !(control is Unknown) ==> control_read@ == control@,
        call_ensures(ResponseMessage::to_json, (response,), written) && call_ensures(
            ResponseMessage::from_json,
            (text,),
            response_read,
        ) ==> response_read is Some && response_read->0@ == response@,
{
}

} // verus!

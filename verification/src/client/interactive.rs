//! The interactive session: keys, what is shown, and the bridge to a socket.

pub use crate::client::timestamper::LineTimestamper;
use crate::client::timestamper;
use crate::client::timestamper::Tracking;
use crate::json;
use crate::json::{Member, Scalar};
use crate::protocol::encode;
use crate::protocol::encode::Segment;
use crate::protocol::message;
use crate::protocol::message::Response;
use crate::protocol::parser;
use crate::protocol::parser::{Event, MessageKind, ParseEvent, Parser, State};
use crate::server::log_writer;
use crate::text;
use vstd::prelude::*;
use vstd::utf8::*;

verus! {

/// Escape sequence state machine for keyboard shortcuts.
#[derive(Debug, Clone, Copy, PartialEq, Eq, Structural)]
pub enum EscapeState {
    Normal,
    /// Received Ctrl+T, waiting for next key
    CtrlT,
}

/// A key of the keyboard, as far as the session tells keys apart.
#[derive(Debug, Clone, Copy, PartialEq, Eq, Structural)]
pub enum KeyCode {
    Char(char),
    Enter,
    Backspace,
    Tab,
    Esc,
    Up,
    Down,
    Right,
    Left,
    /// Any other key.
    Other,
}

/// A key and whether Ctrl was held with it.
#[derive(Debug, Clone, Copy, PartialEq, Eq, Structural)]
pub struct KeyEvent {
    pub code: KeyCode,
    pub control: bool,
}

/// Action to take based on a key event.
#[derive(Debug, Clone, PartialEq)]
pub enum KeyAction {
    Quit,
    SendByte(u8),
    SendBytes(Vec<u8>),
    Nothing,
}

/// What a [`KeyAction`] says.
pub enum KeyEffect {
    Quit,
    SendByte(u8),
    SendBytes(Seq<u8>),
    Nothing,
}

impl View for KeyAction {
    type V = KeyEffect;

    open spec fn view(&self) -> KeyEffect {
        match *self {
            KeyAction::Quit => KeyEffect::Quit,
            KeyAction::SendByte(b) => KeyEffect::SendByte(b),
            KeyAction::SendBytes(bytes) => KeyEffect::SendBytes(bytes@),
            KeyAction::Nothing => KeyEffect::Nothing,
        }
    }
}

/// The byte that Ctrl makes of a character: the low byte of its code point,
/// counted from the backtick and wrapped round.
pub open spec fn control_code(c: char) -> u8 {
    ((c as u32 % 256 - 0x60) % 256) as u8
}

/// What a key sends by itself.
pub open spec fn key_effect(key: KeyEvent) -> KeyEffect {
    match key.code {
        KeyCode::Char(c) => if key.control {
            KeyEffect::SendByte(control_code(c))
        } else {
            let bytes = encode_utf8(seq![c]);
            if bytes.len() == 1 {
                KeyEffect::SendByte(bytes[0])
            } else {
                KeyEffect::SendBytes(bytes)
            }
        },
        KeyCode::Enter => KeyEffect::SendByte(0x0d),
        KeyCode::Backspace => KeyEffect::SendByte(0x7f),
        KeyCode::Tab => KeyEffect::SendByte(0x09),
        KeyCode::Esc => KeyEffect::SendByte(0x1b),
        KeyCode::Up => KeyEffect::SendBytes(seq![0x1bu8, 0x5bu8, 0x41u8]),
        KeyCode::Down => KeyEffect::SendBytes(seq![0x1bu8, 0x5bu8, 0x42u8]),
        KeyCode::Right => KeyEffect::SendBytes(seq![0x1bu8, 0x5bu8, 0x43u8]),
        KeyCode::Left => KeyEffect::SendBytes(seq![0x1bu8, 0x5bu8, 0x44u8]),
        KeyCode::Other => KeyEffect::Nothing,
    }
}

/// Ctrl with a character.
pub open spec fn is_control(key: KeyEvent, c: char) -> bool {
    key.code == KeyCode::Char(c) && key.control
}

/// What a key does in the session: the next state of the prefix, and the
/// effect.
pub open spec fn key_step(state: EscapeState, key: KeyEvent) -> (EscapeState, KeyEffect) {
    match state {
        EscapeState::Normal => if is_control(key, ']') {
            (EscapeState::Normal, KeyEffect::Quit)
        } else if is_control(key, 't') {
            (EscapeState::CtrlT, KeyEffect::Nothing)
        } else {
            (EscapeState::Normal, key_effect(key))
        },
        EscapeState::CtrlT => if key.code == KeyCode::Char('q') || key.code == KeyCode::Char(
            'Q',
        ) {
            (EscapeState::Normal, KeyEffect::Quit)
        } else if is_control(key, 't') {
            (EscapeState::Normal, KeyEffect::SendByte(0x14))
        } else {
            (EscapeState::Normal, key_effect(key))
        },
    }
}

/// Convert a key event to a send action.
fn key_to_action(key: KeyEvent) -> (action: KeyAction)
    ensures
        action@ == key_effect(key),
{
    match key.code {
        KeyCode::Char(c) => {
            if key.control {
                // Ctrl+letter: ASCII control code
                let low: u8 = (c as u32 % 256) as u8;
                KeyAction::SendByte(low.wrapping_sub(0x60))
            } else {
                let mut s = String::new();
                s.push(c);
                assert(s@ == seq![c]);
                let bytes = s.as_str().as_bytes();
                if bytes.len() == 1 {
                    KeyAction::SendByte(bytes[0])
                } else {
                    KeyAction::SendBytes(vstd::slice::slice_to_vec(bytes))
                }
            }
        },
        KeyCode::Enter => KeyAction::SendByte(0x0d),
        KeyCode::Backspace => KeyAction::SendByte(0x7f),
        KeyCode::Tab => KeyAction::SendByte(0x09),
        KeyCode::Esc => KeyAction::SendByte(0x1b),
        KeyCode::Up => arrow(0x41),
        KeyCode::Down => arrow(0x42),
        KeyCode::Right => arrow(0x43),
        KeyCode::Left => arrow(0x44),
        KeyCode::Other => KeyAction::Nothing,
    }
}

/// The escape sequence of an arrow key.
fn arrow(letter: u8) -> (action: KeyAction)
    ensures
        action@ == KeyEffect::SendBytes(seq![0x1bu8, 0x5bu8, letter]),
{
    let mut bytes: Vec<u8> = Vec::new();
    bytes.push(0x1b);
    bytes.push(0x5b);
    bytes.push(letter);
    assert(bytes@ == seq![0x1bu8, 0x5bu8, letter]);
    KeyAction::SendBytes(bytes)
}

/// Process a key event through the escape state machine.
pub fn handle_key(key: KeyEvent, state: &mut EscapeState) -> (action: KeyAction)
    ensures
        (*final(state), action@) == key_step(*old(state), key),
{
    match *state {
        EscapeState::Normal => {
            // Ctrl+]: quit
            if key.code == KeyCode::Char(']') && key.control {
                return KeyAction::Quit;
            }
            // Ctrl+T: enter escape prefix
            if key.code == KeyCode::Char('t') && key.control {
                *state = EscapeState::CtrlT;
                return KeyAction::Nothing;
            }
            // Regular key: forward to serial
            key_to_action(key)
        },
        EscapeState::CtrlT => {
            *state = EscapeState::Normal;
            // Q: quit
            if key.code == KeyCode::Char('q') || key.code == KeyCode::Char('Q') {
                return KeyAction::Quit;
            }
            // Ctrl+T: send literal Ctrl+T
            if key.code == KeyCode::Char('t') && key.control {
                return KeyAction::SendByte(0x14);
            }
            // Anything else: swallow the prefix and forward the key
            key_to_action(key)
        },
    }
}

/// The prefix lasts for one key only: whatever follows it, the session is
/// back to normal.
pub proof fn prefix_lasts_for_one_key(key: KeyEvent)
    ensures
        key_step(EscapeState::CtrlT, key).0 == EscapeState::Normal,
{
}

/// The session ends on Ctrl+], or on Q behind the prefix, and on no other
/// key.
pub proof fn only_quit_keys_quit(state: EscapeState, key: KeyEvent)
    ensures
        key_step(state, key).1 is Quit <==> match state {
            EscapeState::Normal => is_control(key, ']'),
            EscapeState::CtrlT => key.code == KeyCode::Char('q') || key.code == KeyCode::Char(
                'Q',
            ),
        },
{
}

/// Typing the prefix twice sends what the prefix key would send by itself,
/// so that no byte is out of reach.
pub proof fn doubled_prefix_is_literal(key: KeyEvent)
    requires
        is_control(key, 't'),
    ensures
        ({
            let (waiting, first) = key_step(EscapeState::Normal, key);
            let (after, second) = key_step(waiting, key);
            &&& first is Nothing
            &&& second == key_effect(key)
            &&& after == EscapeState::Normal
        }),
{
    assert(control_code('t') == 0x14);
}

/// Ctrl with a lower-case letter sends the ASCII control code of the letter.
pub proof fn control_letters_are_control_codes(c: char)
    requires
        'a' <= c <= 'z',
    ensures
        control_code(c) == c as u32 - 'a' as u32 + 1,
{
}

/// What happens to a session.
pub enum SessionEvent {
    /// Data came from the device.
    Incoming(Vec<u8>),
    /// No more data will come.
    ConnectionLost,
    /// A key was pressed.
    Key(KeyEvent),
    /// Some other terminal event.
    OtherInput,
    /// The terminal could not be read, for this reason.
    InputFailed(String),
    /// The terminal gives no more input.
    InputClosed,
}

/// What a session does next.
#[derive(Debug, Clone, PartialEq)]
pub enum SessionAction {
    /// Write these bytes to the terminal and go on.
    Show(Vec<u8>),
    /// Send these bytes to the device and go on.
    Send(Vec<u8>),
    /// Go on.
    Wait,
    /// End the session.
    Stop,
    /// Tell the user this and end the session.
    StopWith(String),
}

/// What a [`SessionAction`] says.
pub enum Reaction {
    Show(Seq<u8>),
    Send(Seq<u8>),
    Wait,
    Stop,
    StopWith(Seq<char>),
}

impl View for SessionAction {
    type V = Reaction;

    open spec fn view(&self) -> Reaction {
        match *self {
            SessionAction::Show(bytes) => Reaction::Show(bytes@),
            SessionAction::Send(bytes) => Reaction::Send(bytes@),
            SessionAction::Wait => Reaction::Wait,
            SessionAction::Stop => Reaction::Stop,
            SessionAction::StopWith(notice) => Reaction::StopWith(notice@),
        }
    }
}

/// What a session does for the effect of a key.
pub open spec fn key_reaction(effect: KeyEffect) -> Reaction {
    match effect {
        KeyEffect::Quit => Reaction::Stop,
        KeyEffect::SendByte(b) => Reaction::Send(seq![b]),
        KeyEffect::SendBytes(bytes) => Reaction::Send(bytes),
        KeyEffect::Nothing => Reaction::Wait,
    }
}

/// An interactive session between a terminal and a device. The program
/// around it waits for events and carries out what the session answers.
pub struct InteractiveSession {
    timestamps: bool,
    escape_state: EscapeState,
    timestamper: LineTimestamper,
}

/// Where a session stands between two events.
pub struct SessionState {
    pub timestamps: bool,
    pub escape: EscapeState,
    pub tracking: Tracking,
}

impl View for InteractiveSession {
    type V = SessionState;

    closed spec fn view(&self) -> SessionState {
        SessionState {
            timestamps: self.timestamps,
            escape: self.escape_state,
            tracking: self.timestamper@,
        }
    }
}

/// What a session does for an event, given where it stands before and after.
/// Only the times that are shown are left open.
pub open spec fn session_step(
    before: SessionState,
    event: SessionEvent,
    after: SessionState,
    reaction: Reaction,
) -> bool {
    match event {
        SessionEvent::Incoming(data) => if before.timestamps {
            &&& after == SessionState {
                tracking: timestamper::track_all(before.tracking, data@),
                ..before
            }
            &&& exists|stamps: Seq<Seq<char>>|
                #[trigger] log_writer::stamps_for(
                    stamps,
                    timestamper::openings(before.tracking, data@),
                ) && reaction == Reaction::Show(
                    timestamper::shown(before.tracking, data@, stamps),
                )
        } else {
            after == before && reaction == Reaction::Show(data@)
        },
        SessionEvent::ConnectionLost => after == before && reaction == Reaction::StopWith(
            "\r\nConnection lost"@,
        ),
        SessionEvent::Key(key) => {
            let (escape, effect) = key_step(before.escape, key);
            after == (SessionState { escape, ..before }) && reaction == key_reaction(effect)
        },
        SessionEvent::OtherInput => after == before && reaction == Reaction::Wait,
        SessionEvent::InputFailed(reason) => after == before && reaction == Reaction::StopWith(
            "\r\nInput error: "@ + reason@,
        ),
        SessionEvent::InputClosed => after == before && reaction == Reaction::Stop,
    }
}

impl InteractiveSession {
    /// A session that starts on a new line, with or without timestamps.
    pub fn new(timestamps: bool) -> (session: Self)
        ensures
            session@ == (SessionState {
                timestamps,
                escape: EscapeState::Normal,
                tracking: Tracking {
                    at_line_start: true,
                    ansi: timestamper::AnsiState::Normal,
                    csi: seq![],
                    sgr: seq![],
                },
            }),
    {
        InteractiveSession {
            timestamps,
            escape_state: EscapeState::Normal,
            timestamper: LineTimestamper::new(),
        }
    }

    /// Decides what to do for an event.
    pub fn step(&mut self, event: SessionEvent) -> (action: SessionAction)
        ensures
            session_step(old(self)@, event, final(self)@, action@),
    {
        match event {
            SessionEvent::Incoming(bytes) => {
                if self.timestamps {
                    SessionAction::Show(self.timestamper.process(bytes.as_slice()))
                } else {
                    SessionAction::Show(bytes)
                }
            },
            SessionEvent::ConnectionLost => {
                SessionAction::StopWith("\r\nConnection lost".to_owned())
            },
            SessionEvent::Key(key) => match handle_key(key, &mut self.escape_state) {
                KeyAction::Quit => SessionAction::Stop,
                KeyAction::SendByte(b) => {
                    let mut bytes: Vec<u8> = Vec::new();
                    bytes.push(b);
                    assert(bytes@ == seq![b]);
                    SessionAction::Send(bytes)
                },
                KeyAction::SendBytes(bytes) => SessionAction::Send(bytes),
                KeyAction::Nothing => SessionAction::Wait,
            },
            SessionEvent::OtherInput => SessionAction::Wait,
            SessionEvent::InputFailed(reason) => {
                let mut notice = "\r\nInput error: ".to_owned();
                notice.append(reason.as_str());
                SessionAction::StopWith(notice)
            },
            SessionEvent::InputClosed => SessionAction::Stop,
        }
    }
}

/// Whether a response only marks the end of a history.
pub open spec fn marks_history_end(text: Seq<char>) -> bool {
    json::parsed_object(text) matches Some(members) && json::lookup(members, "event"@) == Some(
        Member::Text("history_end"@),
    )
}

/// Whether the member of a response that names an event names the end of a
/// history.
pub fn names_history_end(event: Option<Scalar>) -> (end: bool)
    ensures
        end == (json::scalar_view(event) == Some(Member::Text("history_end"@))),
{
    match event {
        Some(Scalar::Text(name)) => text::same(name.as_str(), "history_end"),
        _ => false,
    }
}

/// Whether a response only marks the end of a history.
pub fn is_history_end(text: &str) -> (end: bool)
    ensures
        end == marks_history_end(text@),
{
    match json::parse_object(text) {
        Some(object) => names_history_end(json::get(&object, "event")),
        None => false,
    }
}

/// What the user sees of a response.
pub open spec fn server_notice(text: Seq<char>) -> Seq<char> {
    "\r\n[server: "@ + text + "]\r\n"@
}

/// The data among some events: a malformed escape is the two bytes it came
/// as.
pub open spec fn data_of(events: Seq<Event>) -> Seq<u8>
    decreases events.len(),
{
    if events.len() == 0 {
        seq![]
    } else {
        let before = data_of(events.drop_last());
        match events.last() {
            Event::DataByte(b) => before.push(b),
            Event::MalformedEscape(b) => before.push(0).push(b),
            _ => before,
        }
    }
}

/// The notices for the responses among some events, in order.
pub open spec fn notices_of(events: Seq<Event>) -> Seq<Seq<u8>>
    decreases events.len(),
{
    if events.len() == 0 {
        seq![]
    } else {
        let before = notices_of(events.drop_last());
        match events.last() {
            Event::Message { kind: MessageKind::Response, json } => if marks_history_end(json) {
                before
            } else {
                before.push(encode_utf8(server_notice(json)))
            },
            _ => before,
        }
    }
}

/// What the terminal gets for the events of one chunk: the notices, then the
/// data if there is any.
pub open spec fn deliveries(events: Seq<Event>) -> Seq<Seq<u8>> {
    let data = data_of(events);
    if data.len() > 0 {
        notices_of(events).push(data)
    } else {
        notices_of(events)
    }
}

/// What the terminal gets for the events of one chunk.
pub fn deliver(events: &Vec<ParseEvent>) -> (out: Vec<Vec<u8>>)
    ensures
        text::byte_seqs(out@) == deliveries(parser::events_view(events@)),
{
    let mut out: Vec<Vec<u8>> = Vec::new();
    let mut data: Vec<u8> = Vec::new();
    let ghost all = parser::events_view(events@);
    assert(all.take(0) == Seq::<Event>::empty());
    assert(text::byte_seqs(out@) == Seq::<Seq<u8>>::empty());
    for i in 0..events.len()
        invariant
            all == parser::events_view(events@),
            data@ == data_of(all.take(i as int)),
            text::byte_seqs(out@) == notices_of(all.take(i as int)),
    {
        let event = &events[i];
        proof {
            let next = all.take(i + 1);
            assert(next.drop_last() == all.take(i as int));
            assert(next.last() == event@);
        }
        match event {
            ParseEvent::DataByte(b) => {
                data.push(*b);
            },
            ParseEvent::MalformedEscape(b) => {
                data.push(0x00);
                data.push(*b);
            },
            ParseEvent::Message { kind: MessageKind::Response, json } => {
                // Suppress internal history_end events
                if !is_history_end(json.as_str()) {
                    let mut notice = "\r\n[server: ".to_owned();
                    notice.append(json.as_str());
                    notice.append("]\r\n");
                    let ghost before = out@;
                    let bytes = vstd::slice::slice_to_vec(notice.as_str().as_bytes());
                    out.push(bytes);
                    assert(text::byte_seqs(out@) == text::byte_seqs(before).push(bytes@));
                }
            },
            _ => {},
        }
    }
    assert(all.take(all.len() as int) == all);
    if data.len() > 0 {
        let ghost before = out@;
        let ghost last = data@;
        out.push(data);
        assert(text::byte_seqs(out@) == text::byte_seqs(before).push(last));
    }
    out
}

/// The reading side of a session over a socket: takes what the server sends
/// and gives what the terminal gets.
pub struct SocketBridge {
    parser: Parser,
}

impl View for SocketBridge {
    type V = State;

    closed spec fn view(&self) -> State {
        self.parser@
    }
}

impl SocketBridge {
    /// A bridge at the start of a stream.
    pub fn new() -> (bridge: Self)
        ensures
            bridge@ == State::Normal,
    {
        SocketBridge { parser: Parser::new() }
    }

    /// Takes a chunk of the stream.
    pub fn receive(&mut self, chunk: &[u8]) -> (out: Vec<Vec<u8>>)
        ensures
            final(self)@ == parser::run(old(self)@, chunk@).0,
            text::byte_seqs(out@) == deliveries(parser::run(old(self)@, chunk@).1),
    {
        let events = self.parser.feed_bytes(chunk);
        deliver(&events)
    }
}

proof fn data_events_are_data(data: Seq<u8>)
    ensures
        data_of(encode::data_events(data)) == data,
        notices_of(encode::data_events(data)) == Seq::<Seq<u8>>::empty(),
    decreases data.len(),
{
    let events = encode::data_events(data);
    if data.len() == 0 {
        assert(events == Seq::<Event>::empty());
    } else {
        let before = data.drop_last();
        data_events_are_data(before);
        assert(events.drop_last() == encode::data_events(before));
        assert(events.last() == Event::DataByte(data.last()));
        assert(before.push(data.last()) == data);
    }
}

/// Data that one side encodes reaches the terminal of the other as it was,
/// NUL bytes and all.
pub proof fn encoded_data_is_delivered(data: Seq<u8>)
    ensures
        deliveries(parser::run(State::Normal, encode::escaped(data)).1) == (if data.len() > 0 {
            seq![data]
        } else {
            Seq::<Seq<u8>>::empty()
        }),
{
    encode::data_round_trip(data);
    data_events_are_data(data);
    assert(Seq::<Seq<u8>>::empty().push(data) == seq![data]);
}

/// A history reaches the terminal as its lines alone: the response that
/// marks its end is not shown.
pub proof fn history_is_shown_without_its_end(data: Seq<u8>, json: Seq<char>)
    requires
        marks_history_end(json),
    ensures
        deliveries(
            encode::data_events(data).push(Event::Message { kind: MessageKind::Response, json }),
        ) == (if data.len() > 0 {
            seq![data]
        } else {
            Seq::<Seq<u8>>::empty()
        }),
{
    let events = encode::data_events(data);
    let last = Event::Message { kind: MessageKind::Response, json };
    data_events_are_data(data);
    assert(events.push(last).drop_last() == events);
    assert(Seq::<Seq<u8>>::empty().push(data) == seq![data]);
}

/// The data in two runs of events is that of the first and that of the second.
pub proof fn data_adds_up(first: Seq<Event>, second: Seq<Event>)
    ensures
        data_of(first + second) == data_of(first) + data_of(second),
    decreases second.len(),
{
    if second.len() == 0 {
        assert(first + second == first);
        assert(data_of(first) + Seq::<u8>::empty() == data_of(first));
    } else {
        data_adds_up(first, second.drop_last());
        assert((first + second).drop_last() == first + second.drop_last());
        assert((first + second).last() == second.last());
        let before = data_of(first);
        let after = data_of(second.drop_last());
        match second.last() {
            Event::DataByte(b) => {
                assert((before + after).push(b) == before + after.push(b));
            },
            Event::MalformedEscape(b) => {
                assert((before + after).push(0).push(b) == before + after.push(0).push(b));
            },
            _ => {},
        }
    }
}

/// Data reaches the terminal whole however the stream is cut on its way, in
/// the middle of an escape too.
pub proof fn cut_stream_delivers_all_data(data: Seq<u8>, first: Seq<u8>, second: Seq<u8>)
    requires
        first + second == encode::escaped(data),
    ensures
        ({
            let (mid, before) = parser::run(State::Normal, first);
            let after = parser::run(mid, second).1;
            data_of(before) + data_of(after) == data
        }),
{
    let (mid, before) = parser::run(State::Normal, first);
    let after = parser::run(mid, second).1;
    parser::chunks_add_up(State::Normal, first, second);
    encode::data_round_trip(data);
    data_events_are_data(data);
    data_adds_up(before, after);
}

/// The data among the parts of a stream.
pub open spec fn segment_data(segments: Seq<Segment>) -> Seq<u8>
    decreases segments.len(),
{
    if segments.len() == 0 {
        seq![]
    } else {
        let before = segment_data(segments.drop_last());
        match segments.last() {
            Segment::Data(data) => before + data,
            Segment::Message { .. } => before,
        }
    }
}

proof fn stream_data(segments: Seq<Segment>)
    ensures
        data_of(encode::stream_events(segments)) == segment_data(segments),
    decreases segments.len(),
{
    if segments.len() > 0 {
        let rest = segments.drop_last();
        stream_data(rest);
        let events = encode::segment_events(segments.last());
        data_adds_up(encode::stream_events(rest), events);
        match segments.last() {
            Segment::Data(data) => {
                data_events_are_data(data);
            },
            Segment::Message { kind, json } => {
                assert(events.drop_last() == Seq::<Event>::empty());
                assert(data_of(events.drop_last()) == Seq::<u8>::empty());
                assert(data_of(events) == Seq::<u8>::empty());
                assert(segment_data(rest) + Seq::<u8>::empty() == segment_data(rest));
            },
        }
    }
}

/// Messages between the data do not disturb it: the data of a mixed stream
/// is the data that was put into it, in order.
pub proof fn messages_do_not_disturb_data(segments: Seq<Segment>)
    requires
        forall|i: int| 0 <= i < segments.len() ==> encode::separable(#[trigger] segments[i]),
    ensures
        data_of(parser::run(State::Normal, encode::stream_wire(segments)).1) == segment_data(
            segments,
        ),
{
    encode::stream_round_trip(segments);
    stream_data(segments);
}

/// A character that is typed without Ctrl reaches the device as itself,
/// whatever character it is; behind the prefix too, unless it is a Q.
pub proof fn typed_characters_are_sent_as_they_are(c: char)
    ensures
        ({
            let key = KeyEvent { code: KeyCode::Char(c), control: false };
            let (state, effect) = key_step(EscapeState::Normal, key);
            &&& state == EscapeState::Normal
            &&& key_reaction(effect) matches Reaction::Send(bytes) && valid_utf8(bytes)
                && decode_utf8(bytes) == seq![c]
            &&& '\0' <= c <= '\u{7f}' ==> key_reaction(effect) == Reaction::Send(seq![c as u8])
            &&& c != 'q' && c != 'Q' ==> key_step(EscapeState::CtrlT, key) == (
                EscapeState::Normal,
                effect,
            )
        }),
{
    let bytes = encode_utf8(seq![c]);
    encode_utf8_valid_utf8(seq![c]);
    encode_utf8_decode_utf8(seq![c]);
    assert(bytes.len() == 1 ==> seq![bytes[0]] == bytes);
    if '\0' <= c <= '\u{7f}' {
        assert(is_ascii_chars(seq![c]));
        is_ascii_chars_encode_utf8(seq![c]);
        assert(seq![c][0] as u8 == bytes[0]);
        assert(bytes == seq![c as u8]);
    }
}

/// Ctrl takes 0x60 off the low byte of a character, round the end of the bytes,
/// and that byte is what is sent; but for Ctrl+] and Ctrl+T, which are the
/// session's own.
pub proof fn control_characters_are_sent(c: char)
    ensures
        (control_code(c) + 0x60) % 256 == c as u32 % 256,
        c != ']' && c != 't' ==> key_step(
            EscapeState::Normal,
            KeyEvent { code: KeyCode::Char(c), control: true },
        ) == (EscapeState::Normal, KeyEffect::SendByte(control_code(c))),
{
}

/// What the keys that stand for no character send, in a session or behind the
/// prefix: what a terminal sends for them, and nothing for a key that is not
/// known.
pub proof fn named_keys_send_their_codes(state: EscapeState, control: bool)
    ensures
        forall|code: KeyCode|
            !(code is Char) ==> {
                let (after, effect) = #[trigger] key_step(state, KeyEvent { code, control });
                after == EscapeState::Normal && key_reaction(effect) == (match code {
                    KeyCode::Enter => Reaction::Send(seq![0x0du8]),
                    KeyCode::Backspace => Reaction::Send(seq![0x7fu8]),
                    KeyCode::Tab => Reaction::Send(seq![0x09u8]),
                    KeyCode::Esc => Reaction::Send(seq![0x1bu8]),
                    KeyCode::Up => Reaction::Send(seq![0x1bu8, 0x5bu8, 0x41u8]),
                    KeyCode::Down => Reaction::Send(seq![0x1bu8, 0x5bu8, 0x42u8]),
                    KeyCode::Right => Reaction::Send(seq![0x1bu8, 0x5bu8, 0x43u8]),
                    KeyCode::Left => Reaction::Send(seq![0x1bu8, 0x5bu8, 0x44u8]),
                    _ => Reaction::Wait,
                })
            },
{
}

/// A session without timestamps shows what comes from the device as it is.
pub proof fn plain_sessions_show_what_comes(
    before: SessionState,
    data: Vec<u8>,
    after: SessionState,
    reaction: Reaction,
)
    requires
        !before.timestamps,
        session_step(before, SessionEvent::Incoming(data), after, reaction),
    ensures
        reaction == Reaction::Show(data@),
        after == before,
{
}

/// A session with timestamps loses nothing that comes from the device, and what
/// it adds are the prefixes of the lines that the data opens.
pub proof fn stamped_sessions_show_all_that_comes(
    before: SessionState,
    data: Vec<u8>,
    after: SessionState,
    reaction: Reaction,
)
    requires
        before.timestamps,
        session_step(before, SessionEvent::Incoming(data), after, reaction),
    ensures
        reaction matches Reaction::Show(bytes) && timestamper::keeps(data@, bytes),
        after.timestamps,
        after.escape == before.escape,
        after.tracking == timestamper::track_all(before.tracking, data@),
{
    let stamps = choose|stamps: Seq<Seq<char>>|
        #[trigger] log_writer::stamps_for(
            stamps,
            timestamper::openings(before.tracking, data@),
        ) && reaction == Reaction::Show(timestamper::shown(before.tracking, data@, stamps));
    timestamper::device_output_is_kept(before.tracking, data@, stamps);
}

/// What a key does in a session goes by the key and the prefix alone, and
/// leaves the rest of the session as it is.
pub proof fn keys_leave_the_display_alone(
    before: SessionState,
    key: KeyEvent,
    after: SessionState,
    reaction: Reaction,
)
    requires
        session_step(before, SessionEvent::Key(key), after, reaction),
    ensures
        after.timestamps == before.timestamps,
        after.tracking == before.tracking,
        (after.escape, reaction) == (
            key_step(before.escape, key).0,
            key_reaction(key_step(before.escape, key).1),
        ),
{
}

/// A session ends when its connection, its terminal or its user ends it, and
/// goes on otherwise.
pub proof fn sessions_end_when_they_should(
    before: SessionState,
    event: SessionEvent,
    after: SessionState,
    reaction: Reaction,
)
    requires
        session_step(before, event, after, reaction),
    ensures
        (reaction is Stop || reaction is StopWith) <==> match event {
            SessionEvent::ConnectionLost => true,
            SessionEvent::InputFailed(_) => true,
            SessionEvent::InputClosed => true,
            SessionEvent::Key(key) => match before.escape {
                EscapeState::Normal => key == (KeyEvent {
                    code: KeyCode::Char(']'),
                    control: true,
                }),
                EscapeState::CtrlT => key.code == KeyCode::Char('q') || key.code
                    == KeyCode::Char('Q'),
            },
            _ => false,
        },
        event matches SessionEvent::InputFailed(reason) ==> reaction == Reaction::StopWith(
            "\r\nInput error: "@ + reason@,
        ),
        event is ConnectionLost ==> reaction == Reaction::StopWith("\r\nConnection lost"@),
{
}

/// The notices for two runs of events are those of the one and those of the
/// other.
pub proof fn notices_add_up(first: Seq<Event>, second: Seq<Event>)
    ensures
        notices_of(first + second) == notices_of(first) + notices_of(second),
    decreases second.len(),
{
    if second.len() == 0 {
        assert(first + second == first);
        assert(notices_of(first) + Seq::<Seq<u8>>::empty() == notices_of(first));
    } else {
        notices_add_up(first, second.drop_last());
        assert((first + second).drop_last() == first + second.drop_last());
        assert((first + second).last() == second.last());
        let before = notices_of(first);
        let after = notices_of(second.drop_last());
        if let Event::Message { kind: MessageKind::Response, json } = second.last() {
            let notice = encode_utf8(server_notice(json));
            assert((before + after).push(notice) == before + after.push(notice));
        }
    }
}

/// A response is shown with all of its text in a notice, unless it marks the
/// end of a history; a control message is not shown.
pub proof fn responses_are_shown(json: Seq<char>)
    ensures
        !marks_history_end(json) ==> deliveries(
            seq![Event::Message { kind: MessageKind::Response, json }],
        ) == seq![encode_utf8("\r\n[server: "@ + json + "]\r\n"@)],
        marks_history_end(json) ==> deliveries(
            seq![Event::Message { kind: MessageKind::Response, json }],
        ) == Seq::<Seq<u8>>::empty(),
        deliveries(seq![Event::Message { kind: MessageKind::Control, json }]) == Seq::<
            Seq<u8>,
        >::empty(),
{
    let response = seq![Event::Message { kind: MessageKind::Response, json }];
    let control = seq![Event::Message { kind: MessageKind::Control, json }];
    assert(response.drop_last() == Seq::<Event>::empty());
    assert(control.drop_last() == Seq::<Event>::empty());
    reveal_with_fuel(notices_of, 2);
    reveal_with_fuel(data_of, 2);
    let notice = encode_utf8(server_notice(json));
    assert(Seq::<Seq<u8>>::empty().push(notice) == seq![notice]);
}

/// What is delivered for some events is their notices, in order, and then all
/// of their data in one piece.
pub proof fn data_follows_the_notices(events: Seq<Event>)
    ensures
        data_of(events).len() > 0 ==> deliveries(events) == notices_of(events) + seq![
            data_of(events),
        ],
        data_of(events).len() == 0 ==> deliveries(events) == notices_of(events),
{
    assert(notices_of(events).push(data_of(events)) == notices_of(events) + seq![
        data_of(events),
    ]);
}

/// A malformed escape is delivered as the two bytes that it came as.
pub proof fn malformed_escapes_are_delivered(byte: u8)
    requires
        byte != 0,
        byte != 0x43,
        byte != 0x52,
    ensures
        deliveries(parser::run(State::Normal, seq![0u8, byte]).1) == seq![seq![0u8, byte]],
{
    parser::malformed_escapes_are_reported(byte);
    let events = seq![Event::MalformedEscape(byte)];
    assert(events.drop_last() == Seq::<Event>::empty());
    reveal_with_fuel(notices_of, 2);
    reveal_with_fuel(data_of, 2);
    assert(Seq::<u8>::empty().push(0).push(byte) == seq![0u8, byte]);
    assert(Seq::<Seq<u8>>::empty().push(seq![0u8, byte]) == seq![seq![0u8, byte]]);
}

/// Of the responses that a server writes, the event of that name marks the end
/// of a history, and nothing else does.
pub proof fn only_history_end_marks_the_end(text: Seq<char>, response: Response)
    requires
        json::parsed_object(text) == Some(message::response_members(response)),
    ensures
        marks_history_end(text) <==> response == (Response::Event { event: "history_end"@ }),
{
    message::event_members_are_their_own(response);
}

/// Behind the prefix, a control character is sent as without it, and the prefix
/// itself is sent when it comes again.
pub proof fn control_characters_are_sent_behind_the_prefix(c: char)
    ensures
        ({
            let key = KeyEvent { code: KeyCode::Char(c), control: true };
            &&& c != 'q' && c != 'Q' ==> key_step(EscapeState::CtrlT, key) == (
                EscapeState::Normal,
                KeyEffect::SendByte(control_code(c)),
            )
            &&& c == 't' ==> control_code(c) == 0x14 && key_step(EscapeState::Normal, key) == (
                EscapeState::CtrlT,
                KeyEffect::Nothing,
            )
        }),
{
    control_characters_are_sent(c);
    if c == 't' {
        control_letters_are_control_codes(c);
    }
}

/// What comes in a session with timestamps is shown with a timestamp for each
/// line that it opens, and nothing else is added.
pub proof fn stamped_sessions_add_timestamps_alone(
    before: SessionState,
    data: Vec<u8>,
    after: SessionState,
    reaction: Reaction,
)
    requires
        before.timestamps,
        session_step(before, SessionEvent::Incoming(data), after, reaction),
    ensures
        exists|stamps: Seq<Seq<char>>|
            stamps.len() == timestamper::openings(before.tracking, data@) && reaction
                == Reaction::Show(#[trigger] timestamper::shown(before.tracking, data@, stamps)),
{
    let stamps = choose|stamps: Seq<Seq<char>>|
        #[trigger] log_writer::stamps_for(
            stamps,
            timestamper::openings(before.tracking, data@),
        ) && reaction == Reaction::Show(timestamper::shown(before.tracking, data@, stamps));
    assert(stamps.len() == timestamper::openings(before.tracking, data@));
    assert(reaction == Reaction::Show(timestamper::shown(before.tracking, data@, stamps)));
}

/// What is no key changes nothing.
pub proof fn other_input_is_ignored(before: SessionState, after: SessionState, reaction: Reaction)
    requires
        session_step(before, SessionEvent::OtherInput, after, reaction),
    ensures
        reaction == Reaction::Wait,
        after == before,
{
}

/// The end of history is an object whose event is `history_end`, whatever else it
/// holds, and nothing else is.
pub proof fn the_event_marks_the_end(text: Seq<char>)
    ensures
        json::parsed_object(text) is None ==> !marks_history_end(text),
        json::parsed_object(text) is Some ==> (marks_history_end(text) <==> json::lookup(
            json::parsed_object(text)->0,
            "event"@,
        ) == Some(Member::Text("history_end"@))),
{
}

/// A key that is handled is a step of the prefix and what the key is for: a
/// character without Ctrl sends itself.
pub proof fn handled_keys_send_themselves(c: char, action: KeyAction)
    ensures
        forall|state: &mut EscapeState| #[trigger]
            call_ensures(
                handle_key,
                (KeyEvent { code: KeyCode::Char(c), control: false }, state),
                action,
            ) && *state == EscapeState::Normal ==> {
                &&& *final(state) == EscapeState::Normal
                &&& match action {
                    KeyAction::SendByte(byte) => encode_utf8(seq![c]) == seq![byte],
                    KeyAction::SendBytes(bytes) => encode_utf8(seq![c]) == bytes@,
                    _ => false,
                }
            },
{
    assert forall|state: &mut EscapeState| #[trigger]
        call_ensures(
            handle_key,
            (KeyEvent { code: KeyCode::Char(c), control: false }, state),
            action,
        ) && *state == EscapeState::Normal implies {
        &&& *final(state) == EscapeState::Normal
        &&& match action {
            KeyAction::SendByte(byte) => encode_utf8(seq![c]) == seq![byte],
            KeyAction::SendBytes(bytes) => encode_utf8(seq![c]) == bytes@,
            _ => false,
        }
    } by {
        assert(encode_utf8(seq![c]).len() == 1 ==> encode_utf8(seq![c]) == seq![
            encode_utf8(seq![c])[0],
        ]);
    }
}

/// A key that is handled is a step of the prefix and what the key is for.
pub proof fn handled_keys_quit_and_send(key: KeyEvent, action: KeyAction)
    ensures
        forall|state: &mut EscapeState| #[trigger]
            call_ensures(handle_key, (key, state), action) ==> {
                let prefix = KeyEvent { code: KeyCode::Char('t'), control: true };
                let quits = if *state == EscapeState::Normal {
                    key == (KeyEvent { code: KeyCode::Char(']'), control: true })
                } else {
                    key.code == KeyCode::Char('q') || key.code == KeyCode::Char('Q')
                };
                &&& action is Quit <==> quits
                &&& *final(state) == EscapeState::CtrlT <==> *state == EscapeState::Normal && key
                    == prefix
                &&& action is Nothing <==> *final(state) == EscapeState::CtrlT || key.code
                    == KeyCode::Other
                &&& *state == EscapeState::CtrlT && key == prefix ==> action
                    == KeyAction::SendByte(0x14)
                &&& key.code == KeyCode::Enter ==> action == KeyAction::SendByte(0x0d)
                &&& key.code == KeyCode::Backspace ==> action == KeyAction::SendByte(0x7f)
                &&& key.code == KeyCode::Tab ==> action == KeyAction::SendByte(0x09)
                &&& key.code == KeyCode::Esc ==> action == KeyAction::SendByte(0x1b)
            },
{
}

/// A session starts with nothing pressed and nothing shown.
pub proof fn sessions_start_fresh(timestamps: bool, session: InteractiveSession)
    requires
        call_ensures(InteractiveSession::new, (timestamps,), session),
    ensures
        session@.timestamps == timestamps,
        session@.escape == EscapeState::Normal,
        session@.tracking.at_line_start,
        session@.tracking.ansi == timestamper::AnsiState::Normal,
        session@.tracking.sgr == Seq::<u8>::empty(),
{
}

/// A session shows what comes and sends what is typed.
pub proof fn sessions_show_and_send(event: SessionEvent, action: SessionAction)
    ensures
        forall|session: &mut InteractiveSession| #[trigger]
            call_ensures(InteractiveSession::step, (session, event), action) ==> {
                &&& final(session)@.timestamps == session@.timestamps
                &&& event matches SessionEvent::Incoming(data) ==> action is Show
                    && timestamper::keeps(data@, action->Show_0@) && (!session@.timestamps
                    ==> action->Show_0@ == data@)
                &&& event matches SessionEvent::Key(key) ==> action@ == key_reaction(
                    key_step(session@.escape, key).1,
                ) && final(session)@.escape == key_step(session@.escape, key).0
                &&& event is ConnectionLost ==> action is StopWith && action->StopWith_0@
                    == "\r\nConnection lost"@
                &&& event matches SessionEvent::InputFailed(reason) ==> action is StopWith
                    && action->StopWith_0@ == "\r\nInput error: "@ + reason@
                &&& event is InputClosed ==> action is Stop
                &&& event is OtherInput ==> action is Wait
            },
{
    assert forall|session: &mut InteractiveSession| #[trigger]
        call_ensures(InteractiveSession::step, (session, event), action) implies {
        &&& final(session)@.timestamps == session@.timestamps
        &&& event matches SessionEvent::Incoming(data) ==> action is Show && timestamper::keeps(
            data@,
            action->Show_0@,
        ) && (!session@.timestamps ==> action->Show_0@ == data@)
        &&& event matches SessionEvent::Key(key) ==> action@ == key_reaction(
            key_step(session@.escape, key).1,
        ) && final(session)@.escape == key_step(session@.escape, key).0
        &&& event is ConnectionLost ==> action is StopWith && action->StopWith_0@
            == "\r\nConnection lost"@
        &&& event matches SessionEvent::InputFailed(reason) ==> action is StopWith
            && action->StopWith_0@ == "\r\nInput error: "@ + reason@
        &&& event is InputClosed ==> action is Stop
        &&& event is OtherInput ==> action is Wait
    } by {
        let before = session@;
        let after = final(session)@;
        assert(session_step(before, event, after, action@));
        if let SessionEvent::Incoming(data) = event {
            if before.timestamps {
                stamped_sessions_show_all_that_comes(before, data, after, action@);
            } else {
                plain_sessions_show_what_comes(before, data, after, action@);
                let places = Seq::new(data@.len(), |i: int| i);
                assert(timestamper::placed(data@, data@, places));
            }
        }
    }
}

/// The end of history is told from the rest.
pub proof fn the_end_of_history_is_told(text: &str, end: bool)
    requires
        call_ensures(is_history_end, (text,), end),
    ensures
        json::parsed_object(text@) is None ==> !end,
        json::parsed_object(text@) is Some ==> (end <==> json::lookup(
            json::parsed_object(text@)->0,
            "event"@,
        ) == Some(Member::Text("history_end"@))),
{
}

/// What the server sends of its data is delivered whole, and in one piece for each
/// chunk.
pub proof fn bridges_deliver_all_data(data: Seq<u8>, chunk: &[u8], out: Vec<Vec<u8>>)
    requires
        chunk@ == encode::escaped(data),
    ensures
        forall|bridge: &mut SocketBridge| #[trigger]
            call_ensures(SocketBridge::receive, (bridge, chunk), out) && bridge@ == State::Normal
                ==> final(bridge)@ == State::Normal && text::byte_seqs(out@) == (if data.len()
                > 0 {
                seq![data]
            } else {
                Seq::<Seq<u8>>::empty()
            }),
{
    encoded_data_is_delivered(data);
    encode::data_round_trip(data);
}

} // verus!

//! The stateful parser that separates data bytes from messages.

use crate::text;
use vstd::prelude::*;

verus! {

/// The kind of message currently being accumulated.
#[derive(Debug, Clone, Copy, PartialEq, Eq, Structural)]
pub enum MessageKind {
    /// Control message (client to server): `\0C{json}\0`
    Control,
    /// Response message (server to client): `\0R{json}\0`
    Response,
}

/// Events emitted by the parser as it processes bytes.
#[derive(Debug, Clone, PartialEq)]
pub enum ParseEvent {
    /// A regular data byte to pass through.
    DataByte(u8),
    /// A malformed escape: the NUL and the unexpected byte are raw data.
    MalformedEscape(u8),
    /// A complete structured message was parsed.
    Message { kind: MessageKind, json: String },
    /// No output yet (still accumulating).
    Pending,
}

/// What a [`ParseEvent`] says, with the text as a sequence of characters.
pub enum Event {
    DataByte(u8),
    MalformedEscape(u8),
    Message { kind: MessageKind, json: Seq<char> },
    Pending,
}

impl View for ParseEvent {
    type V = Event;

    open spec fn view(&self) -> Event {
        match *self {
            ParseEvent::DataByte(b) => Event::DataByte(b),
            ParseEvent::MalformedEscape(b) => Event::MalformedEscape(b),
            ParseEvent::Message { kind, json } => Event::Message { kind, json: json@ },
            ParseEvent::Pending => Event::Pending,
        }
    }
}

/// What a list of events says.
pub open spec fn events_view(events: Seq<ParseEvent>) -> Seq<Event> {
    events.map_values(|e: ParseEvent| e@)
}

/// Parser state machine states.
#[derive(Debug, Clone, PartialEq)]
enum ParserState {
    /// Normal data passthrough.
    Normal,
    /// Saw a NUL byte, waiting for the next byte to determine action.
    Escape,
    /// Inside a message, accumulating JSON bytes until the closing NUL.
    InMessage { kind: MessageKind, buf: Vec<u8> },
}

/// Maximum size (in bytes) of a single protocol message body. What a message
/// holds beyond it is dropped, to prevent memory exhaustion.
pub const MAX_MESSAGE_SIZE: usize = 1_048_576;

/// Stateful byte-by-byte protocol parser.
///
/// Protocol framing:
/// - `\0\0` is a literal NUL byte in the data stream
/// - `\0C{json}\0` is a control message
/// - `\0R{json}\0` is a response message
/// - any other `\0X` is a malformed escape (both bytes are data)
///
/// This parser is pure computation: no I/O, no async.
pub struct Parser {
    state: ParserState,
}

/// Where a parser stands between two bytes.
pub enum State {
    Normal,
    Escape,
    InMessage { kind: MessageKind, buf: Seq<u8> },
}

impl View for Parser {
    type V = State;

    closed spec fn view(&self) -> State {
        match self.state {
            ParserState::Normal => State::Normal,
            ParserState::Escape => State::Escape,
            ParserState::InMessage { kind, buf } => State::InMessage { kind, buf: buf@ },
        }
    }
}

/// The byte that opens a control message, `C`.
pub const CONTROL_PREFIX: u8 = 0x43;

/// The byte that opens a response message, `R`.
pub const RESPONSE_PREFIX: u8 = 0x52;

/// The prefix byte that opens a message of each kind.
pub open spec fn kind_prefix(kind: MessageKind) -> u8 {
    match kind {
        MessageKind::Control => CONTROL_PREFIX,
        MessageKind::Response => RESPONSE_PREFIX,
    }
}

/// What one byte does: the next state, and the event it gives.
pub open spec fn step(state: State, byte: u8) -> (State, Event) {
    match state {
        State::Normal => if byte == 0 {
            (State::Escape, Event::Pending)
        } else {
            (State::Normal, Event::DataByte(byte))
        },
        State::Escape => if byte == 0 {
            (State::Normal, Event::DataByte(0))
        } else if byte == kind_prefix(MessageKind::Control) {
            (State::InMessage { kind: MessageKind::Control, buf: seq![] }, Event::Pending)
        } else if byte == kind_prefix(MessageKind::Response) {
            (State::InMessage { kind: MessageKind::Response, buf: seq![] }, Event::Pending)
        } else {
            (State::Normal, Event::MalformedEscape(byte))
        },
        State::InMessage { kind, buf } => if byte == 0 {
            (State::Normal, Event::Message { kind, json: text::lossy(buf) })
        } else if buf.len() >= MAX_MESSAGE_SIZE {
            (state, Event::Pending)
        } else {
            (State::InMessage { kind, buf: buf.push(byte) }, Event::Pending)
        },
    }
}

/// An event as the list of what it reports: nothing while pending.
pub open spec fn reported(event: Event) -> Seq<Event> {
    if event is Pending {
        seq![]
    } else {
        seq![event]
    }
}

/// What a sequence of bytes does: the state after the last one, and the
/// events other than `Pending`, in order.
pub open spec fn run(state: State, data: Seq<u8>) -> (State, Seq<Event>)
    decreases data.len(),
{
    if data.len() == 0 {
        (state, seq![])
    } else {
        let (mid, events) = run(state, data.drop_last());
        let (last, event) = step(mid, data.last());
        (last, events + reported(event))
    }
}

/// The message that a parser gives for a body of these bytes: what exceeds
/// the maximum size is missing from it.
pub open spec fn message_event(kind: MessageKind, body: Seq<u8>) -> Event {
    let kept = if body.len() <= MAX_MESSAGE_SIZE {
        body
    } else {
        body.take(MAX_MESSAGE_SIZE as int)
    };
    Event::Message { kind, json: text::lossy(kept) }
}

/// The buffer of a message never outgrows the maximum size.
pub open spec fn bounded(state: State) -> bool {
    match state {
        State::InMessage { buf, .. } => buf.len() <= MAX_MESSAGE_SIZE,
        _ => true,
    }
}

/// A parser that starts within the size bound stays within it, whatever it
/// is fed.
pub proof fn buffer_stays_bounded(state: State, data: Seq<u8>)
    requires
        bounded(state),
    ensures
        bounded(run(state, data).0),
    decreases data.len(),
{
    if data.len() > 0 {
        buffer_stays_bounded(state, data.drop_last());
    }
}

/// How a stream is cut into chunks does not matter: feeding two chunks in
/// turn does what feeding them as one does.
pub proof fn chunks_add_up(state: State, first: Seq<u8>, second: Seq<u8>)
    ensures
        run(state, first + second) == ({
            let (mid, before) = run(state, first);
            let (last, after) = run(mid, second);
            (last, before + after)
        }),
    decreases second.len(),
{
    if second.len() == 0 {
        assert(first + second == first);
        assert(run(state, first).1 + Seq::<Event>::empty() == run(state, first).1);
    } else {
        chunks_add_up(state, first, second.drop_last());
        assert((first + second).drop_last() == first + second.drop_last());
        assert((first + second).last() == second.last());
        let (mid, before) = run(state, first);
        let (almost, after) = run(mid, second.drop_last());
        let event = step(almost, second.last()).1;
        assert((before + after) + reported(event) == before + (after + reported(event)));
    }
}

/// What one byte does is what a chunk of that byte does.
pub proof fn single_byte_run(state: State, byte: u8)
    ensures
        run(state, seq![byte]) == ({
            let (next, event) = step(state, byte);
            (next, reported(event))
        }),
{
    let data = seq![byte];
    assert(data.drop_last() == Seq::<u8>::empty());
    assert(run(state, data.drop_last()) == (state, Seq::<Event>::empty()));
    let event = step(state, byte).1;
    assert(Seq::<Event>::empty() + reported(event) == reported(event));
}

impl Parser {
    /// A parser at the start of a stream.
    pub fn new() -> (parser: Self)
        ensures
            parser@ == State::Normal,
    {
        Parser { state: ParserState::Normal }
    }

    /// Feed a single byte into the parser and get the resulting event.
    pub fn feed(&mut self, byte: u8) -> (event: ParseEvent)
        ensures
            (final(self)@, event@) == step(old(self)@, byte),
    {
        let mut state = ParserState::Normal;
        std::mem::swap(&mut self.state, &mut state);
        match state {
            ParserState::Normal => {
                if byte == 0x00 {
                    self.state = ParserState::Escape;
                    ParseEvent::Pending
                } else {
                    ParseEvent::DataByte(byte)
                }
            },
            ParserState::Escape => {
                if byte == 0x00 {
                    // Escaped NUL: a literal NUL byte
                    ParseEvent::DataByte(0x00)
                } else if byte == CONTROL_PREFIX {
                    self.state =
                    ParserState::InMessage { kind: MessageKind::Control, buf: Vec::new() };
                    ParseEvent::Pending
                } else if byte == RESPONSE_PREFIX {
                    self.state =
                    ParserState::InMessage { kind: MessageKind::Response, buf: Vec::new() };
                    ParseEvent::Pending
                } else {
                    // Malformed escape: not a recognized prefix
                    ParseEvent::MalformedEscape(byte)
                }
            },
            ParserState::InMessage { kind, mut buf } => {
                if byte == 0x00 {
                    // End of message
                    let json = text::decode_lossy(buf.as_slice());
                    ParseEvent::Message { kind, json }
                } else if buf.len() >= MAX_MESSAGE_SIZE {
                    // Message too large: stay in the message without growing the buffer
                    self.state = ParserState::InMessage { kind, buf };
                    ParseEvent::Pending
                } else {
                    buf.push(byte);
                    self.state = ParserState::InMessage { kind, buf };
                    ParseEvent::Pending
                }
            },
        }
    }

    /// Feed a slice of bytes and collect all non-Pending events.
    pub fn feed_bytes(&mut self, data: &[u8]) -> (events: Vec<ParseEvent>)
        ensures
            (final(self)@, events_view(events@)) == run(old(self)@, data@),
    {
        let mut events: Vec<ParseEvent> = Vec::new();
        assert(data@.take(0) == Seq::<u8>::empty());
        assert(events_view(events@) == Seq::<Event>::empty());
        for i in 0..data.len()
            invariant
                (self@, events_view(events@)) == run(old(self)@, data@.take(i as int)),
        {
            let byte = data[i];
            let ghost before = events@;
            proof {
                let next = data@.take(i + 1);
                assert(next.drop_last() == data@.take(i as int));
                assert(next.last() == byte);
            }
            let event = self.feed(byte);
            match event {
                ParseEvent::Pending => {
                    assert(events_view(events@) + Seq::<Event>::empty() == events_view(events@));
                },
                _ => {
                    events.push(event);
                    assert(events_view(events@) == events_view(before) + seq![event@]);
                },
            }
        }
        assert(data@.take(data@.len() as int) == data@);
        events
    }
}

impl Default for Parser {
    fn default() -> (parser: Self)
        ensures
            parser@ == State::Normal,
    {
        Parser::new()
    }
}

/// An escape that is neither a NUL nor the start of a message is reported with
/// its second byte, and ends there.
pub proof fn malformed_escapes_are_reported(byte: u8)
    requires
        byte != 0,
        byte != 0x43,
        byte != 0x52,
    ensures
        run(State::Normal, seq![0u8, byte]) == (
            State::Normal,
            seq![Event::MalformedEscape(byte)],
        ),
{
    single_byte_run(State::Normal, 0);
    single_byte_run(State::Escape, byte);
    chunks_add_up(State::Normal, seq![0u8], seq![byte]);
    assert(seq![0u8] + seq![byte] == seq![0u8, byte]);
    assert(Seq::<Event>::empty() + seq![Event::MalformedEscape(byte)] == seq![
        Event::MalformedEscape(byte),
    ]);
}

/// Bytes without NUL are data as they are, each of them.
pub proof fn plain_bytes_are_data(data: Seq<u8>)
    requires
        forall|i: int| 0 <= i < data.len() ==> #[trigger] data[i] != 0,
    ensures
        run(State::Normal, data) == (State::Normal, data.map_values(|b: u8| Event::DataByte(b))),
    decreases data.len(),
{
    let as_event = |b: u8| Event::DataByte(b);
    if data.len() == 0 {
        assert(data.map_values(as_event) == Seq::<Event>::empty());
    } else {
        let before = data.drop_last();
        assert forall|i: int| 0 <= i < before.len() implies #[trigger] before[i] != 0 by {
            assert(before[i] == data[i]);
        }
        plain_bytes_are_data(before);
        assert(data.last() == data[data.len() - 1]);
        assert(data.map_values(as_event) == before.map_values(as_event) + seq![
            Event::DataByte(data.last()),
        ]);
    }
}

/// A doubled NUL is one NUL of data.
pub proof fn a_doubled_nul_is_one()
    ensures
        run(State::Normal, seq![0u8, 0u8]) == (State::Normal, seq![Event::DataByte(0)]),
{
    single_byte_run(State::Normal, 0);
    single_byte_run(State::Escape, 0);
    chunks_add_up(State::Normal, seq![0u8], seq![0u8]);
    assert(seq![0u8] + seq![0u8] == seq![0u8, 0u8]);
    assert(Seq::<Event>::empty() + seq![Event::DataByte(0)] == seq![Event::DataByte(0)]);
}

/// Bytes that hold no NUL are fed as data, each as it is, wherever they are cut.
pub proof fn fed_bytes_are_data(data: &[u8], events: Vec<ParseEvent>)
    requires
        forall|i: int| 0 <= i < data@.len() ==> #[trigger] data@[i] != 0,
    ensures
        forall|parser: &mut Parser| #[trigger]
            call_ensures(Parser::feed_bytes, (parser, data), events) && parser@ == State::Normal
                ==> {
                &&& final(parser)@ == State::Normal
                &&& events_view(events@) == data@.map_values(|b: u8| Event::DataByte(b))
            },
{
    plain_bytes_are_data(data@);
}

} // verus!

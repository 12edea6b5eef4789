//! The encoder: data and messages in their wire format.

use crate::protocol::message;
use crate::protocol::message::{ControlMessage, Response, ResponseMessage};
use crate::protocol::parser;
use crate::protocol::parser::{Event, MessageKind, State, CONTROL_PREFIX, RESPONSE_PREFIX};
use crate::text;
use vstd::prelude::*;
use vstd::utf8::*;

verus! {

/// A data byte on the wire: NUL is doubled.
pub open spec fn escaped_byte(byte: u8) -> Seq<u8> {
    if byte == 0 {
        seq![0u8, 0u8]
    } else {
        seq![byte]
    }
}

/// Data on the wire: each byte in turn, with NUL doubled.
pub open spec fn escaped(data: Seq<u8>) -> Seq<u8>
    decreases data.len(),
{
    if data.len() == 0 {
        seq![]
    } else {
        escaped(data.drop_last()) + escaped_byte(data.last())
    }
}

/// A message on the wire: NUL, the prefix of its kind, the body, NUL.
pub open spec fn framed(kind: MessageKind, body: Seq<u8>) -> Seq<u8> {
    seq![0u8, parser::kind_prefix(kind)] + body + seq![0u8]
}

/// Encode raw data bytes, escaping any NUL bytes as `\0\0`.
pub fn encode_data(data: &[u8]) -> (out: Vec<u8>)
    ensures
        out@ == escaped(data@),
{
    let mut out: Vec<u8> = Vec::with_capacity(data.len());
    assert(data@.take(0) == Seq::<u8>::empty());
    for i in 0..data.len()
        invariant
            out@ == escaped(data@.take(i as int)),
    {
        let byte = data[i];
        proof {
            let next = data@.take(i + 1);
            assert(next.drop_last() == data@.take(i as int));
            assert(next.last() == byte);
        }
        if byte == 0x00 {
            out.push(0x00);
            out.push(0x00);
        } else {
            out.push(byte);
        }
        assert(out@ == escaped(data@.take(i as int)) + escaped_byte(byte));
    }
    assert(data@.take(data@.len() as int) == data@);
    out
}

/// Encode a structured message as a framed byte sequence: `\0{prefix}{json}\0`
pub fn encode_message(kind: MessageKind, json: &str) -> (out: Vec<u8>)
    ensures
        out@ == framed(kind, encode_utf8(json@)),
{
    let prefix: u8 = match kind {
        MessageKind::Control => CONTROL_PREFIX,
        MessageKind::Response => RESPONSE_PREFIX,
    };
    let mut out: Vec<u8> = Vec::new();
    out.push(0x00);
    out.push(prefix);
    out.extend_from_slice(json.as_bytes());
    out.push(0x00);
    assert(out@ == framed(kind, encode_utf8(json@)));
    out
}

/// A control message in its wire format.
pub open spec fn control_wire(msg: ControlMessage) -> Seq<u8> {
    framed(MessageKind::Control, encode_utf8(message::control_json(msg@)))
}

/// A response in its wire format.
pub open spec fn response_wire(response: Response) -> Seq<u8> {
    framed(MessageKind::Response, encode_utf8(message::response_json(response)))
}

/// Encode a control message into its wire format. A message of a known
/// command comes back from the parser as one message, with its text where
/// that fits the maximum size, and from the text as the message it was.
pub fn encode_control(msg: &ControlMessage) -> (out: Vec<u8>)
    ensures
        out@ == control_wire(*msg),
        !(msg is Unknown) ==> message::control_of(message::control_json(msg@)) == msg@,
        !(msg is Unknown) ==> parser::run(State::Normal, out@) == (
            State::Normal,
            seq![
                parser::message_event(
                    MessageKind::Control,
                    encode_utf8(message::control_json(msg@)),
                ),
            ],
        ),
        !(msg is Unknown) && encode_utf8(message::control_json(msg@)).len()
            <= parser::MAX_MESSAGE_SIZE ==> parser::run(State::Normal, out@) == (
            State::Normal,
            seq![
                Event::Message {
                    kind: MessageKind::Control,
                    json: message::control_json(msg@),
                },
            ],
        ),
{
    let json = msg.to_json();
    proof {
        if !(msg is Unknown) {
            text::nul_free_encoding(json@);
            message_round_trip(MessageKind::Control, encode_utf8(json@));
            if encode_utf8(json@).len() <= parser::MAX_MESSAGE_SIZE {
                text_message_round_trip(MessageKind::Control, json@);
            }
        }
    }
    encode_message(MessageKind::Control, json.as_str())
}

/// Encode a response message into its wire format. It comes back from the
/// parser as one message, with its text where that fits the maximum size, and
/// from the text as the response it was.
pub fn encode_response(msg: &ResponseMessage) -> (out: Vec<u8>)
    ensures
        out@ == response_wire(msg@),
        parser::run(State::Normal, out@) == (
            State::Normal,
            seq![
                parser::message_event(
                    MessageKind::Response,
                    encode_utf8(message::response_json(msg@)),
                ),
            ],
        ),
        encode_utf8(message::response_json(msg@)).len() <= parser::MAX_MESSAGE_SIZE
            ==> parser::run(State::Normal, out@) == (
            State::Normal,
            seq![
                Event::Message {
                    kind: MessageKind::Response,
                    json: message::response_json(msg@),
                },
            ],
        ),
        message::written_as(message::response_json(msg@), msg@),
{
    let json = msg.to_json();
    proof {
        text::nul_free_encoding(json@);
        message_round_trip(MessageKind::Response, encode_utf8(json@));
        if encode_utf8(json@).len() <= parser::MAX_MESSAGE_SIZE {
            text_message_round_trip(MessageKind::Response, json@);
        }
    }
    encode_message(MessageKind::Response, json.as_str())
}

/// Data without NUL goes over the wire as it is, and no data takes more than
/// twice its size.
pub proof fn escaping_is_transparent_and_bounded(data: Seq<u8>)
    ensures
        text::zero_free(data) ==> escaped(data) == data,
        data.len() <= escaped(data).len() <= 2 * data.len(),
    decreases data.len(),
{
    if data.len() > 0 {
        let rest = data.drop_last();
        escaping_is_transparent_and_bounded(rest);
        if text::zero_free(data) {
            assert forall|i: int| 0 <= i < rest.len() implies #[trigger] rest[i] != 0u8 by {
                assert(rest[i] == data[i]);
            }
            assert(data[data.len() - 1] != 0u8);
            assert(rest + seq![data.last()] == data);
        }
    }
}

/// Data in a row is encoded as its parts in a row.
pub proof fn escaping_adds_up(a: Seq<u8>, b: Seq<u8>)
    ensures
        escaped(a + b) == escaped(a) + escaped(b),
    decreases b.len(),
{
    if b.len() == 0 {
        assert(a + b == a);
        assert(escaped(a) + Seq::<u8>::empty() == escaped(a));
    } else {
        escaping_adds_up(a, b.drop_last());
        assert((a + b).drop_last() == a + b.drop_last());
        assert((a + b).last() == b.last());
        let last = escaped_byte(b.last());
        assert((escaped(a) + escaped(b.drop_last())) + last == escaped(a) + (escaped(
            b.drop_last(),
        ) + last));
    }
}

/// The events that report these bytes as plain data.
pub open spec fn data_events(data: Seq<u8>) -> Seq<Event> {
    data.map_values(|b: u8| Event::DataByte(b))
}

/// Data comes back from the parser as it was encoded, byte for byte, and
/// leaves the parser where it was.
pub proof fn data_round_trip(data: Seq<u8>)
    ensures
        parser::run(State::Normal, escaped(data)) == (State::Normal, data_events(data)),
    decreases data.len(),
{
    if data.len() == 0 {
        assert(data_events(data) == Seq::<Event>::empty());
    } else {
        let byte = data.last();
        let rest = data.drop_last();
        data_round_trip(rest);
        parser::chunks_add_up(State::Normal, escaped(rest), escaped_byte(byte));
        if byte == 0 {
            parser::single_byte_run(State::Normal, 0);
            parser::single_byte_run(State::Escape, 0);
            parser::chunks_add_up(State::Normal, seq![0u8], seq![0u8]);
            assert(escaped_byte(byte) == seq![0u8] + seq![0u8]);
            assert(Seq::<Event>::empty() + seq![Event::DataByte(0)] == seq![Event::DataByte(0)]);
        } else {
            parser::single_byte_run(State::Normal, byte);
        }
        assert(data_events(data) == data_events(rest) + seq![Event::DataByte(byte)]);
    }
}

/// A message body without NUL bytes is collected up to the maximum size.
proof fn body_is_collected(kind: MessageKind, body: Seq<u8>)
    requires
        text::zero_free(body),
    ensures
        parser::run(State::InMessage { kind, buf: seq![] }, body) == (
            State::InMessage {
                kind,
                buf: if body.len() <= parser::MAX_MESSAGE_SIZE {
                    body
                } else {
                    body.take(parser::MAX_MESSAGE_SIZE as int)
                },
            },
            Seq::<Event>::empty(),
        ),
    decreases body.len(),
{
    let max = parser::MAX_MESSAGE_SIZE as int;
    if body.len() == 0 {
        assert(body == Seq::<u8>::empty());
    } else {
        let rest = body.drop_last();
        assert(text::zero_free(rest)) by {
            assert forall|i: int| 0 <= i < rest.len() implies #[trigger] rest[i] != 0u8 by {
                assert(rest[i] == body[i]);
            }
        }
        body_is_collected(kind, rest);
        assert(body.last() != 0u8);
        assert(rest.push(body.last()) == body);
        if rest.len() >= max {
            assert(rest.take(max) == body.take(max));
            assert(rest.len() == max ==> rest == body.take(max));
        }
        assert(Seq::<Event>::empty() + Seq::<Event>::empty() == Seq::<Event>::empty());
    }
}

/// A framed message without NUL in its body comes back as one message of
/// that kind with that body, cut at the maximum size, and leaves the parser
/// ready for what follows.
pub proof fn message_round_trip(kind: MessageKind, body: Seq<u8>)
    requires
        text::zero_free(body),
    ensures
        parser::run(State::Normal, framed(kind, body)) == (
            State::Normal,
            seq![parser::message_event(kind, body)],
        ),
{
    let prefix = parser::kind_prefix(kind);
    let open = State::InMessage { kind, buf: seq![] };
    let none = Seq::<Event>::empty();
    parser::single_byte_run(State::Normal, 0);
    parser::single_byte_run(State::Escape, prefix);
    parser::chunks_add_up(State::Normal, seq![0u8], seq![prefix]);
    assert(seq![0u8] + seq![prefix] == seq![0u8, prefix]);
    assert(none + none == none);
    assert(parser::run(State::Normal, seq![0u8, prefix]) == (open, none));
    body_is_collected(kind, body);
    parser::chunks_add_up(State::Normal, seq![0u8, prefix], body);
    let full = parser::run(open, body).0;
    assert(parser::run(State::Normal, seq![0u8, prefix] + body) == (full, none));
    parser::single_byte_run(full, 0);
    parser::chunks_add_up(State::Normal, seq![0u8, prefix] + body, seq![0u8]);
    let event = parser::message_event(kind, body);
    assert(none + seq![event] == seq![event]);
}

/// A message whose text holds no NUL and fits the maximum size comes back
/// with exactly that text.
pub proof fn text_message_round_trip(kind: MessageKind, json: Seq<char>)
    requires
        text::nul_free(json),
        encode_utf8(json).len() <= parser::MAX_MESSAGE_SIZE,
    ensures
        parser::run(State::Normal, framed(kind, encode_utf8(json))) == (
            State::Normal,
            seq![Event::Message { kind, json }],
        ),
{
    text::nul_free_encoding(json);
    text::lossy_undoes_encoding(json);
    message_round_trip(kind, encode_utf8(json));
}

/// One part of a stream: raw data, or a message.
pub enum Segment {
    Data(Seq<u8>),
    Message { kind: MessageKind, json: Seq<char> },
}

/// A part of a stream that can be told from its neighbours: the text of a
/// message holds no NUL.
pub open spec fn separable(segment: Segment) -> bool {
    match segment {
        Segment::Data(_) => true,
        Segment::Message { json, .. } => text::nul_free(json),
    }
}

/// One part of a stream in its wire format.
pub open spec fn segment_wire(segment: Segment) -> Seq<u8> {
    match segment {
        Segment::Data(data) => escaped(data),
        Segment::Message { kind, json } => framed(kind, encode_utf8(json)),
    }
}

/// The events that one part of a stream stands for.
pub open spec fn segment_events(segment: Segment) -> Seq<Event> {
    match segment {
        Segment::Data(data) => data_events(data),
        Segment::Message { kind, json } => seq![parser::message_event(kind, encode_utf8(json))],
    }
}

/// A stream in its wire format: its parts one after the other.
pub open spec fn stream_wire(segments: Seq<Segment>) -> Seq<u8>
    decreases segments.len(),
{
    if segments.len() == 0 {
        seq![]
    } else {
        stream_wire(segments.drop_last()) + segment_wire(segments.last())
    }
}

/// The events that a stream stands for: those of its parts, in order.
pub open spec fn stream_events(segments: Seq<Segment>) -> Seq<Event>
    decreases segments.len(),
{
    if segments.len() == 0 {
        seq![]
    } else {
        stream_events(segments.drop_last()) + segment_events(segments.last())
    }
}

/// A stream that mixes data and messages in any order comes back part by
/// part, in order, with nothing added or lost between the parts.
pub proof fn stream_round_trip(segments: Seq<Segment>)
    requires
        forall|i: int| 0 <= i < segments.len() ==> separable(#[trigger] segments[i]),
    ensures
        parser::run(State::Normal, stream_wire(segments)) == (
            State::Normal,
            stream_events(segments),
        ),
    decreases segments.len(),
{
    if segments.len() > 0 {
        let rest = segments.drop_last();
        assert forall|i: int| 0 <= i < rest.len() implies separable(#[trigger] rest[i]) by {
            assert(rest[i] == segments[i]);
        }
        stream_round_trip(rest);
        assert(separable(segments[segments.len() - 1]));
        match segments.last() {
            Segment::Data(data) => {
                data_round_trip(data);
            },
            Segment::Message { kind, json } => {
                text::nul_free_encoding(json);
                message_round_trip(kind, encode_utf8(json));
            },
        }
        parser::chunks_add_up(State::Normal, stream_wire(rest), segment_wire(segments.last()));
    }
}

/// Data on the wire is each of its bytes in turn, a NUL twice and any other
/// once, and nothing else.
pub proof fn every_byte_goes_over_the_wire(data: Seq<u8>)
    ensures
        escaped(data) == data.map_values(
            |b: u8|
                if b == 0 {
                    seq![0u8, 0u8]
                } else {
                    seq![b]
                },
        ).flatten(),
    decreases data.len(),
{
    let on_wire = |b: u8|
        if b == 0 {
            seq![0u8, 0u8]
        } else {
            seq![b]
        };
    if data.len() == 0 {
        assert(data.map_values(on_wire) == Seq::<Seq<u8>>::empty());
    } else {
        let before = data.drop_last();
        every_byte_goes_over_the_wire(before);
        let parts = before.map_values(on_wire);
        assert(data.map_values(on_wire) == parts.push(on_wire(data.last())));
        parts.lemma_flatten_push(on_wire(data.last()));
    }
}

/// A message on the wire is its body between the bytes that frame it: a NUL and
/// `C` or `R` in front, a NUL behind.
pub proof fn messages_are_framed(body: Seq<u8>)
    ensures
        framed(MessageKind::Control, body) == seq![0u8, 0x43u8] + body + seq![0u8],
        framed(MessageKind::Response, body) == seq![0u8, 0x52u8] + body + seq![0u8],
{
}

/// What stands between the bytes that frame a message is its text, all of it up
/// to a mebibyte, and one message is what comes of it.
pub proof fn framed_bytes_are_one_message(body: Seq<u8>)
    requires
        forall|i: int| 0 <= i < body.len() ==> #[trigger] body[i] != 0,
    ensures
        ({
            let kept = if body.len() <= 1048576 {
                body
            } else {
                body.take(1048576)
            };
            let json = text::lossy(kept);
            &&& parser::run(State::Normal, seq![0u8, 0x43u8] + body + seq![0u8]) == (
                State::Normal,
                seq![Event::Message { kind: MessageKind::Control, json }],
            )
            &&& parser::run(State::Normal, seq![0u8, 0x52u8] + body + seq![0u8]) == (
                State::Normal,
                seq![Event::Message { kind: MessageKind::Response, json }],
            )
        }),
{
    assert(text::zero_free(body));
    messages_are_framed(body);
    message_round_trip(MessageKind::Control, body);
    message_round_trip(MessageKind::Response, body);
}

/// Data that was encoded is read back as it was, and so is a message.
pub proof fn what_is_encoded_is_read_back(
    data: &[u8],
    kind: MessageKind,
    json: &str,
    wire: Vec<u8>,
    frame: Vec<u8>,
)
    ensures
        call_ensures(encode_data, (data,), wire) ==> parser::run(State::Normal, wire@) == (
            State::Normal,
            data@.map_values(|b: u8| Event::DataByte(b)),
        ),
        call_ensures(encode_message, (kind, json), frame) && text::nul_free(json@) && encode_utf8(
            json@,
        ).len() <= 1048576 ==> parser::run(State::Normal, frame@) == (
            State::Normal,
            seq![Event::Message { kind, json: json@ }],
        ),
{
    data_round_trip(data@);
    if text::nul_free(json@) && encode_utf8(json@).len() <= 1048576 {
        text_message_round_trip(kind, json@);
    }
}

/// A command that is understood is written as its text in a frame, and that text
/// is read as the command.
pub proof fn commands_are_read_back(msg: &ControlMessage, wire: Vec<u8>)
    requires
        call_ensures(encode_control, (msg,), wire),
    ensures
        wire@ == seq![0u8, 0x43u8] + encode_utf8(message::control_json(msg@)) + seq![0u8],
        !(msg is Unknown) ==> message::control_of(message::control_json(msg@)) == msg@,
{
    messages_are_framed(encode_utf8(message::control_json(msg@)));
}

/// A response is written as its text in a frame, and that text is read as the
/// response.
pub proof fn responses_are_read_back(msg: &ResponseMessage, wire: Vec<u8>)
    requires
        call_ensures(encode_response, (msg,), wire),
    ensures
        wire@ == seq![0u8, 0x52u8] + encode_utf8(message::response_json(msg@)) + seq![0u8],
        message::response_of(message::response_json(msg@)) == Some(msg@),
{
    messages_are_framed(encode_utf8(message::response_json(msg@)));
}

} // verus!

//! Command mode: send a string, then collect output.

use crate::log_reader;
use crate::pattern;
use crate::pattern::Pattern;
use crate::protocol::encode;
use crate::protocol::message;
use crate::protocol::message::{Control, ControlMessage};
use crate::protocol::parser;
use crate::protocol::parser::{Event, MessageKind, ParseEvent, Parser, State};
use crate::text;
use vstd::prelude::*;
use vstd::utf8::*;

verus! {

/// The bytes that open a command: the string to send, if there is one.
pub fn opening(send: Option<&str>) -> (bytes: Option<Vec<u8>>)
    ensures
        (match bytes {
            Some(b) => Some(b@),
            None => None,
        }) == (match send {
            Some(data) => Some(encode::escaped(encode_utf8(data@))),
            None => None,
        }),
{
    match send {
        Some(data) => Some(encode::encode_data(data.as_bytes())),
        None => None,
    }
}

/// The bytes that close a command: a disconnect.
pub fn closing() -> (bytes: Vec<u8>)
    ensures
        bytes@ == encode::framed(
            MessageKind::Control,
            encode_utf8(message::control_json(Control::Disconnect)),
        ),
{
    encode::encode_control(&ControlMessage::Disconnect)
}

/// What one event adds to the output: ASCII data as it is, other data not at
/// all, and a malformed escape with the NUL it started with.
pub open spec fn output_of(event: Event) -> Seq<char> {
    match event {
        Event::DataByte(b) => if b < 128 {
            seq![b as char]
        } else {
            seq![]
        },
        Event::MalformedEscape(b) => if b < 128 {
            seq!['\0', b as char]
        } else {
            seq!['\0']
        },
        _ => seq![],
    }
}

/// The output after some events.
pub open spec fn collected(output: Seq<char>, events: Seq<Event>) -> Seq<char>
    decreases events.len(),
{
    if events.len() == 0 {
        output
    } else {
        collected(output, events.drop_last()) + output_of(events.last())
    }
}

/// Lines without their timestamps, with a newline between them.
pub open spec fn joined_without_timestamps(lines: Seq<Seq<char>>) -> Seq<char>
    decreases lines.len(),
{
    if lines.len() == 0 {
        seq![]
    } else if lines.len() == 1 {
        log_reader::stripped(lines[0])
    } else {
        joined_without_timestamps(lines.drop_last()).push('\n') + log_reader::stripped(
            lines.last(),
        )
    }
}

/// The output as it is reported: with timestamps as it was collected, and
/// without them line by line, with a newline at the end unless it is empty.
pub open spec fn reported_output(output: Seq<char>, timestamps: bool) -> Seq<char> {
    if timestamps {
        output
    } else {
        let joined = joined_without_timestamps(text::text_lines(output));
        if joined.len() > 0 {
            joined.push('\n')
        } else {
            joined
        }
    }
}

/// Collects the output of a command until a pattern matches.
pub struct CommandCollector {
    parser: Parser,
    output: String,
    pattern: Option<Pattern>,
}

/// What a collector has so far.
pub struct Collection {
    pub parser: State,
    pub output: Seq<char>,
    pub pattern: Option<Seq<char>>,
}

impl View for CommandCollector {
    type V = Collection;

    closed spec fn view(&self) -> Collection {
        Collection {
            parser: self.parser@,
            output: self.output@,
            pattern: match self.pattern {
                Some(p) => Some(p@),
                None => None,
            },
        }
    }
}

/// Whether a collector has what it waits for. Without a pattern it waits for
/// the time to run out.
pub open spec fn is_satisfied(collection: Collection) -> bool {
    match collection.pattern {
        Some(p) => pattern::pattern_matches(p, collection.output),
        None => false,
    }
}

/// What a collector has after a chunk of the stream.
pub open spec fn collect_chunk(collection: Collection, chunk: Seq<u8>) -> Collection {
    let (parser, events) = parser::run(collection.parser, chunk);
    Collection { parser, output: collected(collection.output, events), ..collection }
}

/// A byte of ASCII as a character.
fn ascii_char(byte: u8) -> (c: char)
    requires
        byte < 128,
    ensures
        c == byte as char,
{
    byte as char
}

impl CommandCollector {
    /// A collector that has nothing yet, or the reason why its pattern is no
    /// regular expression.
    pub fn new(wait_for: Option<&str>) -> (collector: Result<Self, String>)
        ensures
            match collector {
                Ok(c) => {
                    &&& c@.parser == State::Normal
                    &&& c@.output == Seq::<char>::empty()
                    &&& c@.pattern == (match wait_for {
                        Some(source) => Some(source@),
                        None => None,
                    })
                    &&& wait_for matches Some(source) ==> pattern::pattern_error(source@) is None
                },
                Err(message) => wait_for matches Some(source) && pattern::pattern_error(
                    source@,
                ) matches Some(reason) && message@ == "invalid regex: "@ + reason,
            },
    {
        let pattern = match wait_for {
            Some(source) => match Pattern::new(source) {
                Ok(pattern) => Some(pattern),
                Err(reason) => {
                    let mut message = "invalid regex: ".to_owned();
                    message.append(reason.as_str());
                    return Err(message);
                },
            },
            None => None,
        };
        Ok(CommandCollector { parser: Parser::new(), output: String::new(), pattern })
    }

    /// Takes a chunk of the stream and says whether what is waited for has
    /// come.
    pub fn receive(&mut self, chunk: &[u8]) -> (done: bool)
        ensures
            final(self)@ == collect_chunk(old(self)@, chunk@),
            done == is_satisfied(final(self)@),
    {
        let events = self.parser.feed_bytes(chunk);
        let ghost all = parser::events_view(events@);
        let ghost first = self.output@;
        let ghost parser = self.parser@;
        let ghost source = self@.pattern;
        assert(all.take(0) == Seq::<Event>::empty());
        for i in 0..events.len()
            invariant
                all == parser::events_view(events@),
                self.output@ == collected(first, all.take(i as int)),
                self.parser@ == parser,
                self@.pattern == source,
        {
            let event = &events[i];
            let ghost before = self.output@;
            proof {
                let next = all.take(i + 1);
                assert(next.drop_last() == all.take(i as int));
                assert(next.last() == event@);
            }
            match event {
                ParseEvent::DataByte(b) => {
                    if *b < 128 {
                        self.output.push(ascii_char(*b));
                    }
                },
                ParseEvent::MalformedEscape(b) => {
                    self.output.push('\0');
                    if *b < 128 {
                        self.output.push(ascii_char(*b));
                    }
                },
                _ => {},
            }
            assert(self.output@ == before + output_of(event@));
        }
        assert(all.take(all.len() as int) == all);
        match &self.pattern {
            Some(pattern) => pattern.is_match(self.output.as_str()),
            None => false,
        }
    }

    /// The output to report, once collecting has ended.
    pub fn finish(self, timestamps: bool) -> (output: String)
        ensures
            output@ == reported_output(self@.output, timestamps),
    {
        if timestamps {
            return self.output;
        }
        // Strip timestamp prefixes from lines
        let lines = text::split_text(self.output.as_str());
        let ghost all = text::texts(lines@);
        let mut output = String::new();
        assert(all.take(0) == Seq::<Seq<char>>::empty());
        for i in 0..lines.len()
            invariant
                all == text::texts(lines@),
                output@ == joined_without_timestamps(all.take(i as int)),
        {
            proof {
                let next = all.take(i + 1);
                assert(next.drop_last() == all.take(i as int));
                assert(next.last() == lines@[i as int]@);
            }
            let ghost before = output@;
            if i > 0 {
                output.push('\n');
            }
            output.append(log_reader::strip_timestamp(lines[i].as_str()));
            assert(i == 0 ==> output@ == log_reader::stripped(lines@[0]@));
        }
        assert(all.take(all.len() as int) == all);
        if !output.as_str().is_empty() {
            output.push('\n');
        }
        output
    }
}

proof fn ascii_is_collected(output: Seq<char>, data: Seq<u8>)
    requires
        forall|i: int| 0 <= i < data.len() ==> #[trigger] data[i] < 128,
    ensures
        collected(output, encode::data_events(data)) == output + data.map_values(
            |b: u8| b as char,
        ),
    decreases data.len(),
{
    let events = encode::data_events(data);
    let as_char = |b: u8| b as char;
    if data.len() == 0 {
        assert(events == Seq::<Event>::empty());
        assert(output + data.map_values(as_char) == output);
    } else {
        let before = data.drop_last();
        assert forall|i: int| 0 <= i < before.len() implies #[trigger] before[i] < 128 by {
            assert(before[i] == data[i]);
        }
        ascii_is_collected(output, before);
        assert(events.drop_last() == encode::data_events(before));
        assert(events.last() == Event::DataByte(data.last()));
        assert(data.last() == data[data.len() - 1]);
        assert(output + before.map_values(as_char) + seq![data.last() as char] == output
            + data.map_values(as_char));
    }
}

/// ASCII data from the device is collected character for character.
pub proof fn ascii_output_is_complete(collection: Collection, data: Seq<u8>)
    requires
        collection.parser == State::Normal,
        forall|i: int| 0 <= i < data.len() ==> #[trigger] data[i] < 128,
    ensures
        collect_chunk(collection, encode::escaped(data)) == (Collection {
            output: collection.output + data.map_values(|b: u8| b as char),
            ..collection
        }),
{
    encode::data_round_trip(data);
    ascii_is_collected(collection.output, data);
}

proof fn collected_adds_up(output: Seq<char>, first: Seq<Event>, second: Seq<Event>)
    ensures
        collected(output, first + second) == collected(collected(output, first), second),
    decreases second.len(),
{
    if second.len() == 0 {
        assert(first + second == first);
    } else {
        collected_adds_up(output, first, second.drop_last());
        assert((first + second).drop_last() == first + second.drop_last());
        assert((first + second).last() == second.last());
    }
}

/// How the stream is cut into chunks does not change what is collected.
pub proof fn collected_chunks_add_up(collection: Collection, first: Seq<u8>, second: Seq<u8>)
    ensures
        collect_chunk(collection, first + second) == collect_chunk(
            collect_chunk(collection, first),
            second,
        ),
{
    parser::chunks_add_up(collection.parser, first, second);
    let (mid, before) = parser::run(collection.parser, first);
    let after = parser::run(mid, second).1;
    collected_adds_up(collection.output, before, after);
}

proof fn data_is_collected(output: Seq<char>, data: Seq<u8>)
    ensures
        collected(output, encode::data_events(data)) == output + data.filter(
            |b: u8| b < 128,
        ).map_values(|b: u8| b as char),
    decreases data.len(),
{
    let events = encode::data_events(data);
    let is_ascii = |b: u8| b < 128;
    let as_char = |b: u8| b as char;
    reveal(Seq::filter);
    if data.len() == 0 {
        assert(events == Seq::<Event>::empty());
        assert(data.filter(is_ascii) == Seq::<u8>::empty());
        assert(output + data.filter(is_ascii).map_values(as_char) == output);
    } else {
        let before = data.drop_last();
        data_is_collected(output, before);
        assert(events.drop_last() == encode::data_events(before));
        assert(events.last() == Event::DataByte(data.last()));
        let kept = before.filter(is_ascii);
        if data.last() < 128 {
            assert(kept.push(data.last()).map_values(as_char) == kept.map_values(as_char).push(
                data.last() as char,
            ));
            assert(output + kept.map_values(as_char) + seq![data.last() as char] == output
                + kept.push(data.last()).map_values(as_char));
        } else {
            assert(output + kept.map_values(as_char) + Seq::<char>::empty() == output
                + kept.map_values(as_char));
        }
    }
}

/// Whatever data the device sends, its ASCII characters are collected, all of
/// them and in order, behind what was collected before.
pub proof fn all_ascii_is_collected(collection: Collection, data: Seq<u8>)
    requires
        collection.parser == State::Normal,
    ensures
        collect_chunk(collection, encode::escaped(data)) == (Collection {
            output: collection.output + data.filter(|b: u8| b < 128).map_values(
                |b: u8| b as char,
            ),
            ..collection
        }),
{
    encode::data_round_trip(data);
    data_is_collected(collection.output, data);
}

/// A malformed escape is collected as what it is: a NUL, and its second byte if
/// that is ASCII.
pub proof fn malformed_escapes_are_collected(collection: Collection, byte: u8)
    requires
        collection.parser == State::Normal,
        byte != 0,
        byte != 0x43,
        byte != 0x52,
    ensures
        collect_chunk(collection, seq![0u8, byte]) == (Collection {
            output: if byte < 128 {
                collection.output.push('\0').push(byte as char)
            } else {
                collection.output.push('\0')
            },
            ..collection
        }),
{
    parser::malformed_escapes_are_reported(byte);
    let events = seq![Event::MalformedEscape(byte)];
    assert(events.drop_last() == Seq::<Event>::empty());
    reveal_with_fuel(collected, 2);
    let before = collection.output;
    assert(byte < 128 ==> before + seq!['\0', byte as char] == before.push('\0').push(
        byte as char,
    ));
    assert(before + seq!['\0'] == before.push('\0'));
}

/// Messages between the data add nothing to the output.
pub proof fn messages_are_not_collected(collection: Collection, kind: MessageKind, body: Seq<u8>)
    requires
        collection.parser == State::Normal,
        text::zero_free(body),
    ensures
        collect_chunk(collection, encode::framed(kind, body)) == collection,
{
    encode::message_round_trip(kind, body);
    let events = seq![parser::message_event(kind, body)];
    assert(events.drop_last() == Seq::<Event>::empty());
    reveal_with_fuel(collected, 2);
    assert(collection.output + Seq::<char>::empty() == collection.output);
}

/// A command ends as soon as its pattern matches all of the output so far, and
/// never without a pattern.
pub proof fn the_pattern_is_sought_in_all_of_the_output(collection: Collection, data: Seq<u8>)
    requires
        collection.parser == State::Normal,
    ensures
        ({
            let after = collect_chunk(collection, encode::escaped(data));
            let output = collection.output + data.filter(|b: u8| b < 128).map_values(
                |b: u8| b as char,
            );
            is_satisfied(after) <==> (collection.pattern matches Some(p)
                && pattern::pattern_matches(p, output))
        }),
{
    all_ascii_is_collected(collection, data);
}

proof fn joined_lines_with_ends(lines: Seq<Seq<char>>)
    requires
        lines.len() > 0,
    ensures
        joined_without_timestamps(lines).push('\n') == lines.map_values(
            |l: Seq<char>| log_reader::stripped(l).push('\n'),
        ).flatten(),
    decreases lines.len(),
{
    let ended = |l: Seq<char>| log_reader::stripped(l).push('\n');
    let fewer = lines.drop_last();
    let last = lines.last();
    let before = fewer.map_values(ended);
    assert(lines.map_values(ended) == before.push(ended(last)));
    before.lemma_flatten_push(ended(last));
    if lines.len() == 1 {
        assert(before == Seq::<Seq<char>>::empty());
        assert(Seq::<char>::empty() + ended(last) == ended(last));
    } else {
        joined_lines_with_ends(fewer);
        let head = joined_without_timestamps(fewer).push('\n');
        assert((head + log_reader::stripped(last)).push('\n') == head + ended(last));
    }
}

/// The report without timestamps is every line of the output, in order, with
/// its timestamp taken off and a newline behind it. Only an output of one line
/// that is nothing but a timestamp is reported as nothing.
pub proof fn every_line_is_reported(
    lines: Seq<Seq<char>>,
    with_cr: Seq<bool>,
    rest: Seq<char>,
)
    requires
        with_cr.len() == lines.len(),
        forall|i: int| 0 <= i < lines.len() ==> text::on_one_line(#[trigger] lines[i]),
        forall|i: int|
            0 <= i < lines.len() && !with_cr[i] && (#[trigger] lines[i]).len() > 0
                ==> lines[i].last() != '\r',
        text::on_one_line(rest),
    ensures
        ({
            let output = text::ended_lines(lines, with_cr) + rest;
            let all = if rest.len() > 0 {
                lines.push(rest)
            } else {
                lines
            };
            &&& reported_output(output, true) == output
            &&& reported_output(output, false) == (if all.len() == 1 && log_reader::stripped(
                all[0],
            ).len() == 0 {
                Seq::<char>::empty()
            } else {
                all.map_values(|l: Seq<char>| log_reader::stripped(l).push('\n')).flatten()
            })
        }),
{
    text::all_lines_are_found(lines, with_cr, rest);
    let all = if rest.len() > 0 {
        lines.push(rest)
    } else {
        lines
    };
    let ended = |l: Seq<char>| log_reader::stripped(l).push('\n');
    if all.len() == 0 {
        assert(all.map_values(ended) == Seq::<Seq<char>>::empty());
    } else {
        joined_lines_with_ends(all);
        if all.len() == 1 {
            assert(joined_without_timestamps(all) == log_reader::stripped(all[0]));
        }
    }
}

/// Lines of any number that carry no timestamp are reported as they came.
pub proof fn plain_output_is_reported_as_it_is(lines: Seq<Seq<char>>)
    requires
        forall|i: int|
            0 <= i < lines.len() ==> (#[trigger] lines[i]).len() > 0 && lines[i][0] != '[',
        forall|i: int, j: int|
            0 <= i < lines.len() && 0 <= j < lines[i].len() ==> #[trigger] lines[i][j] != '\n'
                && lines[i][j] != '\r',
    ensures
        ({
            let output = lines.map_values(|l: Seq<char>| l.push('\n')).flatten();
            reported_output(output, false) == output
        }),
{
    let with_cr = Seq::new(lines.len(), |i: int| false);
    assert forall|i: int| 0 <= i < lines.len() implies text::on_one_line(#[trigger] lines[i]) by {
        assert forall|j: int| 0 <= j < lines[i].len() implies #[trigger] lines[i][j] != '\n' by {}
    }
    assert forall|i: int|
        0 <= i < lines.len() && !with_cr[i] && (#[trigger] lines[i]).len() > 0 implies
        lines[i].last() != '\r' by {
        assert(lines[i][lines[i].len() - 1] != '\r');
    }
    every_line_is_reported(lines, with_cr, seq![]);
    let plain = |l: Seq<char>| l.push('\n');
    let ended = |l: Seq<char>| log_reader::stripped(l).push('\n');
    assert forall|i: int| 0 <= i < lines.len() implies log_reader::stripped(#[trigger] lines[i])
        == lines[i] by {
        log_reader::lines_without_prefix_stay(lines[i]);
    }
    assert(lines.map_values(ended) == lines.map_values(plain));
    let parts = Seq::new(
        lines.len(),
        |i: int|
            if with_cr[i] {
                lines[i].push('\r').push('\n')
            } else {
                lines[i].push('\n')
            },
    );
    assert(parts == lines.map_values(plain));
    let output = lines.map_values(plain).flatten();
    assert(text::ended_lines(lines, with_cr) + Seq::<char>::empty() == output);
}

/// A finished command reports all that was collected, if timestamps are to be kept
/// or there are none: no line is left out, however many there are.
pub proof fn finished_commands_report_everything(
    collector: CommandCollector,
    lines: Seq<Seq<char>>,
    output: String,
    timestamps: bool,
)
    requires
        call_ensures(CommandCollector::finish, (collector, timestamps), output),
        forall|i: int|
            0 <= i < lines.len() ==> (#[trigger] lines[i]).len() > 0 && lines[i][0] != '[',
        forall|i: int, j: int|
            0 <= i < lines.len() && 0 <= j < lines[i].len() ==> #[trigger] lines[i][j] != '\n'
                && lines[i][j] != '\r',
        collector@.output == lines.map_values(|l: Seq<char>| l.push('\n')).flatten(),
    ensures
        output@ == collector@.output,
{
    plain_output_is_reported_as_it_is(lines);
}

/// A collector is satisfied when the pattern matches what it has collected, and
/// what it collects is the ASCII of all the data that was sent to it.
pub proof fn collectors_wait_for_their_pattern(data: Seq<u8>, chunk: &[u8], done: bool)
    requires
        chunk@ == encode::escaped(data),
    ensures
        forall|collector: &mut CommandCollector| #[trigger]
            call_ensures(CommandCollector::receive, (collector, chunk), done)
                && collector@.parser == State::Normal ==> {
                let output = collector@.output + data.filter(|b: u8| b < 128).map_values(
                    |b: u8| b as char,
                );
                &&& final(collector)@ == Collection { output, ..collector@ }
                &&& done <==> (collector@.pattern matches Some(p) && pattern::pattern_matches(
                    p,
                    output,
                ))
            },
{
    assert forall|collector: &mut CommandCollector| #[trigger]
        call_ensures(CommandCollector::receive, (collector, chunk), done)
            && collector@.parser == State::Normal implies {
        let output = collector@.output + data.filter(|b: u8| b < 128).map_values(
            |b: u8| b as char,
        );
        &&& final(collector)@ == Collection { output, ..collector@ }
        &&& done <==> (collector@.pattern matches Some(p) && pattern::pattern_matches(p, output))
    } by {
        all_ascii_is_collected(collector@, data);
        the_pattern_is_sought_in_all_of_the_output(collector@, data);
    }
}

/// What is sent first is the text, whole, and at the end the request to
/// disconnect.
pub proof fn commands_are_sent_whole(
    data: &str,
    bytes: Option<Vec<u8>>,
    nothing: Option<Vec<u8>>,
    last: Vec<u8>,
)
    ensures
        call_ensures(opening, (Some(data),), bytes) ==> bytes is Some && parser::run(
            State::Normal,
            bytes->0@,
        ) == (State::Normal, encode_utf8(data@).map_values(|b: u8| Event::DataByte(b))),
        call_ensures(opening, (None,), nothing) ==> nothing is None,
        call_ensures(closing, (), last) ==> last@ == seq![0u8, 0x43u8] + encode_utf8(
            message::control_json(Control::Disconnect),
        ) + seq![0u8],
{
    encode::data_round_trip(encode_utf8(data@));
    encode::messages_are_framed(encode_utf8(message::control_json(Control::Disconnect)));
}

} // verus!

//! The log file: one timestamped line for each line of serial data.

use crate::log_reader;
use crate::log_reader::NEWLINE;
use crate::text;
use vstd::prelude::*;
use vstd::utf8::*;

verus! {

/// A decimal digit.
pub open spec fn is_digit(c: char) -> bool {
    '0' <= c <= '9'
}

/// What the two digits at some place of a text read as.
pub open spec fn two_digits(text: Seq<char>, at: int) -> int {
    10 * (text[at] as int - '0' as int) + (text[at + 1] as int - '0' as int)
}

/// Whether two digits stand at some place of a text, for a number in a range.
pub open spec fn counts(text: Seq<char>, at: int, from: int, to: int) -> bool {
    &&& is_digit(text[at])
    &&& is_digit(text[at + 1])
    &&& from <= two_digits(text, at) <= to
}

/// A timestamp prefix: `[YYYY-MM-DD HH:MM:SS.mmm] `. The month is 01 to 12, the
/// day 01 to 31, the hour 00 to 23, the minute 00 to 59 and the second 00 to
/// 60, the last for a leap second. A year that is negative or has more than
/// four digits has a sign.
pub open spec fn is_timestamp(stamp: Seq<char>) -> bool {
    let n = stamp.len() as int;
    &&& n >= 26
    &&& stamp[0] == '['
    &&& n == 26 ==> is_digit(stamp[1])
    &&& n > 26 ==> stamp[1] == '+' || stamp[1] == '-'
    &&& forall|i: int| 2 <= i < n - 21 ==> is_digit(#[trigger] stamp[i])
    &&& stamp[n - 21] == '-'
    &&& counts(stamp, n - 20, 1, 12)
    &&& stamp[n - 18] == '-'
    &&& counts(stamp, n - 17, 1, 31)
    &&& stamp[n - 15] == ' '
    &&& counts(stamp, n - 14, 0, 23)
    &&& stamp[n - 12] == ':'
    &&& counts(stamp, n - 11, 0, 59)
    &&& stamp[n - 9] == ':'
    &&& counts(stamp, n - 8, 0, 60)
    &&& stamp[n - 6] == '.'
    &&& is_digit(stamp[n - 5]) && is_digit(stamp[n - 4]) && is_digit(stamp[n - 3])
    &&& stamp[n - 2] == ']'
    &&& stamp[n - 1] == ' '
}

/// The local time in the given format.
///
/// Calls `chrono::Local::now`, `chrono::DateTime::format` and `to_string` on
/// what it gives. Which time it is depends on the machine; whatever it is,
/// this format is a bracket, a year of at least four digits, the other parts
/// of the date and time in two digits each and in the ranges that they have,
/// milliseconds in three, a bracket and a space. The clock is taken to be past
/// 1970: `now` panics before.
#[verifier::external_body]
fn format_local_now(format: &str) -> (stamp: String)
    requires
        format@ == "[%Y-%m-%d %H:%M:%S%.3f] "@,
    ensures
        is_timestamp(stamp@),
{
    chrono::Local::now().format(format).to_string()
}

/// Format a timestamp prefix for log lines.
pub fn format_timestamp() -> (stamp: String)
    ensures
        is_timestamp(stamp@),
{
    format_local_now("[%Y-%m-%d %H:%M:%S%.3f] ")
}

/// The carriage return, which the log leaves out.
pub const CARRIAGE_RETURN: u8 = 13;

/// The part of a line that is waiting for its newline, after some more data.
pub open spec fn waiting(line: Seq<u8>, data: Seq<u8>) -> Seq<u8>
    decreases data.len(),
{
    if data.len() == 0 {
        line
    } else {
        let before = waiting(line, data.drop_last());
        if data.last() == NEWLINE {
            seq![]
        } else if data.last() == CARRIAGE_RETURN {
            before
        } else {
            before.push(data.last())
        }
    }
}

/// The lines that some data completes, given the part of a line that was
/// waiting: each without its line ending.
pub open spec fn completed(line: Seq<u8>, data: Seq<u8>) -> Seq<Seq<u8>>
    decreases data.len(),
{
    if data.len() == 0 {
        seq![]
    } else {
        let before = completed(line, data.drop_last());
        if data.last() == NEWLINE {
            before.push(waiting(line, data.drop_last()))
        } else {
            before
        }
    }
}

/// One line of the log: timestamp, line, newline.
pub open spec fn log_entry(stamp: Seq<char>, line: Seq<u8>) -> Seq<u8> {
    encode_utf8(stamp) + line + seq![NEWLINE]
}

/// What the log holds of some lines, each with its timestamp.
pub open spec fn log_entries(stamps: Seq<Seq<char>>, lines: Seq<Seq<u8>>) -> Seq<u8>
    decreases lines.len(),
{
    if lines.len() == 0 {
        seq![]
    } else {
        log_entries(stamps, lines.drop_last()) + log_entry(
            stamps[lines.len() - 1],
            lines.last(),
        )
    }
}

/// There is one timestamp for each of so many lines.
pub open spec fn stamps_for(stamps: Seq<Seq<char>>, count: nat) -> bool {
    &&& stamps.len() == count
    &&& forall|i: int| 0 <= i < count ==> is_timestamp(#[trigger] stamps[i])
}

/// Turns serial data into lines of the log. Partial lines are buffered until
/// a newline is seen.
pub struct LogLines {
    line_buf: Vec<u8>,
}

impl View for LogLines {
    type V = Seq<u8>;

    closed spec fn view(&self) -> Seq<u8> {
        self.line_buf@
    }
}

impl LogLines {
    /// No line has been started.
    pub fn new() -> (lines: Self)
        ensures
            lines@ == Seq::<u8>::empty(),
    {
        LogLines { line_buf: Vec::new() }
    }

    /// Takes one byte. If it completes a line, the line goes to the log with
    /// the timestamp at hand.
    pub fn accept_byte(&mut self, byte: u8, stamp: &str, log: &mut Vec<u8>)
        ensures
            final(self)@ == waiting(old(self)@, seq![byte]),
            final(log)@ == old(log)@ + (if byte == NEWLINE {
                log_entry(stamp@, old(self)@)
            } else {
                Seq::<u8>::empty()
            }),
    {
        proof {
            reveal_with_fuel(waiting, 2);
            assert(seq![byte].drop_last() == Seq::<u8>::empty());
        }
        if byte == NEWLINE {
            let ghost before = log@;
            log.extend_from_slice(stamp.as_bytes());
            log.append(&mut self.line_buf);
            log.push(NEWLINE);
            assert(log@ == before + log_entry(stamp@, old(self)@));
        } else {
            if byte != CARRIAGE_RETURN {
                self.line_buf.push(byte);
            }
            assert(log@ + Seq::<u8>::empty() == log@);
        }
    }

    /// Takes serial data and returns what it adds to the log: the lines that
    /// it completes, each behind the time at which it did.
    pub fn accept(&mut self, data: &[u8]) -> (log: Vec<u8>)
        ensures
            final(self)@ == waiting(old(self)@, data@),
            exists|stamps: Seq<Seq<char>>|
                #[trigger] stamps_for(stamps, completed(old(self)@, data@).len()) && log@
                    == log_entries(stamps, completed(old(self)@, data@)),
    {
        let mut log: Vec<u8> = Vec::new();
        let ghost mut stamps: Seq<Seq<char>> = seq![];
        let ghost line = self@;
        assert(data@.take(0) == Seq::<u8>::empty());
        for i in 0..data.len()
            invariant
                self@ == waiting(line, data@.take(i as int)),
                stamps_for(stamps, completed(line, data@.take(i as int)).len()),
                log@ == log_entries(stamps, completed(line, data@.take(i as int))),
        {
            let byte = data[i];
            let ghost done = data@.take(i as int);
            let ghost lines = completed(line, done);
            proof {
                let next = data@.take(i + 1);
                assert(next.drop_last() == done);
                assert(next.last() == byte);
                reveal_with_fuel(waiting, 2);
                assert(seq![byte].drop_last() == Seq::<u8>::empty());
            }
            if byte == NEWLINE {
                let stamp = format_timestamp();
                self.accept_byte(byte, stamp.as_str(), &mut log);
                proof {
                    let more = stamps.push(stamp@);
                    let all = lines.push(waiting(line, done));
                    assert(all.drop_last() == lines);
                    same_stamps(stamps, more, lines);
                    assert(log@ == log_entries(more, all));
                    stamps = more;
                }
            } else {
                self.accept_byte(byte, "", &mut log);
                assert(log@ == log_entries(stamps, lines) + Seq::<u8>::empty());
            }
        }
        assert(data@.take(data@.len() as int) == data@);
        assert(stamps_for(stamps, completed(line, data@).len()));
        log
    }

    /// What is left for the log when the server stops: the partial line, if
    /// there is one, with the timestamp at hand.
    pub fn finish_with(self, stamp: &str) -> (log: Vec<u8>)
        ensures
            log@ == (if self@.len() > 0 {
                log_entry(stamp@, self@)
            } else {
                Seq::<u8>::empty()
            }),
    {
        let mut log: Vec<u8> = Vec::new();
        if self.line_buf.len() > 0 {
            log.extend_from_slice(stamp.as_bytes());
            log.extend_from_slice(self.line_buf.as_slice());
            log.push(NEWLINE);
            assert(log@ == log_entry(stamp@, self@));
        }
        log
    }

    /// What is left for the log when the server stops: the partial line, if
    /// there is one, behind the time of the stop.
    pub fn finish(self) -> (log: Vec<u8>)
        ensures
            self@.len() == 0 ==> log@ == Seq::<u8>::empty(),
            self@.len() > 0 ==> exists|stamp: Seq<char>|
                #[trigger] is_timestamp(stamp) && log@ == log_entry(stamp, self@),
    {
        let stamp = format_timestamp();
        self.finish_with(stamp.as_str())
    }
}

/// Timestamps behind those that lines need make no difference.
proof fn same_stamps(stamps: Seq<Seq<char>>, more: Seq<Seq<char>>, lines: Seq<Seq<u8>>)
    requires
        lines.len() <= stamps.len() <= more.len(),
        forall|i: int| 0 <= i < stamps.len() ==> stamps[i] == #[trigger] more[i],
    ensures
        log_entries(stamps, lines) == log_entries(more, lines),
    decreases lines.len(),
{
    if lines.len() > 0 {
        same_stamps(stamps, more, lines.drop_last());
        assert(stamps[lines.len() - 1] == more[lines.len() - 1]);
    }
}

/// How serial data is cut into chunks does not matter to the log.
pub proof fn log_chunks_add_up(line: Seq<u8>, first: Seq<u8>, second: Seq<u8>)
    ensures
        waiting(line, first + second) == waiting(waiting(line, first), second),
        completed(line, first + second) == completed(line, first) + completed(
            waiting(line, first),
            second,
        ),
    decreases second.len(),
{
    if second.len() == 0 {
        assert(first + second == first);
        assert(completed(line, first) + Seq::<Seq<u8>>::empty() == completed(line, first));
    } else {
        log_chunks_add_up(line, first, second.drop_last());
        assert((first + second).drop_last() == first + second.drop_last());
        assert((first + second).last() == second.last());
        let mid = waiting(line, first);
        let before = completed(line, first);
        let after = completed(mid, second.drop_last());
        let next = waiting(mid, second.drop_last());
        assert((before + after).push(next) == before + after.push(next));
    }
}

/// A line without its line ending.
pub open spec fn is_line(line: Seq<u8>) -> bool {
    forall|i: int|
        0 <= i < line.len() ==> #[trigger] line[i] != NEWLINE && line[i] != CARRIAGE_RETURN
}

/// Neither the partial line nor the lines that go to the log ever hold a line
/// ending.
pub proof fn lines_hold_no_line_endings(line: Seq<u8>, data: Seq<u8>)
    requires
        is_line(line),
    ensures
        is_line(waiting(line, data)),
        forall|i: int|
            0 <= i < completed(line, data).len() ==> is_line(#[trigger] completed(line, data)[i]),
    decreases data.len(),
{
    if data.len() > 0 {
        lines_hold_no_line_endings(line, data.drop_last());
        let before = completed(line, data.drop_last());
        assert forall|i: int| 0 <= i < completed(line, data).len() implies is_line(
            #[trigger] completed(line, data)[i],
        ) by {
            if i < before.len() {
                assert(completed(line, data)[i] == before[i]);
            }
        }
    }
}

/// A timestamp is plain text without line endings, and the bracket at its
/// end is its only closing one.
proof fn timestamp_characters(stamp: Seq<char>)
    requires
        is_timestamp(stamp),
    ensures
        is_ascii_chars(stamp),
        forall|i: int| 0 <= i < stamp.len() ==> #[trigger] stamp[i] != '\n',
        forall|i: int| 0 <= i < stamp.len() - 2 ==> #[trigger] stamp[i] != ']',
        log_reader::newline_free(encode_utf8(stamp)),
        encode_utf8(stamp).len() > 0,
{
    let n = stamp.len() as int;
    assert forall|i: int| 0 <= i < n implies '\0' <= #[trigger] stamp[i] <= '\u{7f}' && stamp[i]
        != '\n' && (i < n - 2 ==> stamp[i] != ']') by {
        if 1 <= i < n - 21 {
        } else if i == 0 || i == n - 21 || i == n - 20 || i == n - 19 || i == n - 18 || i == n - 17
            || i == n - 16 || i == n - 15 || i == n - 14 || i == n - 13 || i == n - 12 || i == n
            - 11 || i == n - 10 || i == n - 9 || i == n - 8 || i == n - 7 || i == n - 6 || i == n
            - 5 || i == n - 4 || i == n - 3 {
        }
    }
    is_ascii_chars_encode_utf8(stamp);
    let bytes = encode_utf8(stamp);
    assert forall|i: int| 0 <= i < bytes.len() implies #[trigger] bytes[i] != NEWLINE by {
        assert(stamp[i] as u8 == bytes[i]);
        assert(stamp[i] != '\n');
    }
}

/// Stripping the timestamp of a log line gives the line that was logged.
pub proof fn timestamp_is_stripped(stamp: Seq<char>, line: Seq<char>)
    requires
        is_timestamp(stamp),
    ensures
        log_reader::stripped(stamp + line) == line,
{
    timestamp_characters(stamp);
    let whole = stamp + line;
    let end = stamp.len() - 2;
    assert forall|i: int| 0 <= i < end implies #[trigger] whole[i] != ']' by {
        assert(whole[i] == stamp[i]);
    }
    log_reader::close_is_first(whole, end);
    assert(whole.skip(end + 2) == line);
}

/// What was logged can be read back: the log has one line for each, in
/// order, which is the timestamp and the text of the line, and stripping the
/// timestamp gives that text.
pub proof fn log_reads_back(stamps: Seq<Seq<char>>, lines: Seq<Seq<u8>>)
    requires
        stamps_for(stamps, lines.len()),
        forall|i: int| 0 <= i < lines.len() ==> is_line(#[trigger] lines[i]),
    ensures
        ({
            let read = log_reader::lines_of(log_entries(stamps, lines));
            &&& read.len() == lines.len()
            &&& forall|i: int|
                0 <= i < lines.len() ==> {
                    &&& #[trigger] read[i] == stamps[i] + text::lossy(lines[i])
                    &&& log_reader::stripped(read[i]) == text::lossy(lines[i])
                }
        }),
        log_reader::at_line_start(log_entries(stamps, lines)),
    decreases lines.len(),
{
    if lines.len() == 0 {
        reveal_with_fuel(log_reader::line_texts, 2);
        let none = Seq::<u8>::empty();
        assert(log_reader::pieces(none) == seq![none]);
        assert(seq![none].drop_last() == Seq::<Seq<u8>>::empty());
        assert(log_reader::lines_of(none) == Seq::<Seq<char>>::empty());
    } else {
        let rest = lines.drop_last();
        let line = lines.last();
        let k = rest.len() as int;
        let stamp = stamps[k];
        let fewer = stamps.drop_last();
        assert(stamps_for(fewer, rest.len()));
        assert forall|i: int| 0 <= i < rest.len() implies is_line(#[trigger] rest[i]) by {
            assert(rest[i] == lines[i]);
        }
        log_reads_back(fewer, rest);
        same_stamps(fewer, stamps, rest);
        let content = log_entries(stamps, rest);
        let entry = encode_utf8(stamp) + line;
        timestamp_characters(stamp);
        assert(is_line(lines[k]));
        assert forall|i: int| 0 <= i < entry.len() implies #[trigger] entry[i] != NEWLINE by {
            if i < encode_utf8(stamp).len() {
                assert(entry[i] == encode_utf8(stamp)[i]);
            } else {
                assert(entry[i] == line[i - encode_utf8(stamp).len()]);
            }
        }
        log_reader::appended_line_is_last(content, entry);
        assert(content + entry + seq![NEWLINE] == content + log_entry(stamp, line));
        text::lossy_of_ascii_and_bytes(stamp, line);
        timestamp_is_stripped(stamp, text::lossy(line));
        let before = log_reader::lines_of(content);
        let read = log_reader::lines_of(log_entries(stamps, lines));
        assert(read == before.push(text::lossy(entry)));
        assert forall|i: int| 0 <= i < lines.len() implies {
            &&& #[trigger] read[i] == stamps[i] + text::lossy(lines[i])
            &&& log_reader::stripped(read[i]) == text::lossy(lines[i])
        } by {
            if i < k {
                assert(read[i] == before[i]);
                assert(fewer[i] == stamps[i]);
                assert(rest[i] == lines[i]);
            }
        }
    }
}

/// The log keeps what the device sent: the lines that some data completes, a
/// newline behind each, and what is still waiting behind them, are what was
/// waiting and the data without its carriage returns. Nothing is lost, added
/// or moved, whatever the length of the lines.
pub proof fn the_log_keeps_what_was_sent(line: Seq<u8>, data: Seq<u8>)
    ensures
        completed(line, data).map_values(|l: Seq<u8>| l.push(10)).flatten() + waiting(line, data)
            == line + data.filter(|b: u8| b != 13),
    decreases data.len(),
{
    let ended = |l: Seq<u8>| l.push(10);
    let kept = |b: u8| b != 13;
    let lines = completed(line, data);
    reveal(Seq::filter);
    if data.len() == 0 {
        assert(lines.map_values(ended) == Seq::<Seq<u8>>::empty());
        assert(data.filter(kept) == Seq::<u8>::empty());
        assert(Seq::<u8>::empty() + line == line + Seq::<u8>::empty());
    } else {
        let before = data.drop_last();
        the_log_keeps_what_was_sent(line, before);
        let earlier = completed(line, before).map_values(ended);
        let rest = waiting(line, before);
        let sent = line + before.filter(kept);
        let byte = data.last();
        if byte == NEWLINE {
            assert(lines.map_values(ended) == earlier.push(rest.push(10)));
            earlier.lemma_flatten_push(rest.push(10));
            assert(earlier.flatten() + rest.push(10) + Seq::<u8>::empty() == sent.push(10));
            assert(sent.push(10) == line + before.filter(kept).push(10));
        } else if byte != CARRIAGE_RETURN {
            assert(earlier.flatten() + rest.push(byte) == sent.push(byte));
            assert(sent.push(byte) == line + before.filter(kept).push(byte));
        }
    }
}

/// A line of any length goes to the log whole when its newline comes, and not
/// before.
pub proof fn a_line_is_logged_whole(line: Seq<u8>)
    requires
        forall|i: int| 0 <= i < line.len() ==> #[trigger] line[i] != 10 && line[i] != 13,
    ensures
        waiting(seq![], line) == line,
        completed(seq![], line) == Seq::<Seq<u8>>::empty(),
        completed(seq![], line.push(10)) == seq![line],
        waiting(seq![], line.push(10)) == Seq::<u8>::empty(),
        completed(seq![], line.push(13).push(10)) == seq![line],
        waiting(seq![], line.push(13).push(10)) == Seq::<u8>::empty(),
    decreases line.len(),
{
    if line.len() > 0 {
        let before = line.drop_last();
        assert forall|i: int| 0 <= i < before.len() implies #[trigger] before[i] != 10
            && before[i] != 13 by {
            assert(before[i] == line[i]);
        }
        a_line_is_logged_whole(before);
        assert(line.last() == line[line.len() - 1]);
        assert(before.push(line.last()) == line);
    } else {
        assert(line == Seq::<u8>::empty());
    }
    assert(line.push(10).drop_last() == line);
    assert(line.push(13).drop_last() == line);
    assert(line.push(13).push(10).drop_last() == line.push(13));
    assert(line.push(13).last() == 13);
    assert(waiting(seq![], line) == line);
    assert(completed(seq![], line.push(13)) == completed(seq![], line));
    assert(waiting(seq![], line.push(13)) == waiting(seq![], line));
    assert(Seq::<Seq<u8>>::empty().push(line) == seq![line]);
}

/// The log is its entries in a row, each the timestamp, the line as it is and a
/// newline.
pub proof fn the_log_is_its_entries(stamps: Seq<Seq<char>>, lines: Seq<Seq<u8>>)
    ensures
        log_entries(stamps, lines) == Seq::new(
            lines.len(),
            |i: int| encode_utf8(stamps[i]) + lines[i].push(10),
        ).flatten(),
    decreases lines.len(),
{
    let entry = |i: int| encode_utf8(stamps[i]) + lines[i].push(10);
    let all = Seq::new(lines.len(), entry);
    if lines.len() == 0 {
        assert(all == Seq::<Seq<u8>>::empty());
    } else {
        let fewer = lines.drop_last();
        the_log_is_its_entries(stamps, fewer);
        let k = lines.len() - 1;
        let before = Seq::new(fewer.len(), |i: int| encode_utf8(stamps[i]) + fewer[i].push(10));
        assert(before == all.drop_last());
        assert(before.push(all[k]) == all);
        before.lemma_flatten_push(all[k]);
        assert(log_entry(stamps[k], lines[k]) == all[k]);
    }
}

/// An entry of the log is a line behind its timestamp, with a newline behind it.
pub proof fn an_entry_is_a_stamped_line(stamp: Seq<char>, line: Seq<u8>)
    ensures
        log_entry(stamp, line) == encode_utf8(stamp) + line.push(10),
{
    assert(encode_utf8(stamp) + line + seq![NEWLINE] == encode_utf8(stamp) + line.push(10));
}

/// The log gets every line that the device completes, whole, each as an entry with
/// a timestamp of its own, and what is not completed waits.
pub proof fn the_log_gets_whole_lines(data: &[u8], log: Vec<u8>)
    ensures
        forall|lines: &mut LogLines| #[trigger]
            call_ensures(LogLines::accept, (lines, data), log) ==> exists|
                stamps: Seq<Seq<char>>,
                found: Seq<Seq<u8>>,
            |
                #![trigger stamps.len(), found.len()]
                stamps.len() == found.len() && log@ == Seq::new(
                    found.len(),
                    |i: int| encode_utf8(stamps[i]) + found[i].push(10),
                ).flatten() && found.map_values(|l: Seq<u8>| l.push(10)).flatten() + final(lines)@
                    == lines@ + data@.filter(|b: u8| b != 13),
{
    assert forall|lines: &mut LogLines| #[trigger]
        call_ensures(LogLines::accept, (lines, data), log) implies exists|
        stamps: Seq<Seq<char>>,
        found: Seq<Seq<u8>>,
    |
        #![trigger stamps.len(), found.len()]
        stamps.len() == found.len() && log@ == Seq::new(
            found.len(),
            |i: int| encode_utf8(stamps[i]) + found[i].push(10),
        ).flatten() && found.map_values(|l: Seq<u8>| l.push(10)).flatten() + final(lines)@
            == lines@ + data@.filter(|b: u8| b != 13) by {
        let found = completed(lines@, data@);
        let stamps = choose|stamps: Seq<Seq<char>>|
            #[trigger] stamps_for(stamps, completed(lines@, data@).len()) && log@ == log_entries(
                stamps,
                completed(lines@, data@),
            );
        the_log_is_its_entries(stamps, found);
        the_log_keeps_what_was_sent(lines@, data@);
        assert(stamps.len() == found.len());
    }
}

/// What waits at the end is logged as a line of its own; without anything waiting,
/// nothing is logged.
pub proof fn the_last_line_is_logged(lines: LogLines, stamp: &str, log: Vec<u8>)
    requires
        call_ensures(LogLines::finish_with, (lines, stamp), log),
    ensures
        lines@.len() > 0 ==> log@ == encode_utf8(stamp@) + lines@.push(10),
        lines@.len() == 0 ==> log@ == Seq::<u8>::empty(),
{
    an_entry_is_a_stamped_line(stamp@, lines@);
}

} // verus!

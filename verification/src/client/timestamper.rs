//! Timestamps at the start of each line on the terminal.

use crate::log_reader::NEWLINE;
use crate::server::log_writer;
use crate::server::log_writer::CARRIAGE_RETURN;
use crate::text;
use vstd::prelude::*;
use vstd::utf8::*;

verus! {

/// ANSI escape sequence parser state.
#[derive(Debug, Clone, Copy, PartialEq, Eq, Structural)]
pub enum AnsiState {
    Normal,
    /// Seen ESC (0x1b), waiting for `[`.
    Esc,
    /// Inside a CSI sequence (ESC [ ...), accumulating parameter bytes.
    Csi,
}

/// The escape character.
pub const ESC: u8 = 0x1b;

/// The bracket that makes an escape sequence a control sequence.
pub const CSI_OPEN: u8 = 0x5b;

/// The final byte of a control sequence that sets graphic rendition.
pub const SGR_FINAL: u8 = 0x6d;

/// The byte between two parameters of a control sequence.
pub const PARAM_SEPARATOR: u8 = 0x3b;

/// The digit zero.
pub const ZERO: u8 = 0x30;

/// Rendition state beyond this many bytes is not added to.
pub const SGR_CAP: usize = 256;

/// Tracks line boundaries in a byte stream and inserts timestamps at the
/// start of each new line. Preserves ANSI color state across line breaks
/// so timestamps render without colors but device output keeps them.
pub struct LineTimestamper {
    at_line_start: bool,
    ansi_state: AnsiState,
    /// Buffer for CSI parameter bytes being parsed.
    csi_buf: Vec<u8>,
    /// Accumulated SGR sequences since last reset, replayed after each timestamp.
    active_sgr: Vec<u8>,
}

/// Where a timestamper stands between two bytes.
#[verifier::ext_equal]
pub struct Tracking {
    pub at_line_start: bool,
    pub ansi: AnsiState,
    pub csi: Seq<u8>,
    pub sgr: Seq<u8>,
}

impl View for LineTimestamper {
    type V = Tracking;

    closed spec fn view(&self) -> Tracking {
        Tracking {
            at_line_start: self.at_line_start,
            ansi: self.ansi_state,
            csi: self.csi_buf@,
            sgr: self.active_sgr@,
        }
    }
}

/// A parameter that resets the rendition: empty, `0` or `00`.
pub open spec fn is_reset(param: Seq<u8>) -> bool {
    param == Seq::<u8>::empty() || param == seq![ZERO] || param == seq![ZERO, ZERO]
}

/// The parameters behind the last one that resets, if one does.
pub open spec fn after_reset(params: Seq<Seq<u8>>) -> Option<Seq<Seq<u8>>>
    decreases params.len(),
{
    if params.len() == 0 {
        None
    } else if is_reset(params.last()) {
        Some(seq![])
    } else {
        match after_reset(params.drop_last()) {
            Some(kept) => Some(kept.push(params.last())),
            None => None,
        }
    }
}

/// The control sequence that sets these parameters.
pub open spec fn sgr_sequence(params: Seq<u8>) -> Seq<u8> {
    seq![ESC, CSI_OPEN] + params + seq![SGR_FINAL]
}

/// The rendition to restore after a control sequence with these parameters:
/// a reset drops all that was set before it, and what is not a reset adds to
/// it, up to a size.
pub open spec fn sgr_after(sgr: Seq<u8>, csi: Seq<u8>) -> Seq<u8> {
    match after_reset(text::fields(csi, PARAM_SEPARATOR)) {
        Some(kept) => if kept.len() == 0 {
            seq![]
        } else {
            sgr_sequence(text::rejoined(kept, PARAM_SEPARATOR))
        },
        None => if sgr.len() > SGR_CAP {
            sgr
        } else {
            sgr + sgr_sequence(csi)
        },
    }
}

/// A byte that ends a control sequence.
pub open spec fn is_final_byte(byte: u8) -> bool {
    0x40 <= byte <= 0x7e
}

/// Whether a byte opens a line: it is the first of the line that is not a
/// line ending.
pub open spec fn opens_line(state: Tracking, byte: u8) -> bool {
    state.at_line_start && byte != CARRIAGE_RETURN && byte != NEWLINE
}

/// What a byte does to the tracking of escape sequences.
pub open spec fn track_ansi(state: Tracking, byte: u8) -> Tracking {
    match state.ansi {
        AnsiState::Normal => if byte == ESC {
            Tracking { ansi: AnsiState::Esc, ..state }
        } else {
            state
        },
        AnsiState::Esc => if byte == CSI_OPEN {
            Tracking { ansi: AnsiState::Csi, csi: seq![], ..state }
        } else {
            Tracking { ansi: AnsiState::Normal, ..state }
        },
        AnsiState::Csi => if is_final_byte(byte) {
            Tracking {
                ansi: AnsiState::Normal,
                sgr: if byte == SGR_FINAL {
                    sgr_after(state.sgr, state.csi)
                } else {
                    state.sgr
                },
                ..state
            }
        } else {
            Tracking { csi: state.csi.push(byte), ..state }
        },
    }
}

/// What a byte does to the tracking.
pub open spec fn track(state: Tracking, byte: u8) -> Tracking {
    Tracking {
        at_line_start: byte == NEWLINE || (state.at_line_start && byte == CARRIAGE_RETURN),
        ..track_ansi(state, byte)
    }
}

/// What a sequence of bytes does to the tracking.
pub open spec fn track_all(state: Tracking, input: Seq<u8>) -> Tracking
    decreases input.len(),
{
    if input.len() == 0 {
        state
    } else {
        track(track_all(state, input.drop_last()), input.last())
    }
}

/// How many lines a sequence of bytes opens.
pub open spec fn openings(state: Tracking, input: Seq<u8>) -> nat
    decreases input.len(),
{
    if input.len() == 0 {
        0
    } else {
        let before = openings(state, input.drop_last());
        if opens_line(track_all(state, input.drop_last()), input.last()) {
            before + 1
        } else {
            before
        }
    }
}

/// What is written in front of a line: a reset, the timestamp, and the
/// rendition that the line has.
pub open spec fn line_prefix(stamp: Seq<char>, sgr: Seq<u8>) -> Seq<u8> {
    sgr_sequence(seq![ZERO]) + encode_utf8(stamp) + sgr
}

/// What is written for one byte, with the timestamp at hand.
pub open spec fn shown_byte(state: Tracking, byte: u8, stamp: Seq<char>) -> Seq<u8> {
    if opens_line(state, byte) {
        line_prefix(stamp, state.sgr).push(byte)
    } else {
        seq![byte]
    }
}

/// What is written for a sequence of bytes, with a timestamp for each line
/// that it opens.
pub open spec fn shown(state: Tracking, input: Seq<u8>, stamps: Seq<Seq<char>>) -> Seq<u8>
    decreases input.len(),
{
    if input.len() == 0 {
        seq![]
    } else {
        let before = input.drop_last();
        shown(state, before, stamps) + shown_byte(
            track_all(state, before),
            input.last(),
            stamps[openings(state, before) as int],
        )
    }
}

impl LineTimestamper {
    /// A timestamper at the start of a line, with no rendition set.
    pub fn new() -> (timestamper: Self)
        ensures
            timestamper@ == (Tracking {
                at_line_start: true,
                ansi: AnsiState::Normal,
                csi: seq![],
                sgr: seq![],
            }),
    {
        LineTimestamper {
            at_line_start: true,
            ansi_state: AnsiState::Normal,
            csi_buf: Vec::new(),
            active_sgr: Vec::new(),
        }
    }

    /// Whether a byte needs a timestamp in front of it.
    pub fn needs_timestamp(&self, byte: u8) -> (needed: bool)
        ensures
            needed == opens_line(self@, byte),
    {
        self.at_line_start && byte != CARRIAGE_RETURN && byte != NEWLINE
    }

    /// Process one byte with the timestamp at hand, appending to the output.
    pub fn process_byte(&mut self, byte: u8, stamp: &str, output: &mut Vec<u8>)
        ensures
            final(self)@ == track(old(self)@, byte),
            final(output)@ == old(output)@ + shown_byte(old(self)@, byte, stamp@),
    {
        let ghost before = output@;
        if self.needs_timestamp(byte) {
            output.push(ESC);
            output.push(CSI_OPEN);
            output.push(ZERO);
            output.push(SGR_FINAL);
            assert(output@ == before + sgr_sequence(seq![ZERO]));
            output.extend_from_slice(stamp.as_bytes());
            output.extend_from_slice(self.active_sgr.as_slice());
            assert(output@ == before + line_prefix(stamp@, self@.sgr));
            self.at_line_start = false;
        }
        output.push(byte);
        assert(output@ == before + shown_byte(old(self)@, byte, stamp@));

        // Track ANSI escape sequences for SGR state
        match self.ansi_state {
            AnsiState::Normal => {
                if byte == ESC {
                    self.ansi_state = AnsiState::Esc;
                }
            },
            AnsiState::Esc => {
                if byte == CSI_OPEN {
                    self.ansi_state = AnsiState::Csi;
                    self.csi_buf.clear();
                } else {
                    self.ansi_state = AnsiState::Normal;
                }
            },
            AnsiState::Csi => {
                if 0x40 <= byte && byte <= 0x7e {
                    // Final byte: the sequence is complete
                    if byte == SGR_FINAL {
                        self.handle_sgr();
                    }
                    self.ansi_state = AnsiState::Normal;
                } else {
                    self.csi_buf.push(byte);
                }
            },
        }
        if byte == NEWLINE {
            self.at_line_start = true;
        }
    }

    /// Process a buffer of bytes, inserting timestamps at line starts.
    /// Returns the output bytes to write to the terminal.
    pub fn process(&mut self, input: &[u8]) -> (output: Vec<u8>)
        ensures
            final(self)@ == track_all(old(self)@, input@),
            exists|stamps: Seq<Seq<char>>|
                #[trigger] log_writer::stamps_for(stamps, openings(old(self)@, input@)) && output@
                    == shown(old(self)@, input@, stamps),
    {
        let mut output: Vec<u8> = Vec::new();
        let ghost mut stamps: Seq<Seq<char>> = seq![];
        let ghost first = self@;
        assert(input@.take(0) == Seq::<u8>::empty());
        for i in 0..input.len()
            invariant
                self@ == track_all(first, input@.take(i as int)),
                log_writer::stamps_for(stamps, openings(first, input@.take(i as int))),
                output@ == shown(first, input@.take(i as int), stamps),
        {
            let byte = input[i];
            let ghost done = input@.take(i as int);
            proof {
                let next = input@.take(i + 1);
                assert(next.drop_last() == done);
                assert(next.last() == byte);
            }
            if self.needs_timestamp(byte) {
                let stamp = log_writer::format_timestamp();
                self.process_byte(byte, stamp.as_str(), &mut output);
                proof {
                    let more = stamps.push(stamp@);
                    same_stamps(first, done, stamps, more);
                    stamps = more;
                }
            } else {
                self.process_byte(byte, "", &mut output);
            }
        }
        assert(input@.take(input@.len() as int) == input@);
        assert(log_writer::stamps_for(stamps, openings(first, input@)));
        output
    }

    /// Update tracked SGR state from the completed CSI sequence in `csi_buf`.
    ///
    /// Handles compound params like `\x1b[0;31m`: if any param is a reset (0),
    /// prior state is cleared and only the params after the last reset are kept.
    fn handle_sgr(&mut self)
        ensures
            final(self)@ == (Tracking {
                sgr: sgr_after(old(self)@.sgr, old(self)@.csi),
                ..old(self)@
            }),
    {
        // Split on `;` to handle compound params like `0;1;31`
        let params = text::split(self.csi_buf.as_slice(), PARAM_SEPARATOR);
        let ghost fields = text::fields(self.csi_buf@, PARAM_SEPARATOR);

        // Find the last reset param: everything before it is irrelevant
        match find_last_reset(&params) {
            Some(reset) => {
                self.active_sgr.clear();
                if reset < params.len() - 1 {
                    self.active_sgr.push(ESC);
                    self.active_sgr.push(CSI_OPEN);
                    join_from(&params, reset + 1, &mut self.active_sgr);
                    self.active_sgr.push(SGR_FINAL);
                    assert(self.active_sgr@ == sgr_sequence(
                        text::rejoined(fields.skip(reset + 1), PARAM_SEPARATOR),
                    ));
                } else {
                    assert(fields.skip(reset + 1) == Seq::<Seq<u8>>::empty());
                }
            },
            None => {
                // Stop accumulating if the state is already large: a device may
                // never emit a reset. A real reset still clears it.
                if self.active_sgr.len() > SGR_CAP {
                    return;
                }
                let ghost before = self.active_sgr@;
                self.active_sgr.push(ESC);
                self.active_sgr.push(CSI_OPEN);
                self.active_sgr.extend_from_slice(self.csi_buf.as_slice());
                self.active_sgr.push(SGR_FINAL);
                assert(self.active_sgr@ == before + sgr_sequence(self.csi_buf@));
            },
        }
    }
}

impl Default for LineTimestamper {
    fn default() -> (timestamper: Self)
        ensures
            timestamper@ == (Tracking {
                at_line_start: true,
                ansi: AnsiState::Normal,
                csi: seq![],
                sgr: seq![],
            }),
    {
        LineTimestamper::new()
    }
}

/// Whether a parameter resets the rendition.
fn resets(param: &Vec<u8>) -> (reset: bool)
    ensures
        reset == is_reset(param@),
{
    if param.len() == 0 {
        assert(param@ == Seq::<u8>::empty());
        true
    } else if param.len() == 1 {
        assert(param@ == seq![param@[0]]);
        assert(param@[0] == ZERO ==> param@ == seq![ZERO]);
        param[0] == ZERO
    } else if param.len() == 2 {
        assert(param@[0] == ZERO && param@[1] == ZERO ==> param@ == seq![ZERO, ZERO]);
        param[0] == ZERO && param[1] == ZERO
    } else {
        false
    }
}

/// Where the last parameter stands that resets the rendition.
fn find_last_reset(params: &Vec<Vec<u8>>) -> (index: Option<usize>)
    ensures
        match index {
            Some(i) => i < params@.len() && after_reset(text::byte_seqs(params@)) == Some(
                text::byte_seqs(params@).skip(i + 1),
            ),
            None => after_reset(text::byte_seqs(params@)) is None,
        },
{
    let ghost all = text::byte_seqs(params@);
    let mut i: usize = params.len();
    assert(all.take(all.len() as int) == all);
    assert(all.skip(all.len() as int) == Seq::<Seq<u8>>::empty());
    while i > 0
        invariant
            i <= params@.len(),
            all == text::byte_seqs(params@),
            after_reset(all) == (match after_reset(all.take(i as int)) {
                Some(kept) => Some(kept + all.skip(i as int)),
                None => None,
            }),
        decreases i,
    {
        i = i - 1;
        let param = &params[i];
        proof {
            assert(all.take(i + 1).last() == param@);
            assert(all.take(i + 1).drop_last() == all.take(i as int));
            assert(all.skip(i as int) == seq![param@] + all.skip(i + 1));
            if let Some(kept) = after_reset(all.take(i as int)) {
                assert(kept.push(param@) + all.skip(i + 1) == kept + all.skip(i as int));
            }
            assert(Seq::<Seq<u8>>::empty() + all.skip(i + 1) == all.skip(i + 1));
        }
        if resets(param) {
            return Some(i);
        }
    }
    None
}

/// Appends the parameters from some index on, with the separator between
/// them.
fn join_from(params: &Vec<Vec<u8>>, from: usize, out: &mut Vec<u8>)
    requires
        from < params@.len(),
    ensures
        final(out)@ == old(out)@ + text::rejoined(
            text::byte_seqs(params@).skip(from as int),
            PARAM_SEPARATOR,
        ),
{
    let ghost all = text::byte_seqs(params@).skip(from as int);
    let ghost start = out@;
    out.extend_from_slice(params[from].as_slice());
    assert(all.take(1) == seq![params@[from as int]@]);
    assert(out@ == start + text::rejoined(all.take(1), PARAM_SEPARATOR));
    for i in from + 1..params.len()
        invariant
            from < params@.len(),
            all == text::byte_seqs(params@).skip(from as int),
            out@ == start + text::rejoined(all.take(i - from), PARAM_SEPARATOR),
    {
        let ghost before = text::rejoined(all.take(i - from), PARAM_SEPARATOR);
        proof {
            let next = all.take(i - from + 1);
            assert(next.drop_last() == all.take(i - from));
            assert(next.last() == params@[i as int]@);
        }
        out.push(PARAM_SEPARATOR);
        out.extend_from_slice(params[i].as_slice());
        assert(out@ == start + (before.push(PARAM_SEPARATOR) + params@[i as int]@));
    }
    assert(all.take(all.len() as int) == all);
}

/// Timestamps behind those that the input needs make no difference.
proof fn same_stamps(
    state: Tracking,
    input: Seq<u8>,
    stamps: Seq<Seq<char>>,
    more: Seq<Seq<char>>,
)
    requires
        openings(state, input) <= stamps.len() <= more.len(),
        forall|i: int| 0 <= i < stamps.len() ==> stamps[i] == #[trigger] more[i],
    ensures
        shown(state, input, stamps) == shown(state, input, more),
    decreases input.len(),
{
    if input.len() > 0 {
        let before = input.drop_last();
        same_stamps(state, before, stamps, more);
        if opens_line(track_all(state, before), input.last()) {
            let k = openings(state, before) as int;
            assert(stamps[k] == more[k]);
        }
    }
}

/// How the device's output is cut into chunks does not matter: two chunks in
/// turn are tracked and shown as one.
pub proof fn timestamped_chunks_add_up(
    state: Tracking,
    first: Seq<u8>,
    second: Seq<u8>,
    stamps: Seq<Seq<char>>,
)
    requires
        openings(state, first + second) <= stamps.len(),
    ensures
        ({
            let mid = track_all(state, first);
            let used = openings(state, first);
            &&& track_all(state, first + second) == track_all(mid, second)
            &&& openings(state, first + second) == used + openings(mid, second)
            &&& shown(state, first + second, stamps) == shown(state, first, stamps) + shown(
                mid,
                second,
                stamps.skip(used as int),
            )
        }),
    decreases second.len(),
{
    let mid = track_all(state, first);
    let used = openings(state, first);
    let left = stamps.skip(used as int);
    if second.len() == 0 {
        assert(first + second == first);
        assert(shown(state, first, stamps) + Seq::<u8>::empty() == shown(state, first, stamps));
    } else {
        let before = second.drop_last();
        assert((first + second).drop_last() == first + before);
        assert((first + second).last() == second.last());
        timestamped_chunks_add_up(state, first, before, stamps);
        let at = track_all(mid, before);
        if opens_line(at, second.last()) {
            let k = openings(mid, before) as int;
            assert(left[k] == stamps[used + k]);
        }
        let stamp = left[openings(mid, before) as int];
        let shown_last = shown_byte(at, second.last(), stamp);
        assert((shown(state, first, stamps) + shown(mid, before, left)) + shown_last == shown(
            state,
            first,
            stamps,
        ) + (shown(mid, before, left) + shown_last));
    }
}

/// Whether each input byte stands in the output at the given place, in order.
pub open spec fn placed(input: Seq<u8>, output: Seq<u8>, places: Seq<int>) -> bool {
    &&& places.len() == input.len()
    &&& forall|i: int|
        0 <= i < places.len() ==> 0 <= #[trigger] places[i] < output.len() && output[places[i]]
            == input[i]
    &&& forall|i: int, j: int| 0 <= i < j < places.len() ==> places[i] < places[j]
}

/// Whether all of the input occurs in the output, in order.
pub open spec fn keeps(input: Seq<u8>, output: Seq<u8>) -> bool {
    exists|places: Seq<int>| placed(input, output, places)
}

/// Nothing that the device sends is lost or reordered: its bytes all occur in
/// what is shown.
pub proof fn device_output_is_kept(state: Tracking, input: Seq<u8>, stamps: Seq<Seq<char>>)
    ensures
        keeps(input, shown(state, input, stamps)),
    decreases input.len(),
{
    let output = shown(state, input, stamps);
    if input.len() == 0 {
        assert(placed(input, output, seq![]));
    } else {
        let before = input.drop_last();
        device_output_is_kept(state, before, stamps);
        let earlier = shown(state, before, stamps);
        let places = choose|places: Seq<int>| placed(before, earlier, places);
        let last = shown_byte(
            track_all(state, before),
            input.last(),
            stamps[openings(state, before) as int],
        );
        let more = places.push(output.len() - 1);
        assert(last.last() == input.last());
        assert(placed(input, output, more)) by {
            assert forall|i: int| 0 <= i < more.len() implies 0 <= #[trigger] more[i]
                < output.len() && output[more[i]] == input[i] by {
                if i < places.len() {
                    assert(more[i] == places[i]);
                    assert(earlier[places[i]] == before[i]);
                }
            }
            assert forall|i: int, j: int| 0 <= i < j < more.len() implies more[i] < more[j] by {
                if j < places.len() {
                    assert(places[i] < places[j]);
                } else {
                    assert(places[i] < earlier.len());
                }
            }
        }
    }
}

/// Line endings alone get no timestamp: they are shown as they are.
pub proof fn bare_line_endings_are_unstamped(
    state: Tracking,
    input: Seq<u8>,
    stamps: Seq<Seq<char>>,
)
    requires
        forall|i: int|
            0 <= i < input.len() ==> #[trigger] input[i] == CARRIAGE_RETURN || input[i] == NEWLINE,
    ensures
        openings(state, input) == 0,
        shown(state, input, stamps) == input,
    decreases input.len(),
{
    if input.len() > 0 {
        let before = input.drop_last();
        assert forall|i: int| 0 <= i < before.len() implies #[trigger] before[i] == CARRIAGE_RETURN
            || before[i] == NEWLINE by {
            assert(before[i] == input[i]);
        }
        bare_line_endings_are_unstamped(state, before, stamps);
        assert(input.last() == input[input.len() - 1]);
        assert(before + seq![input.last()] == input);
    }
}

/// Whether a line holds anything but carriage returns.
pub open spec fn has_content(line: Seq<u8>) -> bool {
    exists|i: int| 0 <= i < line.len() && #[trigger] line[i] != CARRIAGE_RETURN
}

/// A line gets one timestamp if it is seen from its start and holds anything,
/// and none otherwise; its newline starts the next one.
pub proof fn one_timestamp_for_each_line(state: Tracking, line: Seq<u8>)
    requires
        forall|i: int| 0 <= i < line.len() ==> #[trigger] line[i] != NEWLINE,
    ensures
        openings(state, line) == (if state.at_line_start && has_content(line) {
            1nat
        } else {
            0nat
        }),
        track_all(state, line).at_line_start == (state.at_line_start && !has_content(line)),
        track_all(state, line.push(NEWLINE)).at_line_start,
        openings(state, line.push(NEWLINE)) == openings(state, line),
    decreases line.len(),
{
    assert(line.push(NEWLINE).drop_last() == line);
    if line.len() > 0 {
        let before = line.drop_last();
        let last = line.last();
        assert forall|i: int| 0 <= i < before.len() implies #[trigger] before[i] != NEWLINE by {
            assert(before[i] == line[i]);
        }
        one_timestamp_for_each_line(state, before);
        assert(last == line[line.len() - 1]);
        assert(has_content(line) == (has_content(before) || last != CARRIAGE_RETURN)) by {
            if has_content(before) {
                let i = choose|i: int|
                    0 <= i < before.len() && #[trigger] before[i] != CARRIAGE_RETURN;
                assert(line[i] != CARRIAGE_RETURN);
            }
            if has_content(line) {
                let i = choose|i: int| 0 <= i < line.len() && #[trigger] line[i]
                    != CARRIAGE_RETURN;
                if i < before.len() {
                    assert(before[i] != CARRIAGE_RETURN);
                }
            }
        }
    }
}

/// A control sequence with a reset forgets what was set before it, and one
/// that ends with a reset leaves nothing set.
pub proof fn reset_forgets(sgr: Seq<u8>, other: Seq<u8>, csi: Seq<u8>)
    requires
        after_reset(text::fields(csi, PARAM_SEPARATOR)) is Some,
    ensures
        sgr_after(sgr, csi) == sgr_after(other, csi),
        is_reset(text::fields(csi, PARAM_SEPARATOR).last()) ==> sgr_after(sgr, csi) == Seq::<
            u8,
        >::empty(),
{
    text::fields_are_exact(csi, PARAM_SEPARATOR);
}

/// The parameters behind a reset are no longer than all of them.
proof fn kept_is_no_longer(params: Seq<Seq<u8>>)
    ensures
        after_reset(params) matches Some(kept) ==> text::rejoined(kept, PARAM_SEPARATOR).len()
            <= text::rejoined(params, PARAM_SEPARATOR).len() && kept.len() < params.len(),
    decreases params.len(),
{
    if params.len() > 0 {
        kept_is_no_longer(params.drop_last());
        if !is_reset(params.last()) {
            if let Some(kept) = after_reset(params.drop_last()) {
                let longer = kept.push(params.last());
                assert(longer.drop_last() == kept);
                assert(longer.last() == params.last());
            }
        }
    }
}

/// The rendition that is replayed stays bounded however long the device goes
/// on without a reset: beyond the cap only one more control sequence is
/// added, so with control sequences of at most `longest` parameter bytes it
/// never exceeds the cap by more than one of these.
pub proof fn rendition_stays_bounded(state: Tracking, input: Seq<u8>, longest: nat)
    requires
        state.sgr.len() <= SGR_CAP + 3 + longest,
        forall|i: int|
            0 <= i <= input.len() ==> (#[trigger] track_all(state, input.take(i))).csi.len()
                <= longest,
    ensures
        track_all(state, input).sgr.len() <= SGR_CAP + 3 + longest,
    decreases input.len(),
{
    if input.len() > 0 {
        let before = input.drop_last();
        assert forall|i: int| 0 <= i <= before.len() implies (#[trigger] track_all(
            state,
            before.take(i),
        )).csi.len() <= longest by {
            assert(before.take(i) == input.take(i));
            assert(track_all(state, input.take(i)).csi.len() <= longest);
        }
        rendition_stays_bounded(state, before, longest);
        assert(before.take(before.len() as int) == before);
        assert(before == input.take(before.len() as int));
        let at = track_all(state, before);
        let params = text::fields(at.csi, PARAM_SEPARATOR);
        text::fields_are_exact(at.csi, PARAM_SEPARATOR);
        kept_is_no_longer(params);
    }
}

/// The rendition lasts: output without an escape character leaves it as it is,
/// over any number of lines.
pub proof fn the_rendition_lasts(state: Tracking, input: Seq<u8>)
    requires
        state.ansi == AnsiState::Normal,
        forall|i: int| 0 <= i < input.len() ==> #[trigger] input[i] != 0x1b,
    ensures
        track_all(state, input).sgr == state.sgr,
        track_all(state, input).ansi == AnsiState::Normal,
    decreases input.len(),
{
    if input.len() > 0 {
        let before = input.drop_last();
        assert forall|i: int| 0 <= i < before.len() implies #[trigger] before[i] != 0x1b by {
            assert(before[i] == input[i]);
        }
        the_rendition_lasts(state, before);
        assert(input.last() == input[input.len() - 1]);
    }
}

/// Only the final `m` of a control sequence changes the rendition.
pub proof fn only_graphic_rendition_changes_it(state: Tracking, byte: u8)
    ensures
        track(state, byte).sgr != state.sgr ==> state.ansi == AnsiState::Csi && byte == 0x6d,
{
}

proof fn parameters_are_gathered(state: Tracking, params: Seq<u8>)
    requires
        state.ansi == AnsiState::Csi,
        forall|i: int|
            0 <= i < params.len() ==> #[trigger] params[i] < 0x40 || params[i] > 0x7e,
    ensures
        track_all(state, params).ansi == AnsiState::Csi,
        track_all(state, params).csi == state.csi + params,
        track_all(state, params).sgr == state.sgr,
    decreases params.len(),
{
    if params.len() == 0 {
        assert(state.csi + params == state.csi);
    } else {
        let before = params.drop_last();
        assert forall|i: int| 0 <= i < before.len() implies #[trigger] before[i] < 0x40
            || before[i] > 0x7e by {
            assert(before[i] == params[i]);
        }
        parameters_are_gathered(state, before);
        assert(params.last() == params[params.len() - 1]);
        assert((state.csi + before).push(params.last()) == state.csi + params);
    }
}

/// A whole control sequence, from the escape character to its final byte, does
/// to the rendition what its parameters say where it ends with `m`, and
/// nothing otherwise, whatever the state it is met in outside a sequence.
pub proof fn control_sequences_are_recognized(state: Tracking, params: Seq<u8>, end: u8)
    requires
        state.ansi == AnsiState::Normal,
        forall|i: int|
            0 <= i < params.len() ==> #[trigger] params[i] < 0x40 || params[i] > 0x7e,
        0x40 <= end <= 0x7e,
    ensures
        ({
            let after = track_all(state, seq![0x1bu8, 0x5bu8] + params + seq![end]);
            &&& after.ansi == AnsiState::Normal
            &&& after.sgr == (if end == 0x6d {
                sgr_after(state.sgr, params)
            } else {
                state.sgr
            })
        }),
{
    let open = seq![0x1bu8, 0x5bu8];
    let input = open + params + seq![end];
    assert(open.drop_last() == seq![0x1bu8]);
    assert(seq![0x1bu8].drop_last() == Seq::<u8>::empty());
    reveal_with_fuel(track_all, 3);
    let mid = track_all(state, open);
    assert(mid.ansi == AnsiState::Csi && mid.csi == Seq::<u8>::empty() && mid.sgr == state.sgr);
    parameters_are_gathered(mid, params);
    tracking_adds_up(state, open, params);
    assert(mid.csi + params == params);
    assert(input.drop_last() == open + params);
    assert(input.last() == end);
}

proof fn tracking_adds_up(state: Tracking, first: Seq<u8>, second: Seq<u8>)
    ensures
        track_all(state, first + second) == track_all(track_all(state, first), second),
    decreases second.len(),
{
    if second.len() == 0 {
        assert(first + second == first);
    } else {
        tracking_adds_up(state, first, second.drop_last());
        assert((first + second).drop_last() == first + second.drop_last());
        assert((first + second).last() == second.last());
    }
}

/// An escape character that no bracket follows starts no control sequence.
pub proof fn other_escapes_are_ignored(state: Tracking, byte: u8)
    requires
        state.ansi == AnsiState::Normal,
        byte != 0x5b,
    ensures
        track_all(state, seq![0x1bu8, byte]).ansi == AnsiState::Normal,
        track_all(state, seq![0x1bu8, byte]).sgr == state.sgr,
{
    let input = seq![0x1bu8, byte];
    assert(input.drop_last() == seq![0x1bu8]);
    assert(seq![0x1bu8].drop_last() == Seq::<u8>::empty());
    reveal_with_fuel(track_all, 3);
}

/// Whether parameters can stand in a control sequence that resets nothing:
/// none holds the separator, and none is empty, `0` or `00`.
pub open spec fn set_only(params: Seq<Seq<u8>>) -> bool {
    &&& forall|i: int, j: int|
        0 <= i < params.len() && 0 <= j < params[i].len() ==> #[trigger] params[i][j] != 0x3b
    &&& forall|i: int|
        0 <= i < params.len() ==> (#[trigger] params[i]).len() > 0 && params[i] != seq![0x30u8]
            && params[i] != seq![0x30u8, 0x30u8]
}

proof fn nothing_resets(params: Seq<Seq<u8>>)
    requires
        set_only(params),
    ensures
        after_reset(params) is None,
    decreases params.len(),
{
    if params.len() > 0 {
        let fewer = params.drop_last();
        assert(set_only(fewer)) by {
            assert forall|i: int, j: int|
                0 <= i < fewer.len() && 0 <= j < fewer[i].len() implies #[trigger] fewer[i][j]
                != 0x3b by {
                assert(params[i][j] != 0x3b);
            }
            assert forall|i: int| 0 <= i < fewer.len() implies (#[trigger] fewer[i]).len() > 0
                && fewer[i] != seq![0x30u8] && fewer[i] != seq![0x30u8, 0x30u8] by {
                assert(fewer[i] == params[i]);
            }
        }
        nothing_resets(fewer);
        let last = params[params.len() - 1];
        assert(last.len() > 0);
        assert(!is_reset(last));
    }
}

proof fn what_follows_is_kept(before: Seq<Seq<u8>>, reset: Seq<u8>, after: Seq<Seq<u8>>)
    requires
        is_reset(reset),
        set_only(after),
    ensures
        after_reset(before.push(reset) + after) == Some(after),
    decreases after.len(),
{
    let all = before.push(reset) + after;
    if after.len() == 0 {
        assert(all == before.push(reset));
        assert(after == Seq::<Seq<u8>>::empty());
    } else {
        let fewer = after.drop_last();
        assert(set_only(fewer)) by {
            assert forall|i: int, j: int|
                0 <= i < fewer.len() && 0 <= j < fewer[i].len() implies #[trigger] fewer[i][j]
                != 0x3b by {
                assert(after[i][j] != 0x3b);
            }
            assert forall|i: int| 0 <= i < fewer.len() implies (#[trigger] fewer[i]).len() > 0
                && fewer[i] != seq![0x30u8] && fewer[i] != seq![0x30u8, 0x30u8] by {
                assert(fewer[i] == after[i]);
            }
        }
        what_follows_is_kept(before, reset, fewer);
        assert(all.drop_last() == before.push(reset) + fewer);
        let last = after[after.len() - 1];
        assert(last.len() > 0);
        assert(!is_reset(last));
        assert(all.last() == last);
        assert(fewer.push(last) == after);
    }
}

/// A control sequence that resets nothing is added to the rendition as it
/// is, until that has outgrown the cap; then it stays as it is.
pub proof fn settings_add_to_the_rendition(sgr: Seq<u8>, params: Seq<Seq<u8>>)
    requires
        params.len() > 0,
        set_only(params),
    ensures
        ({
            let csi = text::rejoined(params, 0x3b);
            sgr_after(sgr, csi) == (if sgr.len() > 256 {
                sgr
            } else {
                sgr + (seq![0x1bu8, 0x5bu8] + csi + seq![0x6du8])
            })
        }),
{
    text::splitting_undoes_joining(params, 0x3b);
    nothing_resets(params);
}

/// A reset drops the rendition that was set, with the parameters in front of
/// it, and what follows the last reset is all that is set.
pub proof fn resets_drop_what_was_set(
    sgr: Seq<u8>,
    before: Seq<Seq<u8>>,
    reset: Seq<u8>,
    after: Seq<Seq<u8>>,
)
    requires
        forall|i: int, j: int|
            0 <= i < before.len() && 0 <= j < before[i].len() ==> #[trigger] before[i][j] != 0x3b,
        reset == Seq::<u8>::empty() || reset == seq![0x30u8] || reset == seq![0x30u8, 0x30u8],
        set_only(after),
    ensures
        sgr_after(sgr, text::rejoined(before.push(reset) + after, 0x3b)) == (if after.len() == 0 {
            Seq::<u8>::empty()
        } else {
            seq![0x1bu8, 0x5bu8] + text::rejoined(after, 0x3b) + seq![0x6du8]
        }),
{
    let all = before.push(reset) + after;
    assert forall|i: int, j: int|
        0 <= i < all.len() && 0 <= j < all[i].len() implies #[trigger] all[i][j] != 0x3b by {
        if i < before.len() {
            assert(all[i] == before[i]);
            assert(before[i][j] != 0x3b);
        } else if i > before.len() {
            assert(all[i] == after[i - before.len() - 1]);
            assert(after[i - before.len() - 1][j] != 0x3b);
        }
    }
    text::splitting_undoes_joining(all, 0x3b);
    what_follows_is_kept(before, reset, after);
}

/// In the middle of a line, what the device sends is shown as it is.
pub proof fn the_rest_of_a_line_is_shown_as_it_is(
    state: Tracking,
    rest: Seq<u8>,
    stamps: Seq<Seq<char>>,
)
    requires
        !state.at_line_start,
        forall|i: int| 0 <= i < rest.len() ==> #[trigger] rest[i] != 10,
    ensures
        shown(state, rest, stamps) == rest,
        openings(state, rest) == 0,
        !track_all(state, rest).at_line_start,
    decreases rest.len(),
{
    if rest.len() > 0 {
        let before = rest.drop_last();
        assert forall|i: int| 0 <= i < before.len() implies #[trigger] before[i] != 10 by {
            assert(before[i] == rest[i]);
        }
        the_rest_of_a_line_is_shown_as_it_is(state, before, stamps);
        assert(rest.last() == rest[rest.len() - 1]);
        assert(before + seq![rest.last()] == rest);
    } else {
        assert(rest == Seq::<u8>::empty());
    }
}

/// What is shown of a line: a reset, the timestamp, the rendition that is in
/// force when the line starts, and the line as the device sent it.
pub proof fn a_line_is_shown_behind_its_timestamp(
    state: Tracking,
    line: Seq<u8>,
    stamps: Seq<Seq<char>>,
)
    requires
        state.at_line_start,
        line.len() > 0,
        line[0] != 13,
        forall|i: int| 0 <= i < line.len() ==> #[trigger] line[i] != 10,
        stamps.len() > 0,
    ensures
        shown(state, line.push(10), stamps) == seq![0x1bu8, 0x5bu8, 0x30u8, 0x6du8] + encode_utf8(
            stamps[0],
        ) + state.sgr + line.push(10),
        openings(state, line.push(10)) == 1,
        track_all(state, line.push(10)).at_line_start,
{
    let head = seq![line[0]];
    let rest = line.skip(1);
    assert(head + rest == line);
    assert(head.drop_last() == Seq::<u8>::empty());
    reveal_with_fuel(shown, 2);
    reveal_with_fuel(track_all, 2);
    reveal_with_fuel(openings, 2);
    let mid = track_all(state, head);
    assert(line[0] != 10);
    assert(!mid.at_line_start);
    assert(openings(state, head) == 1);
    assert forall|i: int| 0 <= i < rest.len() implies #[trigger] rest[i] != 10 by {
        assert(rest[i] == line[i + 1]);
    }
    let left = stamps.skip(1);
    the_rest_of_a_line_is_shown_as_it_is(mid, rest, left);
    assert(rest.push(10).drop_last() == rest);
    assert(shown(mid, rest.push(10), left) == rest + seq![10u8]);
    assert(openings(mid, rest.push(10)) == 0);
    let whole = line.push(10);
    assert(whole == head + rest.push(10));
    openings_add_up(state, head, rest.push(10));
    timestamped_chunks_add_up(state, head, rest.push(10), stamps);
    let prefix = line_prefix(stamps[0], state.sgr);
    assert(prefix == seq![0x1bu8, 0x5bu8, 0x30u8, 0x6du8] + encode_utf8(stamps[0]) + state.sgr);
    assert(Seq::<u8>::empty() + prefix.push(line[0]) == prefix.push(line[0]));
    assert(prefix.push(line[0]) + (rest + seq![10u8]) == prefix + whole);
    assert(whole.drop_last() == line);
    assert(track_all(state, whole).at_line_start);
}

proof fn openings_add_up(state: Tracking, first: Seq<u8>, second: Seq<u8>)
    ensures
        openings(state, first + second) == openings(state, first) + openings(
            track_all(state, first),
            second,
        ),
    decreases second.len(),
{
    if second.len() == 0 {
        assert(first + second == first);
    } else {
        openings_add_up(state, first, second.drop_last());
        tracking_adds_up(state, first, second.drop_last());
        assert((first + second).drop_last() == first + second.drop_last());
        assert((first + second).last() == second.last());
    }
}

/// Every line is shown behind its own timestamp with the rendition in force,
/// for as many lines as come before the device changes it.
pub proof fn every_line_keeps_the_rendition(
    state: Tracking,
    lines: Seq<Seq<u8>>,
    stamps: Seq<Seq<char>>,
)
    requires
        state.at_line_start,
        state.ansi == AnsiState::Normal,
        stamps.len() >= lines.len(),
        forall|i: int| 0 <= i < lines.len() ==> (#[trigger] lines[i]).len() > 0 && lines[i][0] != 13,
        forall|i: int, j: int|
            0 <= i < lines.len() && 0 <= j < lines[i].len() ==> #[trigger] lines[i][j] != 10
                && lines[i][j] != 0x1b,
    ensures
        ({
            let input = lines.map_values(|l: Seq<u8>| l.push(10)).flatten();
            &&& shown(state, input, stamps) == Seq::new(
                lines.len(),
                |i: int|
                    seq![0x1bu8, 0x5bu8, 0x30u8, 0x6du8] + encode_utf8(stamps[i]) + state.sgr
                        + lines[i].push(10),
            ).flatten()
            &&& openings(state, input) == lines.len()
            &&& track_all(state, input).at_line_start
            &&& track_all(state, input).ansi == AnsiState::Normal
            &&& track_all(state, input).sgr == state.sgr
        }),
    decreases lines.len(),
{
    let ended = |l: Seq<u8>| l.push(10);
    let line_shown = |i: int|
        seq![0x1bu8, 0x5bu8, 0x30u8, 0x6du8] + encode_utf8(stamps[i]) + state.sgr + lines[i].push(
            10,
        );
    let input = lines.map_values(ended).flatten();
    let all = Seq::new(lines.len(), line_shown);
    if lines.len() == 0 {
        assert(lines.map_values(ended) == Seq::<Seq<u8>>::empty());
        assert(all == Seq::<Seq<u8>>::empty());
    } else {
        let fewer = lines.drop_last();
        let k = lines.len() - 1;
        let line = lines[k];
        assert forall|i: int| 0 <= i < fewer.len() implies (#[trigger] fewer[i]).len() > 0
            && fewer[i][0] != 13 by {
            assert(fewer[i] == lines[i]);
        }
        assert forall|i: int, j: int|
            0 <= i < fewer.len() && 0 <= j < fewer[i].len() implies #[trigger] fewer[i][j] != 10
            && fewer[i][j] != 0x1b by {
            assert(lines[i][j] != 10 && lines[i][j] != 0x1b);
        }
        every_line_keeps_the_rendition(state, fewer, stamps);
        let before = fewer.map_values(ended);
        let first = before.flatten();
        assert(lines.map_values(ended) == before.push(line.push(10)));
        before.lemma_flatten_push(line.push(10));
        assert(input == first + line.push(10));
        let mid = track_all(state, first);
        assert(lines[k].len() > 0 && lines[k][0] != 13);
        assert forall|i: int| 0 <= i < line.len() implies #[trigger] line[i] != 10 by {
            assert(lines[k][i] != 10);
        }
        let left = stamps.skip(k);
        a_line_is_shown_behind_its_timestamp(mid, line, left);
        assert(left[0] == stamps[k]);
        openings_add_up(state, first, line.push(10));
        timestamped_chunks_add_up(state, first, line.push(10), stamps);
        let earlier = Seq::new(
            fewer.len(),
            |i: int|
                seq![0x1bu8, 0x5bu8, 0x30u8, 0x6du8] + encode_utf8(stamps[i]) + state.sgr
                    + fewer[i].push(10),
        );
        assert(earlier == all.drop_last());
        assert(earlier.push(all[k]) == all);
        earlier.lemma_flatten_push(all[k]);
        let sent = line.push(10);
        assert forall|i: int| 0 <= i < sent.len() implies #[trigger] sent[i] != 0x1b by {
            if i < line.len() {
                assert(lines[k][i] != 0x1b);
            }
        }
        the_rendition_lasts(mid, sent);
    }
}

/// Lines without escapes come out each behind a timestamp and the rendition that
/// was in force, however many there are, and it stays in force.
pub proof fn processed_lines_keep_the_rendition(
    lines: Seq<Seq<u8>>,
    input: &[u8],
    output: Vec<u8>,
)
    requires
        forall|i: int| 0 <= i < lines.len() ==> (#[trigger] lines[i]).len() > 0 && lines[i][0] != 13,
        forall|i: int, j: int|
            0 <= i < lines.len() && 0 <= j < lines[i].len() ==> #[trigger] lines[i][j] != 10
                && lines[i][j] != 0x1b,
        input@ == lines.map_values(|l: Seq<u8>| l.push(10)).flatten(),
    ensures
        forall|t: &mut LineTimestamper| #[trigger]
            call_ensures(LineTimestamper::process, (t, input), output) && t@.at_line_start
                && t@.ansi == AnsiState::Normal ==> final(t)@.sgr == t@.sgr
                && final(t)@.at_line_start && exists|stamps: Seq<Seq<char>>|
                #![trigger stamps.len()]
                stamps.len() == lines.len() && output@ == Seq::new(
                    lines.len(),
                    |i: int|
                        seq![0x1bu8, 0x5bu8, 0x30u8, 0x6du8] + encode_utf8(stamps[i]) + t@.sgr
                            + lines[i].push(10),
                ).flatten(),
{
    assert forall|t: &mut LineTimestamper| #[trigger]
        call_ensures(LineTimestamper::process, (t, input), output) && t@.at_line_start && t@.ansi
            == AnsiState::Normal implies final(t)@.sgr == t@.sgr && final(t)@.at_line_start
        && exists|stamps: Seq<Seq<char>>|
        #![trigger stamps.len()]
        stamps.len() == lines.len() && output@ == Seq::new(
            lines.len(),
            |i: int|
                seq![0x1bu8, 0x5bu8, 0x30u8, 0x6du8] + encode_utf8(stamps[i]) + t@.sgr
                    + lines[i].push(10),
        ).flatten() by {
        let stamps = choose|stamps: Seq<Seq<char>>|
            #[trigger] log_writer::stamps_for(stamps, openings(t@, input@)) && output@ == shown(
                t@,
                input@,
                stamps,
            );
        every_line_keeps_the_rendition(
            t@,
            lines,
            Seq::new(lines.len(), |i: int| Seq::<char>::empty()),
        );
        every_line_keeps_the_rendition(t@, lines, stamps);
        assert(stamps.len() == lines.len());
    }
}

/// Whatever the device sends comes out in order and whole.
pub proof fn processed_output_is_kept(input: &[u8], output: Vec<u8>)
    ensures
        forall|t: &mut LineTimestamper| #[trigger]
            call_ensures(LineTimestamper::process, (t, input), output) ==> keeps(input@, output@),
{
    assert forall|t: &mut LineTimestamper| #[trigger]
        call_ensures(LineTimestamper::process, (t, input), output) implies keeps(
        input@,
        output@,
    ) by {
        let stamps = choose|stamps: Seq<Seq<char>>|
            #[trigger] log_writer::stamps_for(stamps, openings(t@, input@)) && output@ == shown(
                t@,
                input@,
                stamps,
            );
        device_output_is_kept(t@, input@, stamps);
    }
}

} // verus!

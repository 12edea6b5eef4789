//! Reading a log file from its end.

use crate::pattern;
use crate::pattern::Pattern;
use crate::text;
use vstd::prelude::*;

verus! {

/// How many bytes are read at a time.
pub const CHUNK_SIZE: u64 = 8192;

/// The byte that ends a line.
pub const NEWLINE: u8 = 10;

/// The pieces between the newlines of some bytes, the last one after the
/// last newline: there is always one more than there are newlines.
pub open spec fn pieces(bytes: Seq<u8>) -> Seq<Seq<u8>> {
    text::fields(bytes, NEWLINE)
}

/// The texts of those pieces that are not empty.
pub open spec fn line_texts(pieces: Seq<Seq<u8>>) -> Seq<Seq<char>>
    decreases pieces.len(),
{
    if pieces.len() == 0 {
        seq![]
    } else {
        let before = line_texts(pieces.drop_last());
        if pieces.last().len() == 0 {
            before
        } else {
            before.push(text::lossy(pieces.last()))
        }
    }
}

/// The lines of a file: the texts between its newlines, without the empty
/// ones.
pub open spec fn lines_of(content: Seq<u8>) -> Seq<Seq<char>> {
    line_texts(pieces(content))
}

/// What a reader looks for in a log.
pub enum Goal<'a> {
    /// This many lines from the end.
    LastLines(usize),
    /// The lines from the last match of a pattern on.
    Since(&'a Pattern),
}

/// What a [`Goal`] asks for.
pub enum Wanted {
    LastLines(nat),
    Since(Seq<char>),
}

impl<'a> View for Goal<'a> {
    type V = Wanted;

    open spec fn view(&self) -> Wanted {
        match *self {
            Goal::LastLines(n) => Wanted::LastLines(n as nat),
            Goal::Since(p) => Wanted::Since(p@),
        }
    }
}

/// Where the last line stands whose content matches the pattern, its
/// timestamp left out.
pub open spec fn last_match(pattern: Seq<char>, lines: Seq<Seq<char>>) -> Option<int>
    decreases lines.len(),
{
    if lines.len() == 0 {
        None
    } else if pattern::pattern_matches(pattern, stripped(lines.last())) {
        Some(lines.len() - 1)
    } else {
        last_match(pattern, lines.drop_last())
    }
}

/// Whether lines up to the end of a log are enough.
pub open spec fn enough(wanted: Wanted, lines: Seq<Seq<char>>) -> bool {
    match wanted {
        Wanted::LastLines(n) => lines.len() >= n,
        Wanted::Since(p) => last_match(p, lines) is Some,
    }
}

/// The lines that are wanted out of all the lines up to the end of a log.
pub open spec fn selection(wanted: Wanted, lines: Seq<Seq<char>>) -> Seq<Seq<char>> {
    match wanted {
        Wanted::LastLines(n) => if lines.len() <= n {
            lines
        } else {
            lines.skip(lines.len() - n)
        },
        Wanted::Since(p) => match last_match(p, lines) {
            Some(i) => lines.skip(i),
            None => seq![],
        },
    }
}

/// How far a reader has come: the offset down to which it has read, the
/// bytes of the line that it has not seen the start of, the complete lines
/// behind it, and whether it is finished.
pub struct Progress {
    pub pos: int,
    pub remaining: Seq<u8>,
    pub lines: Seq<Seq<char>>,
    pub done: bool,
}

/// A reader at the end of a file of this length. Nothing is to be read from
/// an empty file, nor for no lines.
pub open spec fn start(wanted: Wanted, length: int) -> Progress {
    Progress {
        pos: length,
        remaining: seq![],
        lines: seq![],
        done: length == 0 || wanted == Wanted::LastLines(0),
    }
}

/// How many bytes the next read takes.
pub open spec fn chunk_length(pos: int) -> int {
    if pos < CHUNK_SIZE {
        pos
    } else {
        CHUNK_SIZE as int
    }
}

/// What a reader makes of the next chunk, the one in front of what it has. The
/// line that the chunk may start in the middle of is kept as it is.
pub open spec fn advance(wanted: Wanted, progress: Progress, chunk: Seq<u8>) -> Progress {
    let pos = progress.pos - chunk.len();
    let found = pieces(chunk + progress.remaining);
    if pos == 0 {
        Progress {
            pos,
            remaining: seq![],
            lines: line_texts(found) + progress.lines,
            done: true,
        }
    } else {
        let lines = line_texts(found.skip(1)) + progress.lines;
        Progress {
            pos,
            remaining: found[0],
            lines,
            done: enough(wanted, lines),
        }
    }
}

/// The line that some offset of a file stands in, from there to its end.
pub open spec fn cut_line(content: Seq<u8>, pos: int) -> Seq<u8> {
    pieces(content.skip(pos))[0]
}

/// The lines that start behind some offset of a file.
pub open spec fn lines_behind(content: Seq<u8>, pos: int) -> Seq<Seq<char>> {
    line_texts(pieces(content.skip(pos)).skip(1))
}

/// Whether a reader has what the file holds behind its position, and is
/// finished when that is enough or all of it.
pub open spec fn is_exact(wanted: Wanted, progress: Progress, content: Seq<u8>) -> bool {
    if progress.pos == 0 {
        &&& progress.done
        &&& progress.lines == lines_of(content)
    } else {
        &&& 0 < progress.pos <= content.len()
        &&& progress.remaining == cut_line(content, progress.pos)
        &&& progress.lines == lines_behind(content, progress.pos)
        &&& progress.done == enough(wanted, progress.lines)
    }
}

/// Where the first `] ` of a text stands.
pub open spec fn first_close(line: Seq<char>) -> Option<int>
    decreases line.len(),
{
    if line.len() < 2 {
        None
    } else if line[0] == ']' && line[1] == ' ' {
        Some(0)
    } else {
        match first_close(line.drop_first()) {
            Some(i) => Some(i + 1),
            None => None,
        }
    }
}

/// A line without its timestamp: what follows the first `] `, if the line
/// opens with a bracket and has one.
pub open spec fn stripped(line: Seq<char>) -> Seq<char> {
    if line.len() > 0 && line[0] == '[' {
        match first_close(line) {
            Some(end) => line.skip(end + 2),
            None => line,
        }
    } else {
        line
    }
}

/// Strip a timestamp prefix from a line (format: `[YYYY-MM-DD HH:MM:SS.mmm] ...`).
pub fn strip_timestamp(line: &str) -> (rest: &str)
    ensures
        rest@ == stripped(line@),
{
    let chars = text::characters(line);
    if chars.len() > 0 && chars[0] == '[' {
        let mut i: usize = 0;
        assert(line@.skip(0) == line@);
        while i + 1 < chars.len()
            invariant
                chars@ == line@,
                line@.len() > 0,
                line@[0] == '[',
                i < chars.len(),
                stripped(line@) == (match first_close(line@.skip(i as int)) {
                    Some(end) => line@.skip(i + end + 2),
                    None => line@,
                }),
            decreases chars.len() - i,
        {
            if chars[i] == ']' && chars[i + 1] == ' ' {
                assert(first_close(line@.skip(i as int)) == Some(0int));
                return line.substring_char(i + 2, chars.len());
            }
            assert(line@.skip(i as int).drop_first() == line@.skip(i + 1));
            i = i + 1;
        }
    }
    line
}

/// The texts of the pieces from some index on that are not empty, in front of
/// the lines that are already there.
fn prepend_lines(found: &Vec<Vec<u8>>, from: usize, lines: &mut Vec<String>)
    requires
        from <= found@.len(),
    ensures
        text::texts(final(lines)@) == line_texts(
            text::byte_seqs(found@).skip(from as int),
        ) + text::texts(old(lines)@),
{
    let ghost all = text::byte_seqs(found@).skip(from as int);
    let mut collected: Vec<String> = Vec::new();
    assert(all.take(0) == Seq::<Seq<u8>>::empty());
    assert(text::texts(collected@) == Seq::<Seq<char>>::empty());
    for i in from..found.len()
        invariant
            from <= found@.len(),
            all == text::byte_seqs(found@).skip(from as int),
            text::texts(collected@) == line_texts(all.take(i - from)),
            *lines == *old(lines),
    {
        let piece = &found[i];
        proof {
            let next = all.take(i - from + 1);
            assert(next.drop_last() == all.take(i - from));
            assert(next.last() == piece@);
        }
        if piece.len() > 0 {
            let ghost before = collected@;
            let line = text::decode_lossy(piece.as_slice());
            collected.push(line);
            assert(text::texts(collected@) == text::texts(before).push(line@));
        }
    }
    assert(all.take(all.len() as int) == all);
    let ghost before = collected@;
    let ghost behind = lines@;
    collected.append(lines);
    assert(text::texts(before + behind) == text::texts(before) + text::texts(behind));
    *lines = collected;
}

/// Where the last line stands whose content matches.
fn find_last_match(pattern: &Pattern, lines: &Vec<String>) -> (index: Option<usize>)
    ensures
        match index {
            Some(i) => last_match(pattern@, text::texts(lines@)) == Some(i as int)
                && i < lines@.len(),
            None => last_match(pattern@, text::texts(lines@)) is None,
        },
{
    let mut i: usize = lines.len();
    let ghost all = text::texts(lines@);
    assert(all.take(all.len() as int) == all);
    while i > 0
        invariant
            i <= lines@.len(),
            all == text::texts(lines@),
            last_match(pattern@, all.take(i as int)) == last_match(pattern@, all),
        decreases i,
    {
        i = i - 1;
        let line = lines[i].as_str();
        assert(all.take(i + 1).last() == line@);
        assert(all.take(i + 1).drop_last() == all.take(i as int));
        if pattern.is_match(strip_timestamp(line)) {
            return Some(i);
        }
    }
    None
}

impl<'a> Goal<'a> {
    /// Whether nothing at all is asked for, so that there is nothing to read.
    pub fn is_nothing(&self) -> (nothing: bool)
        ensures
            nothing == (self@ == Wanted::LastLines(0)),
    {
        match self {
            Goal::LastLines(n) => *n == 0,
            Goal::Since(_) => false,
        }
    }

    /// Whether these lines, up to the end of a log, are enough.
    fn is_met(&self, lines: &Vec<String>) -> (met: bool)
        ensures
            met == enough(self@, text::texts(lines@)),
    {
        match self {
            Goal::LastLines(n) => lines.len() >= *n,
            Goal::Since(pattern) => find_last_match(pattern, lines).is_some(),
        }
    }

    /// The lines that are wanted out of all the lines up to the end of a log.
    pub fn select(&self, lines: Vec<String>) -> (selected: Vec<String>)
        ensures
            text::texts(selected@) == selection(self@, text::texts(lines@)),
    {
        let mut lines = lines;
        let ghost all = lines@;
        match self {
            Goal::LastLines(n) => {
                if lines.len() <= *n {
                    lines
                } else {
                    let from: usize = lines.len() - *n;
                    let selected = lines.split_off(from);
                    assert(text::texts(selected@) == text::texts(all).skip(from as int));
                    selected
                }
            },
            Goal::Since(pattern) => match find_last_match(pattern, &lines) {
                Some(from) => {
                    let selected = lines.split_off(from);
                    assert(text::texts(selected@) == text::texts(all).skip(from as int));
                    selected
                },
                None => {
                    let selected: Vec<String> = Vec::new();
                    assert(text::texts(selected@) == Seq::<Seq<char>>::empty());
                    selected
                },
            },
        }
    }
}

/// Reads a file from its end in chunks, until it has what is asked for.
///
/// The caller performs the reads: it asks [`next_read`](Self::next_read) for
/// the place and size of the next chunk, and hands what is there to
/// [`absorb`](Self::absorb), until no read is asked for.
pub struct TailReader {
    pos: u64,
    remaining: Vec<u8>,
    lines: Vec<String>,
    done: bool,
}

impl View for TailReader {
    type V = Progress;

    closed spec fn view(&self) -> Progress {
        Progress {
            pos: self.pos as int,
            remaining: self.remaining@,
            lines: text::texts(self.lines@),
            done: self.done,
        }
    }
}

impl TailReader {
    /// A reader at the end of a file of this length.
    pub fn new(goal: &Goal, file_len: u64) -> (reader: Self)
        ensures
            reader@ == start(goal@, file_len as int),
    {
        let lines: Vec<String> = Vec::new();
        assert(text::texts(lines@) == Seq::<Seq<char>>::empty());
        TailReader {
            pos: file_len,
            remaining: Vec::new(),
            lines,
            done: file_len == 0 || goal.is_nothing(),
        }
    }

    /// The offset and the size of the next chunk to read, or nothing where
    /// no more is needed.
    pub fn next_read(&self) -> (read: Option<(u64, usize)>)
        ensures
            read == (if self@.done {
                None
            } else {
                let size = chunk_length(self@.pos);
                Some(((self@.pos - size) as u64, size as usize))
            }),
            read matches Some((offset, size)) ==> offset + size == self@.pos && size
                <= CHUNK_SIZE,
    {
        if self.done {
            None
        } else {
            let size: u64 = if self.pos < CHUNK_SIZE {
                self.pos
            } else {
                CHUNK_SIZE
            };
            Some((self.pos - size, size as usize))
        }
    }

    /// Takes the chunk that was asked for.
    pub fn absorb(&mut self, goal: &Goal, chunk: &[u8])
        requires
            !old(self)@.done,
            chunk@.len() == chunk_length(old(self)@.pos),
        ensures
            final(self)@ == advance(goal@, old(self)@, chunk@),
    {
        let mut data: Vec<u8> = Vec::new();
        data.extend_from_slice(chunk);
        data.append(&mut self.remaining);
        assert(data@ == chunk@ + old(self)@.remaining);
        self.pos = self.pos - chunk.len() as u64;
        let found = text::split(data.as_slice(), NEWLINE);
        let ghost parts = pieces(data@);
        assert(parts.skip(0) == parts);
        if self.pos == 0 {
            prepend_lines(&found, 0, &mut self.lines);
            self.done = true;
        } else {
            proof {
                text::fields_are_exact(data@, NEWLINE);
            }
            prepend_lines(&found, 1, &mut self.lines);
            assert(found@[0]@ == parts[0]);
            // The first piece may be incomplete: keep its bytes for the next chunk
            self.remaining.extend_from_slice(found[0].as_slice());
            assert(self.remaining@ == parts[0]);
            self.done = goal.is_met(&self.lines);
        }
    }

    /// The lines that were asked for, once no more is to be read.
    pub fn finish(self, goal: &Goal) -> (selected: Vec<String>)
        ensures
            text::texts(selected@) == selection(goal@, self@.lines),
    {
        goal.select(self.lines)
    }
}

/// Reads what is wanted from a file that is at hand.
fn read_tail(content: &[u8], goal: &Goal) -> (selected: Vec<String>)
    ensures
        text::texts(selected@) == selection(goal@, lines_of(content@)),
{
    let mut reader = TailReader::new(goal, content.len() as u64);
    proof {
        reading_starts_exact(goal@, content@);
    }
    loop
        invariant
            is_exact(goal@, reader@, content@),
            content@.len() <= usize::MAX,
        ensures
            is_exact(goal@, reader@, content@),
            reader@.done,
        decreases reader@.pos,
    {
        match reader.next_read() {
            Some((offset, size)) => {
                let from: usize = offset as usize;
                let chunk = vstd::slice::slice_subrange(content, from, from + size);
                proof {
                    reading_stays_exact(goal@, reader@, content@);
                }
                reader.absorb(goal, chunk);
            },
            None => break,
        }
    }
    proof {
        finished_reading_is_exact(goal@, reader@, content@);
    }
    reader.finish(goal)
}

/// Read the last `n` lines of a log, reading from the end in chunks.
///
/// This avoids looking at all of a large log. Lines are returned in
/// chronological order (oldest first).
pub fn read_last_lines(content: &[u8], n: usize) -> (lines: Vec<String>)
    ensures
        text::texts(lines@) == selection(Wanted::LastLines(n as nat), lines_of(content@)),
{
    read_tail(content, &Goal::LastLines(n))
}

/// Read all lines from the last occurrence of `pattern` to the end of a log.
///
/// The pattern is matched against line content with timestamps stripped.
/// Uses the same backward-chunk-reading approach as `read_last_lines`.
/// Returns an empty vector if no line matches the pattern.
pub fn read_lines_since_pattern(content: &[u8], pattern: &Pattern) -> (lines: Vec<String>)
    ensures
        text::texts(lines@) == selection(Wanted::Since(pattern@), lines_of(content@)),
{
    read_tail(content, &Goal::Since(pattern))
}

/// No byte is a newline.
pub open spec fn newline_free(bytes: Seq<u8>) -> bool {
    text::free_of(bytes, NEWLINE)
}

/// A file is empty or ends with a newline, so that what is appended starts a
/// line.
pub open spec fn at_line_start(content: Seq<u8>) -> bool {
    content.len() > 0 ==> content.last() == NEWLINE
}

/// A line that is appended to a file is the last of its lines.
pub proof fn appended_line_is_last(content: Seq<u8>, line: Seq<u8>)
    requires
        at_line_start(content),
        newline_free(line),
        line.len() > 0,
    ensures
        lines_of(content + line + seq![NEWLINE]) == lines_of(content).push(text::lossy(line)),
        at_line_start(content + line + seq![NEWLINE]),
{
    let none = Seq::<u8>::empty();
    let entry = line + seq![NEWLINE];
    assert(content + line + seq![NEWLINE] == content + entry);
    single_piece(line);
    assert(entry.drop_last() == line);
    assert(pieces(entry) == seq![line].push(none));
    pieces_meet(content, entry);
    assert(pieces(content).last() == none);
    assert(none + line == line);
    let front = pieces(content).drop_last();
    assert(pieces(entry).skip(1) == seq![none]);
    assert(pieces(content + entry) == front.push(line).push(none));
    assert(front.push(line).push(none).drop_last() == front.push(line));
    assert(front.push(line).drop_last() == front);
    assert(line_texts(pieces(content)) == line_texts(front));
    assert(line_texts(front.push(line)) == line_texts(front).push(text::lossy(line)));
    assert(line_texts(front.push(line).push(none)) == line_texts(front.push(line)));
    assert((content + entry).last() == NEWLINE);
}

/// A bracketed prefix is stripped up to its closing bracket.
pub proof fn close_is_first(line: Seq<char>, end: int)
    requires
        0 <= end,
        end + 1 < line.len(),
        forall|i: int| 0 <= i < end ==> #[trigger] line[i] != ']',
        line[end] == ']',
        line[end + 1] == ' ',
    ensures
        first_close(line) == Some(end),
    decreases end,
{
    if end > 0 {
        let rest = line.drop_first();
        assert(line[0] != ']');
        assert forall|i: int| 0 <= i < end - 1 implies #[trigger] rest[i] != ']' by {
            assert(rest[i] == line[i + 1]);
        }
        close_is_first(rest, end - 1);
    }
}

/// Where two byte sequences meet, the last piece of the first and the first
/// piece of the second are one.
proof fn pieces_meet(a: Seq<u8>, b: Seq<u8>)
    ensures
        pieces(a).len() > 0,
        pieces(b).len() > 0,
        pieces(a + b) == pieces(a).drop_last().push(pieces(a).last() + pieces(b)[0]) + pieces(
            b,
        ).skip(1),
    decreases b.len(),
{
    text::fields_are_exact(a, NEWLINE);
    text::fields_are_exact(b, NEWLINE);
    let pa = pieces(a);
    if b.len() == 0 {
        assert(a + b == a);
        assert(pa.last() + Seq::<u8>::empty() == pa.last());
        assert(pa.drop_last().push(pa.last()) == pa);
        assert(pieces(b).skip(1) == Seq::<Seq<u8>>::empty());
        assert(pa + Seq::<Seq<u8>>::empty() == pa);
    } else {
        let rest = b.drop_last();
        pieces_meet(a, rest);
        assert((a + b).drop_last() == a + rest);
        assert((a + b).last() == b.last());
        let pr = pieces(rest);
        let whole = pa.drop_last().push(pa.last() + pr[0]) + pr.skip(1);
        if b.last() == NEWLINE {
            let pb = pr.push(Seq::<u8>::empty());
            assert(pieces(b) == pb);
            assert(pb.skip(1) == pr.skip(1).push(Seq::<u8>::empty()));
            assert(whole.push(Seq::<u8>::empty()) == pa.drop_last().push(pa.last() + pb[0])
                + pb.skip(1));
        } else {
            let pb = pr.drop_last().push(pr.last().push(b.last()));
            assert(pieces(b) == pb);
            if pr.len() == 1 {
                assert(pb[0] == pr[0].push(b.last()));
                assert(pa.last() + pb[0] == (pa.last() + pr[0]).push(b.last()));
                assert(pr.skip(1) == Seq::<Seq<u8>>::empty());
                assert(pb.skip(1) == Seq::<Seq<u8>>::empty());
                assert(whole == pa.drop_last().push(pa.last() + pr[0]));
                assert(whole.drop_last().push(whole.last().push(b.last()))
                    == pa.drop_last().push(pa.last() + pb[0]) + pb.skip(1));
            } else {
                assert(pb[0] == pr[0]);
                assert(whole.last() == pr.last());
                assert(whole.drop_last().push(whole.last().push(b.last()))
                    == pa.drop_last().push(pa.last() + pb[0]) + pb.skip(1));
            }
        }
    }
}

/// The texts of two runs of pieces are the texts of the first and those of
/// the second.
proof fn line_texts_meet(p: Seq<Seq<u8>>, q: Seq<Seq<u8>>)
    ensures
        line_texts(p + q) == line_texts(p) + line_texts(q),
    decreases q.len(),
{
    if q.len() == 0 {
        assert(p + q == p);
        assert(line_texts(p) + Seq::<Seq<char>>::empty() == line_texts(p));
    } else {
        line_texts_meet(p, q.drop_last());
        assert((p + q).drop_last() == p + q.drop_last());
        assert((p + q).last() == q.last());
        let before = line_texts(p);
        let after = line_texts(q.drop_last());
        if q.last().len() > 0 {
            let line = text::lossy(q.last());
            assert((before + after).push(line) == before + after.push(line));
        }
    }
}

/// Bytes without a newline are one piece.
proof fn single_piece(bytes: Seq<u8>)
    requires
        newline_free(bytes),
    ensures
        pieces(bytes) == seq![bytes],
    decreases bytes.len(),
{
    if bytes.len() == 0 {
        assert(bytes == Seq::<u8>::empty());
    } else {
        let rest = bytes.drop_last();
        assert forall|i: int| 0 <= i < rest.len() implies #[trigger] rest[i] != NEWLINE by {
            assert(rest[i] == bytes[i]);
        }
        single_piece(rest);
        assert(bytes.last() == bytes[bytes.len() - 1]);
        assert(rest.push(bytes.last()) == bytes);
        assert(seq![rest].drop_last() == Seq::<Seq<u8>>::empty());
        assert(Seq::<Seq<u8>>::empty().push(bytes) == seq![bytes]);
    }
}

/// A reader at the end of a file has what the file holds behind its end.
pub proof fn reading_starts_exact(wanted: Wanted, content: Seq<u8>)
    ensures
        is_exact(wanted, start(wanted, content.len() as int), content),
{
    let end = content.skip(content.len() as int);
    assert(end == Seq::<u8>::empty());
    assert(pieces(end) == seq![Seq::<u8>::empty()]);
    if content.len() == 0 {
        assert(end == content);
        reveal_with_fuel(line_texts, 2);
        assert(pieces(content).drop_last() == Seq::<Seq<u8>>::empty());
        assert(lines_of(content) == Seq::<Seq<char>>::empty());
    } else {
        assert(pieces(end).skip(1) == Seq::<Seq<u8>>::empty());
        assert(lines_behind(content, content.len() as int) == Seq::<Seq<char>>::empty());
    }
}

/// A reader that has what the file holds behind its position still has it
/// after the next chunk, wherever that chunk starts: in front of a line, in
/// the middle of one, or in the middle of a character.
pub proof fn reading_stays_exact(wanted: Wanted, progress: Progress, content: Seq<u8>)
    requires
        is_exact(wanted, progress, content),
        !progress.done,
    ensures
        ({
            let size = chunk_length(progress.pos);
            let chunk = content.subrange(progress.pos - size, progress.pos);
            let next = advance(wanted, progress, chunk);
            &&& 0 <= next.pos < progress.pos
            &&& is_exact(wanted, next, content)
        }),
{
    let size = chunk_length(progress.pos);
    let pos = progress.pos - size;
    let chunk = content.subrange(pos, progress.pos);
    let behind = content.skip(progress.pos);
    let from = content.skip(pos);
    assert(from == chunk + behind);
    pieces_meet(chunk, behind);
    text::fields_are_exact(behind, NEWLINE);
    single_piece(progress.remaining);
    pieces_meet(chunk, progress.remaining);
    let found = pieces(chunk + progress.remaining);
    let rest = pieces(behind).skip(1);
    assert(seq![progress.remaining].skip(1) == Seq::<Seq<u8>>::empty());
    assert(found == pieces(chunk).drop_last().push(pieces(chunk).last() + progress.remaining));
    assert(pieces(from) == found + rest);
    if pos == 0 {
        line_texts_meet(found, rest);
        assert(from == content);
    } else {
        assert(pieces(from).skip(1) == found.skip(1) + rest);
        line_texts_meet(found.skip(1), rest);
        assert(pieces(from)[0] == found[0]);
    }
}

/// The lines of a file end with the lines behind any offset of it.
proof fn lines_behind_are_last(content: Seq<u8>, pos: int)
    requires
        0 <= pos <= content.len(),
    ensures
        exists|before: Seq<Seq<char>>|
            lines_of(content) == #[trigger] (before + lines_behind(content, pos)),
{
    let head = content.take(pos);
    let behind = content.skip(pos);
    assert(content == head + behind);
    pieces_meet(head, behind);
    let front = pieces(head).drop_last().push(pieces(head).last() + pieces(behind)[0]);
    line_texts_meet(front, pieces(behind).skip(1));
    assert(lines_of(content) == line_texts(front) + lines_behind(content, pos));
}

/// The last match of a run of lines is where it was when lines stand in
/// front of them.
proof fn last_match_behind(pattern: Seq<char>, before: Seq<Seq<char>>, lines: Seq<Seq<char>>)
    requires
        last_match(pattern, lines) is Some,
    ensures
        0 <= last_match(pattern, lines)->0 < lines.len(),
        last_match(pattern, before + lines) == Some(before.len() + last_match(pattern, lines)->0),
    decreases lines.len(),
{
    assert((before + lines).last() == lines.last());
    assert((before + lines).drop_last() == before + lines.drop_last());
    if !pattern::pattern_matches(pattern, stripped(lines.last())) {
        last_match_behind(pattern, before, lines.drop_last());
    }
}

/// Once lines are enough, lines in front of them do not change what is
/// selected.
pub proof fn enough_is_enough(wanted: Wanted, before: Seq<Seq<char>>, lines: Seq<Seq<char>>)
    requires
        enough(wanted, lines),
    ensures
        selection(wanted, before + lines) == selection(wanted, lines),
{
    match wanted {
        Wanted::LastLines(n) => {
            let all = before + lines;
            let n = n as int;
            assert(all.skip(all.len() - n) == lines.skip(lines.len() - n));
            assert(lines.skip(0) == lines);
            assert(all.skip(0) == all);
            assert(before.len() == 0 ==> all == lines);
        },
        Wanted::Since(p) => {
            last_match_behind(p, before, lines);
            let i = last_match(p, lines)->0;
            assert((before + lines).skip(before.len() + i) == lines.skip(i));
        },
    }
}

/// A reader that is finished has found what reading all of the file would
/// find: the last lines are the last of the file's lines, and the lines
/// since a pattern are those from its last match on.
pub proof fn finished_reading_is_exact(wanted: Wanted, progress: Progress, content: Seq<u8>)
    requires
        is_exact(wanted, progress, content),
        progress.done,
    ensures
        selection(wanted, progress.lines) == selection(wanted, lines_of(content)),
{
    if progress.pos > 0 {
        lines_behind_are_last(content, progress.pos);
        let before = choose|before: Seq<Seq<char>>|
            lines_of(content) == #[trigger] (before + lines_behind(content, progress.pos));
        enough_is_enough(wanted, before, progress.lines);
    }
}

/// As many lines come back as were asked for, or all that there are, and they
/// are the last ones.
pub proof fn last_lines_are_the_last(n: nat, lines: Seq<Seq<char>>)
    ensures
        ({
            let found = selection(Wanted::LastLines(n), lines);
            &&& found.len() == (if lines.len() <= n {
                lines.len()
            } else {
                n
            })
            &&& found == lines.skip(lines.len() - found.len())
        }),
{
    assert(lines.skip(0) == lines);
}

proof fn last_match_properties(pattern: Seq<char>, lines: Seq<Seq<char>>)
    ensures
        match last_match(pattern, lines) {
            Some(i) => {
                &&& 0 <= i < lines.len()
                &&& pattern::pattern_matches(pattern, stripped(lines[i]))
                &&& forall|j: int|
                    i < j < lines.len() ==> !pattern::pattern_matches(
                        pattern,
                        stripped(#[trigger] lines[j]),
                    )
            },
            None => forall|j: int|
                0 <= j < lines.len() ==> !pattern::pattern_matches(
                    pattern,
                    stripped(#[trigger] lines[j]),
                ),
        },
    decreases lines.len(),
{
    if lines.len() > 0 {
        let rest = lines.drop_last();
        last_match_properties(pattern, rest);
        if !pattern::pattern_matches(pattern, stripped(lines.last())) {
            let from = match last_match(pattern, rest) {
                Some(i) => i,
                None => -1,
            };
            assert forall|j: int| from < j < lines.len() implies !pattern::pattern_matches(
                pattern,
                stripped(#[trigger] lines[j]),
            ) by {
                if j < rest.len() {
                    assert(rest[j] == lines[j]);
                }
            }
        }
    }
}

/// The lines since a pattern are the last ones. They start with one that
/// matches it, and no later one does; there are none only where no line
/// matches.
pub proof fn since_starts_at_the_last_match(pattern: Seq<char>, lines: Seq<Seq<char>>)
    ensures
        ({
            let found = selection(Wanted::Since(pattern), lines);
            &&& found.len() <= lines.len()
            &&& found == lines.skip(lines.len() - found.len())
            &&& found.len() > 0 ==> {
                &&& pattern::pattern_matches(pattern, stripped(found[0]))
                &&& forall|j: int|
                    0 < j < found.len() ==> !pattern::pattern_matches(
                        pattern,
                        stripped(#[trigger] found[j]),
                    )
            }
            &&& found.len() == 0 ==> forall|j: int|
                0 <= j < lines.len() ==> !pattern::pattern_matches(
                    pattern,
                    stripped(#[trigger] lines[j]),
                )
        }),
{
    last_match_properties(pattern, lines);
    assert(lines.skip(lines.len() as int) == Seq::<Seq<char>>::empty());
}

proof fn no_close_is_none(line: Seq<char>)
    requires
        forall|i: int|
            0 <= i < line.len() - 1 ==> !(#[trigger] line[i] == ']' && line[i + 1] == ' '),
    ensures
        first_close(line) is None,
    decreases line.len(),
{
    if line.len() >= 2 {
        assert(!(line[0] == ']' && line[1] == ' '));
        let rest = line.drop_first();
        assert forall|i: int| 0 <= i < rest.len() - 1 implies !(#[trigger] rest[i] == ']'
            && rest[i + 1] == ' ') by {
            assert(rest[i] == line[i + 1]);
            assert(rest[i + 1] == line[i + 2]);
        }
        no_close_is_none(rest);
    }
}

proof fn earliest_close_is_first(line: Seq<char>, end: int)
    requires
        0 <= end < line.len() - 1,
        line[end] == ']',
        line[end + 1] == ' ',
        forall|i: int| 0 <= i < end ==> !(#[trigger] line[i] == ']' && line[i + 1] == ' '),
    ensures
        first_close(line) == Some(end),
    decreases end,
{
    if end > 0 {
        assert(!(line[0] == ']' && line[1] == ' '));
        let rest = line.drop_first();
        assert forall|i: int| 0 <= i < end - 1 implies !(#[trigger] rest[i] == ']' && rest[i + 1]
            == ' ') by {
            assert(rest[i] == line[i + 1]);
            assert(rest[i + 1] == line[i + 2]);
        }
        assert(rest[end - 1] == line[end]);
        assert(rest[end] == line[end + 1]);
        earliest_close_is_first(rest, end - 1);
    }
}

/// A bracketed prefix is taken off a line, and nothing else: all that follows
/// the first `] ` stays, as it is.
pub proof fn stripping_takes_the_prefix_alone(line: Seq<char>, end: int)
    requires
        line.len() > 0,
        line[0] == '[',
        0 <= end < line.len() - 1,
        line[end] == ']',
        line[end + 1] == ' ',
        forall|i: int| 0 <= i < end ==> !(#[trigger] line[i] == ']' && line[i + 1] == ' '),
    ensures
        stripped(line) == line.skip(end + 2),
{
    earliest_close_is_first(line, end);
}

/// A line without a bracketed prefix is left as it is: one that does not open
/// with a bracket, and one in which no bracket closes in front of a space.
pub proof fn lines_without_prefix_stay(line: Seq<char>)
    requires
        line.len() == 0 || line[0] != '[' || forall|i: int|
            0 <= i < line.len() - 1 ==> !(#[trigger] line[i] == ']' && line[i + 1] == ' '),
    ensures
        stripped(line) == line,
{
    if line.len() > 0 && line[0] == '[' {
        no_close_is_none(line);
    }
}

proof fn texts_of_all_pieces(pieces: Seq<Seq<u8>>)
    ensures
        line_texts(pieces) == pieces.filter(|p: Seq<u8>| p.len() > 0).map_values(
            |p: Seq<u8>| text::lossy(p),
        ),
    decreases pieces.len(),
{
    let some = |p: Seq<u8>| p.len() > 0;
    let text_of = |p: Seq<u8>| text::lossy(p);
    reveal(Seq::filter);
    if pieces.len() > 0 {
        texts_of_all_pieces(pieces.drop_last());
        let before = pieces.drop_last().filter(some);
        if pieces.last().len() > 0 {
            assert(pieces.filter(some) == before.push(pieces.last()));
            assert(before.push(pieces.last()).map_values(text_of) == before.map_values(
                text_of,
            ).push(text::lossy(pieces.last())));
        }
    }
}

/// A file has a line for everything that stands between its newlines and is not
/// empty, in order, with all of its text.
pub proof fn a_file_has_all_of_its_lines(parts: Seq<Seq<u8>>)
    requires
        parts.len() > 0,
        forall|i: int, j: int|
            0 <= i < parts.len() && 0 <= j < parts[i].len() ==> #[trigger] parts[i][j] != 10,
    ensures
        lines_of(text::rejoined(parts, 10)) == parts.filter(
            |p: Seq<u8>| p.len() > 0,
        ).map_values(|p: Seq<u8>| text::lossy(p)),
{
    text::splitting_undoes_joining(parts, 10);
    texts_of_all_pieces(parts);
}

/// In front of the start of the file, reading stops exactly when it has enough:
/// so many lines, or one that matches.
pub proof fn reading_stops_when_it_has_enough(
    wanted: Wanted,
    progress: Progress,
    chunk: Seq<u8>,
)
    requires
        chunk.len() < progress.pos,
    ensures
        ({
            let next = advance(wanted, progress, chunk);
            &&& next.pos == progress.pos - chunk.len()
            &&& match wanted {
                Wanted::LastLines(n) => next.done <==> next.lines.len() >= n,
                Wanted::Since(p) => next.done <==> exists|i: int|
                    0 <= i < next.lines.len() && pattern::pattern_matches(
                        p,
                        stripped(#[trigger] next.lines[i]),
                    ),
            }
        }),
{
    let next = advance(wanted, progress, chunk);
    if let Wanted::Since(p) = wanted {
        last_match_properties(p, next.lines);
        if let Some(i) = last_match(p, next.lines) {
            assert(pattern::pattern_matches(p, stripped(next.lines[i])));
        }
    }
}

/// The last lines of a file are so many of its lines, those at the end, in order.
pub proof fn the_last_lines_are_read(content: &[u8], n: usize, lines: Vec<String>, i: int)
    requires
        call_ensures(read_last_lines, (content, n), lines),
    ensures
        ({
            let all = lines_of(content@);
            &&& lines@.len() == (if all.len() <= n {
                all.len() as int
            } else {
                n as int
            })
            &&& 0 <= i < lines@.len() ==> lines@[i]@ == all[all.len() - lines@.len() + i]
        }),
{
    let all = lines_of(content@);
    last_lines_are_the_last(n as nat, all);
    let found = text::texts(lines@);
    assert(found.len() == lines@.len());
    if 0 <= i < lines@.len() {
        assert(found[i] == lines@[i]@);
        assert(found[i] == all.skip(all.len() - found.len())[i]);
    }
}

/// The lines since a pattern are those from the last that it matches on, in order;
/// there are none if it matches none.
pub proof fn the_lines_since_a_match_are_read(
    content: &[u8],
    pattern: &Pattern,
    lines: Vec<String>,
    i: int,
)
    requires
        call_ensures(read_lines_since_pattern, (content, pattern), lines),
    ensures
        ({
            let all = lines_of(content@);
            &&& lines@.len() <= all.len()
            &&& 0 <= i < lines@.len() ==> lines@[i]@ == all[all.len() - lines@.len() + i]
            &&& 0 <= i < lines@.len() ==> (pattern::pattern_matches(
                pattern@,
                stripped(lines@[i]@),
            ) <==> i == 0)
            &&& lines@.len() == 0 && 0 <= i < all.len() ==> !pattern::pattern_matches(
                pattern@,
                stripped(all[i]),
            )
        }),
{
    let all = lines_of(content@);
    since_starts_at_the_last_match(pattern@, all);
    let found = text::texts(lines@);
    assert(found.len() == lines@.len());
    if 0 <= i < lines@.len() {
        assert(found[i] == lines@[i]@);
        assert(found[i] == all.skip(all.len() - found.len())[i]);
    }
}

/// A line loses the bracketed prefix that it opens with, and nothing else.
pub proof fn lines_lose_their_prefix(line: &str, rest: &str, end: int)
    requires
        call_ensures(strip_timestamp, (line,), rest),
    ensures
        line@.len() == 0 || line@[0] != '[' ==> rest@ == line@,
        line@.len() > 0 && line@[0] == '[' && 0 <= end < line@.len() - 1 && line@[end] == ']'
            && line@[end + 1] == ' ' && (forall|i: int|
            0 <= i < end ==> !(#[trigger] line@[i] == ']' && line@[i + 1] == ' ')) ==> rest@
            == line@.skip(end + 2),
{
    if line@.len() == 0 || line@[0] != '[' {
        lines_without_prefix_stay(line@);
    } else if 0 <= end < line@.len() - 1 && line@[end] == ']' && line@[end + 1] == ' ' && (forall|
        i: int,
    |
        0 <= i < end ==> !(#[trigger] line@[i] == ']' && line@[i + 1] == ' ')) {
        stripping_takes_the_prefix_alone(line@, end);
    }
}

} // verus!

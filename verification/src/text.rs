//! Text and bytes: UTF-8 decoding and the facts about it that the rest of the
//! crate needs.

use vstd::prelude::*;
use vstd::utf8::*;

verus! {

/// The text that `String::from_utf8_lossy` makes of bytes that are not valid
/// UTF-8.
pub uninterp spec fn repaired_utf8(bytes: Seq<u8>) -> Seq<char>;

/// How many bytes are ASCII before the first that is not.
pub open spec fn ascii_run(bytes: Seq<u8>) -> int
    decreases bytes.len(),
{
    if bytes.len() > 0 && bytes[0] < 0x80 {
        1 + ascii_run(bytes.drop_first())
    } else {
        0
    }
}

/// The text of ASCII bytes: a character for each.
pub open spec fn ascii_text(bytes: Seq<u8>) -> Seq<char> {
    bytes.map_values(|b: u8| b as char)
}

/// The text of some bytes: their decoding where they are valid UTF-8. Where
/// they are not, the ASCII in front stands for itself, and what follows it is
/// repaired.
pub open spec fn lossy(bytes: Seq<u8>) -> Seq<char> {
    if valid_utf8(bytes) {
        decode_utf8(bytes)
    } else {
        ascii_text(bytes.take(ascii_run(bytes))) + repaired_utf8(bytes.skip(ascii_run(bytes)))
    }
}

/// Decodes bytes as UTF-8, replacing what is not valid.
///
/// Calls `String::from_utf8_lossy`. Valid UTF-8 is returned as it decodes.
/// Of other bytes only the sequences that are not valid are replaced, so the
/// ASCII in front of them stays; what the rest becomes is a function of the
/// rest alone, which `repaired_utf8` names.
#[verifier::external_body]
pub(crate) fn decode_lossy(bytes: &[u8]) -> (text: String)
    ensures
        valid_utf8(bytes@) ==> text@ == decode_utf8(bytes@),
        !valid_utf8(bytes@) ==> text@ == ascii_text(bytes@.take(ascii_run(bytes@)))
            + repaired_utf8(bytes@.skip(ascii_run(bytes@))),
{
    String::from_utf8_lossy(bytes).into_owned()
}

/// Appends a character to a string, as `String::push` documents.
pub assume_specification[ String::push ](s: &mut String, c: char)
    ensures
        final(s)@ == old(s)@.push(c),
;

/// The texts of a list of strings.
pub open spec fn texts(strings: Seq<String>) -> Seq<Seq<char>> {
    strings.map_values(|s: String| s@)
}

/// The text in an optional string.
pub open spec fn optional(value: Option<String>) -> Option<Seq<char>> {
    match value {
        Some(s) => Some(s@),
        None => None,
    }
}

/// The characters of a text.
pub(crate) fn characters(text: &str) -> (chars: Vec<char>)
    ensures
        chars@ == text@,
{
    let mut chars: Vec<char> = Vec::new();
    for c in it: text.chars()
        invariant
            it.seq() == text@,
            chars@ == text@.take(it.index() as int),
    {
        chars.push(c);
    }
    assert(text@.take(text@.len() as int) == text@);
    chars
}

/// Whether two texts are the same.
pub(crate) fn same(a: &str, b: &str) -> (same: bool)
    ensures
        same == (a@ == b@),
{
    a.to_owned() == b.to_owned()
}

/// No character of the text is NUL.
pub open spec fn nul_free(text: Seq<char>) -> bool {
    forall|i: int| 0 <= i < text.len() ==> #[trigger] text[i] != '\0'
}

/// No byte is zero.
pub open spec fn zero_free(bytes: Seq<u8>) -> bool {
    free_of(bytes, 0)
}

/// Text survives being encoded and decoded again.
pub proof fn lossy_undoes_encoding(text: Seq<char>)
    ensures
        lossy(encode_utf8(text)) == text,
{
    encode_utf8_valid_utf8(text);
    encode_utf8_decode_utf8(text);
}

proof fn char_bytes_nonzero(character: char)
    requires
        character != '\0',
    ensures
        zero_free(encode_scalar(character as u32)),
{
    char_is_scalar(character);
    let c = character as u32;
    assert(c != 0);
    if has_width_1_encoding(c) {
        assert(c != 0 && c <= 0x7f ==> leading_byte_width_1(c) != 0) by (bit_vector);
    } else if has_width_2_encoding(c) {
        assert(leading_byte_width_2(c) != 0 && last_continuation_byte(c) != 0) by (bit_vector);
    } else if has_width_3_encoding(c) {
        assert(leading_byte_width_3(c) != 0 && second_last_continuation_byte(c) != 0
            && last_continuation_byte(c) != 0) by (bit_vector);
    } else {
        assert(leading_byte_width_4(c) != 0 && third_last_continuation_byte(c) != 0
            && second_last_continuation_byte(c) != 0 && last_continuation_byte(c) != 0)
            by (bit_vector);
    }
}

/// The encoding of text without NUL holds no zero byte.
pub proof fn nul_free_encoding(text: Seq<char>)
    requires
        nul_free(text),
    ensures
        zero_free(encode_utf8(text)),
    decreases text.len(),
{
    if text.len() > 0 {
        char_bytes_nonzero(text[0]);
        nul_free_encoding(text.drop_first());
        let head = encode_scalar(text[0] as u32);
        let tail = encode_utf8(text.drop_first());
        assert forall|i: int| 0 <= i < (head + tail).len() implies #[trigger] (head + tail)[i]
            != 0u8 by {
            if i < head.len() {
                assert((head + tail)[i] == head[i]);
            } else {
                assert((head + tail)[i] == tail[i - head.len()]);
            }
        }
    }
}

/// The fields between the separators of some bytes, the last one after the
/// last separator: there is always one more than there are separators.
pub open spec fn fields(bytes: Seq<u8>, separator: u8) -> Seq<Seq<u8>>
    decreases bytes.len(),
{
    if bytes.len() == 0 {
        seq![Seq::<u8>::empty()]
    } else {
        let before = fields(bytes.drop_last(), separator);
        if bytes.last() == separator {
            before.push(Seq::<u8>::empty())
        } else {
            before.drop_last().push(before.last().push(bytes.last()))
        }
    }
}

/// The bytes of a list of byte vectors.
pub open spec fn byte_seqs(vecs: Seq<Vec<u8>>) -> Seq<Seq<u8>> {
    vecs.map_values(|v: Vec<u8>| v@)
}

/// No byte is the given one.
pub open spec fn free_of(bytes: Seq<u8>, byte: u8) -> bool {
    forall|i: int| 0 <= i < bytes.len() ==> #[trigger] bytes[i] != byte
}

/// Fields in a row, with the separator between them.
pub open spec fn rejoined(fields: Seq<Seq<u8>>, separator: u8) -> Seq<u8>
    decreases fields.len(),
{
    if fields.len() == 0 {
        seq![]
    } else if fields.len() == 1 {
        fields[0]
    } else {
        rejoined(fields.drop_last(), separator).push(separator) + fields.last()
    }
}

/// Splitting loses nothing and misses nothing: the fields hold no separator,
/// and with a separator between them they are the bytes that were split.
pub proof fn fields_are_exact(bytes: Seq<u8>, separator: u8)
    ensures
        fields(bytes, separator).len() > 0,
        rejoined(fields(bytes, separator), separator) == bytes,
        forall|i: int|
            0 <= i < fields(bytes, separator).len() ==> free_of(
                #[trigger] fields(bytes, separator)[i],
                separator,
            ),
    decreases bytes.len(),
{
    let all = fields(bytes, separator);
    if bytes.len() == 0 {
        assert(bytes == Seq::<u8>::empty());
    } else {
        let before = fields(bytes.drop_last(), separator);
        fields_are_exact(bytes.drop_last(), separator);
        assert(bytes.drop_last().push(bytes.last()) == bytes);
        if bytes.last() == separator {
            assert(all.drop_last() == before);
            assert(rejoined(before, separator).push(separator) + Seq::<u8>::empty() == rejoined(
                before,
                separator,
            ).push(separator));
            assert forall|i: int| 0 <= i < all.len() implies free_of(
                #[trigger] all[i],
                separator,
            ) by {
                if i < before.len() {
                    assert(all[i] == before[i]);
                }
            }
        } else {
            assert(all.drop_last() == before.drop_last());
            if before.len() > 1 {
                let head = rejoined(before.drop_last(), separator).push(separator);
                assert(head + before.last().push(bytes.last()) == (head + before.last()).push(
                    bytes.last(),
                ));
            }
            assert forall|i: int| 0 <= i < all.len() implies free_of(
                #[trigger] all[i],
                separator,
            ) by {
                assert(free_of(before[i], separator));
                if i == before.len() - 1 {
                    let last = before.last().push(bytes.last());
                    assert(all[i] == last);
                    assert forall|j: int| 0 <= j < last.len() implies #[trigger] last[j]
                        != separator by {
                        if j < before.last().len() {
                            assert(before[i][j] != separator);
                        }
                    }
                } else {
                    assert(all[i] == before[i]);
                }
            }
        }
    }
}

/// Splits bytes at separators.
pub(crate) fn split(bytes: &[u8], separator: u8) -> (found: Vec<Vec<u8>>)
    ensures
        byte_seqs(found@) == fields(bytes@, separator),
        found@.len() > 0,
{
    let mut found: Vec<Vec<u8>> = Vec::new();
    let mut current: Vec<u8> = Vec::new();
    assert(bytes@.take(0) == Seq::<u8>::empty());
    assert(byte_seqs(found@).push(current@) == fields(bytes@.take(0), separator));
    for i in 0..bytes.len()
        invariant
            byte_seqs(found@).push(current@) == fields(bytes@.take(i as int), separator),
    {
        let byte = bytes[i];
        let ghost before = byte_seqs(found@);
        proof {
            let next = bytes@.take(i + 1);
            assert(next.drop_last() == bytes@.take(i as int));
            assert(next.last() == byte);
            assert(before.push(current@).drop_last() == before);
        }
        if byte == separator {
            let mut piece: Vec<u8> = Vec::new();
            std::mem::swap(&mut piece, &mut current);
            found.push(piece);
            assert(byte_seqs(found@) == before.push(piece@));
            assert(current@ == Seq::<u8>::empty());
        } else {
            current.push(byte);
        }
    }
    assert(bytes@.take(bytes@.len() as int) == bytes@);
    let ghost before = byte_seqs(found@);
    let ghost last = current@;
    found.push(current);
    assert(byte_seqs(found@) == before.push(last));
    found
}

/// The encoding of two texts in a row is their two encodings in a row.
pub proof fn encoding_adds_up(a: Seq<char>, b: Seq<char>)
    ensures
        encode_utf8(a + b) == encode_utf8(a) + encode_utf8(b),
    decreases a.len(),
{
    if a.len() == 0 {
        assert(a + b == b);
        assert(Seq::<u8>::empty() + encode_utf8(b) == encode_utf8(b));
    } else {
        encoding_adds_up(a.drop_first(), b);
        assert((a + b)[0] == a[0]);
        assert((a + b).drop_first() == a.drop_first() + b);
        let first = encode_scalar(a[0] as u32);
        assert(first + (encode_utf8(a.drop_first()) + encode_utf8(b)) == (first + encode_utf8(
            a.drop_first(),
        )) + encode_utf8(b));
    }
}

proof fn lossy_of_ascii_byte(byte: u8, bytes: Seq<u8>)
    requires
        byte < 0x80,
    ensures
        lossy(seq![byte] + bytes) == seq![byte as char] + lossy(bytes),
{
    let whole = seq![byte] + bytes;
    assert(whole.drop_first() == bytes);
    assert(byte < 0x80 ==> byte & 0x80 == 0 && (byte & 0x7f) == byte) by (bit_vector);
    assert(is_leading_byte_width_1(byte));
    assert(decode_first_scalar(whole) == byte);
    assert(pop_first_scalar(whole) == bytes);
    assert(valid_utf8(whole) == valid_utf8(bytes));
    if !valid_utf8(bytes) {
        let n = ascii_run(bytes);
        run_is_within(bytes);
        assert(ascii_run(whole) == n + 1);
        assert(whole.skip(n + 1) == bytes.skip(n));
        assert(ascii_text(whole.take(n + 1)) == seq![byte as char] + ascii_text(bytes.take(n)));
    }
}

proof fn run_is_within(bytes: Seq<u8>)
    ensures
        0 <= ascii_run(bytes) <= bytes.len(),
    decreases bytes.len(),
{
    if bytes.len() > 0 {
        run_is_within(bytes.drop_first());
    }
}

/// ASCII text in front of any bytes stands for itself: the text of the whole
/// is that text and the text of the bytes.
pub proof fn lossy_of_ascii_and_bytes(a: Seq<char>, bytes: Seq<u8>)
    requires
        is_ascii_chars(a),
    ensures
        lossy(encode_utf8(a) + bytes) == a + lossy(bytes),
    decreases a.len(),
{
    if a.len() == 0 {
        assert(encode_utf8(a) + bytes == bytes);
        assert(a + lossy(bytes) == lossy(bytes));
    } else {
        let rest = a.drop_first();
        assert forall|i: int| 0 <= i < rest.len() implies '\0' <= #[trigger] rest[i] <= '\u{7f}' by {
            assert(rest[i] == a[i + 1]);
        }
        lossy_of_ascii_and_bytes(rest, bytes);
        is_ascii_chars_encode_utf8(a);
        is_ascii_chars_encode_utf8(rest);
        let byte = a[0] as u8;
        assert('\0' <= a[0] <= '\u{7f}');
        let whole = encode_utf8(a) + bytes;
        let behind = encode_utf8(rest) + bytes;
        assert(encode_utf8(a) == seq![byte] + encode_utf8(rest)) by {
            assert forall|i: int| 0 < i < a.len() implies #[trigger] encode_utf8(a)[i]
                == encode_utf8(rest)[i - 1] by {
                assert(rest[i - 1] == a[i]);
            }
        }
        assert(whole == seq![byte] + behind);
        lossy_of_ascii_byte(byte, behind);
        assert(byte as char == a[0]);
        assert(seq![a[0]] + (rest + lossy(bytes)) == a + lossy(bytes));
    }
}

/// Text that ends with a carriage return, without it.
pub open spec fn without_return(text: Seq<char>) -> Seq<char> {
    if text.len() > 0 && text.last() == '\r' {
        text.drop_last()
    } else {
        text
    }
}

/// The complete lines of a text, without their line endings, and what
/// follows the last newline. A line ends with a newline, or with a carriage
/// return and a newline.
pub open spec fn complete_lines(text: Seq<char>) -> (Seq<Seq<char>>, Seq<char>)
    decreases text.len(),
{
    if text.len() == 0 {
        (seq![], seq![])
    } else {
        let (lines, rest) = complete_lines(text.drop_last());
        if text.last() == '\n' {
            (lines.push(without_return(rest)), seq![])
        } else {
            (lines, rest.push(text.last()))
        }
    }
}

/// The lines of a text: the complete ones, and what follows the last newline
/// if there is anything.
pub open spec fn text_lines(text: Seq<char>) -> Seq<Seq<char>> {
    let (lines, rest) = complete_lines(text);
    if rest.len() > 0 {
        lines.push(rest)
    } else {
        lines
    }
}

/// The first characters of a list as a string.
pub(crate) fn string_of(chars: &Vec<char>, count: usize) -> (text: String)
    requires
        count <= chars@.len(),
    ensures
        text@ == chars@.take(count as int),
{
    let mut text = String::new();
    assert(chars@.take(0) == Seq::<char>::empty());
    for i in 0..count
        invariant
            count <= chars@.len(),
            text@ == chars@.take(i as int),
    {
        text.push(chars[i]);
        assert(chars@.take(i + 1) == chars@.take(i as int).push(chars@[i as int]));
    }
    text
}

/// Splits a text into lines.
pub(crate) fn split_text(text: &str) -> (lines: Vec<String>)
    ensures
        texts(lines@) == text_lines(text@),
{
    let chars = characters(text);
    let mut lines: Vec<String> = Vec::new();
    let mut rest: Vec<char> = Vec::new();
    assert(text@.take(0) == Seq::<char>::empty());
    assert(texts(lines@) == Seq::<Seq<char>>::empty());
    for i in 0..chars.len()
        invariant
            chars@ == text@,
            (texts(lines@), rest@) == complete_lines(text@.take(i as int)),
    {
        let c = chars[i];
        proof {
            let next = text@.take(i + 1);
            assert(next.drop_last() == text@.take(i as int));
            assert(next.last() == c);
        }
        if c == '\n' {
            let n: usize = rest.len();
            let count: usize = if n > 0 && rest[n - 1] == '\r' {
                n - 1
            } else {
                n
            };
            let line = string_of(&rest, count);
            assert(rest@.take(n as int) == rest@);
            assert(n > 0 ==> rest@.take(n - 1) == rest@.drop_last());
            assert(line@ == without_return(rest@));
            let ghost before = lines@;
            lines.push(line);
            assert(texts(lines@) == texts(before).push(line@));
            rest = Vec::new();
            assert(rest@ == Seq::<char>::empty());
        } else {
            rest.push(c);
        }
    }
    assert(text@.take(text@.len() as int) == text@);
    if rest.len() > 0 {
        let line = string_of(&rest, rest.len());
        assert(rest@.take(rest@.len() as int) == rest@);
        let ghost before = lines@;
        lines.push(line);
        assert(texts(lines@) == texts(before).push(line@));
    }
    lines
}

/// The digit of a number below ten.
pub open spec fn digit(n: nat) -> char {
    ('0' as u32 + n) as char
}

/// A number in decimal.
pub open spec fn decimal(n: nat) -> Seq<char>
    decreases n,
{
    if n < 10 {
        seq![digit(n)]
    } else {
        decimal(n / 10).push(digit(n % 10))
    }
}

/// Writes a digit.
fn digit_char(n: u32) -> (c: char)
    requires
        n < 10,
    ensures
        c == digit(n as nat),
{
    if n == 0 {
        '0'
    } else if n == 1 {
        '1'
    } else if n == 2 {
        '2'
    } else if n == 3 {
        '3'
    } else if n == 4 {
        '4'
    } else if n == 5 {
        '5'
    } else if n == 6 {
        '6'
    } else if n == 7 {
        '7'
    } else if n == 8 {
        '8'
    } else {
        '9'
    }
}

/// Writes a number in decimal.
pub(crate) fn write_decimal(n: u32) -> (text: String)
    ensures
        text@ == decimal(n as nat),
    decreases n,
{
    let mut text = if n < 10 {
        String::new()
    } else {
        write_decimal(n / 10)
    };
    text.push(digit_char(n % 10));
    assert(n < 10 ==> Seq::<char>::empty().push(digit(n as nat)) == seq![digit(n as nat)]);
    text
}

/// So many spaces.
pub open spec fn spaces(count: nat) -> Seq<char> {
    Seq::new(count, |i: int| ' ')
}

/// A text in a column of some width: spaces fill it up, and a text that is
/// too long is not cut.
pub open spec fn padded(text: Seq<char>, width: nat) -> Seq<char> {
    if text.len() < width {
        text + spaces((width - text.len()) as nat)
    } else {
        text
    }
}

/// Puts a text in a column.
pub(crate) fn pad(text: &str, width: usize) -> (column: String)
    ensures
        column@ == padded(text@, width as nat),
{
    let length: usize = characters(text).len();
    let mut column = text.to_owned();
    let mut filled: usize = length;
    assert(column@ == text@ + spaces(0));
    while filled < width
        invariant
            length == text@.len(),
            length <= filled,
            length < width ==> filled <= width,
            length >= width ==> filled == length,
            column@ == text@ + spaces((filled - length) as nat),
        decreases width - filled,
    {
        column.push(' ');
        filled = filled + 1;
        assert(spaces((filled - length) as nat) == spaces((filled - 1 - length) as nat).push(' '));
        assert(column@ == text@ + spaces((filled - length) as nat));
    }
    assert(text@ + spaces(0) == text@);
    column
}

/// Whether a text starts with another.
pub open spec fn starts_with(text: Seq<char>, prefix: Seq<char>) -> bool {
    prefix.len() <= text.len() && text.take(prefix.len() as int) == prefix
}

/// Whether a text starts with another.
pub(crate) fn has_prefix(text: &str, prefix: &str) -> (has: bool)
    ensures
        has == starts_with(text@, prefix@),
{
    let whole = characters(text);
    let start = characters(prefix);
    if start.len() > whole.len() {
        return false;
    }
    for i in 0..start.len()
        invariant
            whole@ == text@,
            start@ == prefix@,
            start@.len() <= whole@.len(),
            forall|j: int| 0 <= j < i ==> whole@[j] == start@[j],
    {
        if whole[i] != start[i] {
            assert(text@.take(prefix@.len() as int)[i as int] != prefix@[i as int]);
            return false;
        }
    }
    assert(text@.take(prefix@.len() as int) == prefix@);
    true
}

/// Bytes without the separator are one field.
pub proof fn one_field_without_separator(bytes: Seq<u8>, separator: u8)
    requires
        forall|i: int| 0 <= i < bytes.len() ==> #[trigger] bytes[i] != separator,
    ensures
        fields(bytes, separator) == seq![bytes],
    decreases bytes.len(),
{
    if bytes.len() == 0 {
        assert(bytes == Seq::<u8>::empty());
    } else {
        let rest = bytes.drop_last();
        assert forall|i: int| 0 <= i < rest.len() implies #[trigger] rest[i] != separator by {
            assert(rest[i] == bytes[i]);
        }
        one_field_without_separator(rest, separator);
        assert(bytes.last() == bytes[bytes.len() - 1]);
        assert(rest.push(bytes.last()) == bytes);
        assert(seq![rest].drop_last().push(bytes) == seq![bytes]);
    }
}

/// A separator between bytes separates the fields of the one from those of the
/// other.
pub proof fn fields_on_both_sides(a: Seq<u8>, b: Seq<u8>, separator: u8)
    ensures
        fields(a.push(separator) + b, separator) == fields(a, separator) + fields(b, separator),
    decreases b.len(),
{
    fields_are_exact(a, separator);
    fields_are_exact(b, separator);
    let whole = a.push(separator) + b;
    if b.len() == 0 {
        assert(whole == a.push(separator));
        assert(whole.drop_last() == a);
        assert(fields(a, separator).push(Seq::<u8>::empty()) == fields(a, separator) + seq![
            Seq::<u8>::empty(),
        ]);
    } else {
        let rest = b.drop_last();
        fields_are_exact(rest, separator);
        fields_on_both_sides(a, rest, separator);
        assert(whole.drop_last() == a.push(separator) + rest);
        assert(whole.last() == b.last());
        let before = fields(a, separator);
        let after = fields(rest, separator);
        if b.last() == separator {
            assert((before + after).push(Seq::<u8>::empty()) == before + after.push(
                Seq::<u8>::empty(),
            ));
        } else {
            let last = after.last().push(b.last());
            assert((before + after).last() == after.last());
            assert((before + after).drop_last().push(last) == before + after.drop_last().push(
                last,
            ));
        }
    }
}

/// Fields in a row are those in front, a separator and those behind; one field
/// is itself.
pub proof fn rejoining_adds_up(a: Seq<Seq<u8>>, b: Seq<Seq<u8>>, separator: u8)
    requires
        a.len() > 0,
        b.len() > 0,
    ensures
        rejoined(a + b, separator) == rejoined(a, separator).push(separator) + rejoined(
            b,
            separator,
        ),
        a.len() == 1 ==> rejoined(a, separator) == a[0],
    decreases b.len(),
{
    let all = a + b;
    assert(all.drop_last() == a + b.drop_last());
    assert(all.last() == b.last());
    if b.len() == 1 {
        assert(all.drop_last() == a);
    } else {
        rejoining_adds_up(a, b.drop_last(), separator);
        let head = rejoined(a, separator).push(separator);
        let middle = rejoined(b.drop_last(), separator);
        assert((head + middle).push(separator) + b.last() == head + (middle.push(separator)
            + b.last()));
    }
}

/// Splitting undoes joining: fields without the separator come back as they
/// were, all of them.
pub proof fn splitting_undoes_joining(parts: Seq<Seq<u8>>, separator: u8)
    requires
        parts.len() > 0,
        forall|i: int, j: int|
            0 <= i < parts.len() && 0 <= j < parts[i].len() ==> #[trigger] parts[i][j]
                != separator,
    ensures
        fields(rejoined(parts, separator), separator) == parts,
    decreases parts.len(),
{
    let last = parts.last();
    assert forall|j: int| 0 <= j < last.len() implies #[trigger] last[j] != separator by {
        assert(parts[parts.len() - 1][j] != separator);
    }
    one_field_without_separator(last, separator);
    if parts.len() == 1 {
        assert(parts == seq![last]);
    } else {
        let fewer = parts.drop_last();
        assert forall|i: int, j: int|
            0 <= i < fewer.len() && 0 <= j < fewer[i].len() implies #[trigger] fewer[i][j]
            != separator by {
            assert(parts[i][j] != separator);
        }
        splitting_undoes_joining(fewer, separator);
        fields_on_both_sides(rejoined(fewer, separator), last, separator);
        assert(fewer + seq![last] == parts);
    }
}

/// Lines as they are written: a newline behind each, with a carriage return in
/// front of it where there is one.
pub open spec fn ended_lines(lines: Seq<Seq<char>>, with_cr: Seq<bool>) -> Seq<char> {
    Seq::new(
        lines.len(),
        |i: int|
            if with_cr[i] {
                lines[i].push('\r').push('\n')
            } else {
                lines[i].push('\n')
            },
    ).flatten()
}

/// No character of the text is a newline.
pub open spec fn on_one_line(text: Seq<char>) -> bool {
    forall|i: int| 0 <= i < text.len() ==> #[trigger] text[i] != '\n'
}

proof fn rest_grows(text: Seq<char>, more: Seq<char>)
    requires
        on_one_line(more),
    ensures
        complete_lines(text + more) == (complete_lines(text).0, complete_lines(text).1 + more),
    decreases more.len(),
{
    let rest = complete_lines(text).1;
    if more.len() == 0 {
        assert(text + more == text);
        assert(rest + more == rest);
    } else {
        let fewer = more.drop_last();
        assert forall|i: int| 0 <= i < fewer.len() implies #[trigger] fewer[i] != '\n' by {
            assert(fewer[i] == more[i]);
        }
        rest_grows(text, fewer);
        assert(more.last() == more[more.len() - 1]);
        assert((text + more).drop_last() == text + fewer);
        assert((rest + fewer).push(more.last()) == rest + more);
    }
}

proof fn complete_lines_are_found(lines: Seq<Seq<char>>, with_cr: Seq<bool>)
    requires
        with_cr.len() == lines.len(),
        forall|i: int| 0 <= i < lines.len() ==> on_one_line(#[trigger] lines[i]),
        forall|i: int|
            0 <= i < lines.len() && !with_cr[i] && (#[trigger] lines[i]).len() > 0
                ==> lines[i].last() != '\r',
    ensures
        complete_lines(ended_lines(lines, with_cr)) == (lines, Seq::<char>::empty()),
    decreases lines.len(),
{
    let ended = Seq::new(
        lines.len(),
        |i: int|
            if with_cr[i] {
                lines[i].push('\r').push('\n')
            } else {
                lines[i].push('\n')
            },
    );
    if lines.len() == 0 {
        assert(lines == Seq::<Seq<char>>::empty());
    } else {
        let fewer = lines.drop_last();
        let flags = with_cr.drop_last();
        assert forall|i: int| 0 <= i < fewer.len() implies on_one_line(#[trigger] fewer[i]) by {
            assert(fewer[i] == lines[i]);
        }
        assert forall|i: int|
            0 <= i < fewer.len() && !flags[i] && (#[trigger] fewer[i]).len() > 0 implies
            fewer[i].last() != '\r' by {
            assert(fewer[i] == lines[i]);
        }
        complete_lines_are_found(fewer, flags);
        let k = lines.len() - 1;
        let line = lines[k];
        assert(on_one_line(line));
        let before = ended_lines(fewer, flags);
        let earlier = Seq::new(
            fewer.len(),
            |i: int|
                if flags[i] {
                    fewer[i].push('\r').push('\n')
                } else {
                    fewer[i].push('\n')
                },
        );
        assert(earlier == ended.drop_last());
        assert(earlier.push(ended[k]) == ended);
        earlier.lemma_flatten_push(ended[k]);
        let text = ended_lines(lines, with_cr);
        assert(text == before + ended[k]);
        let content = ended[k].drop_last();
        assert(content == (if with_cr[k] {
            line.push('\r')
        } else {
            line
        }));
        assert(on_one_line(content));
        rest_grows(before, content);
        assert(text.drop_last() == before + content);
        assert(text.last() == '\n');
        assert(Seq::<char>::empty() + content == content);
        assert(with_cr[k] ==> content.drop_last() == line);
        assert(without_return(content) == line);
        assert(fewer.push(line) == lines);
    }
}

/// A text is split into all of its lines, each as it is without its line
/// ending, however many there are and however long; what follows the last
/// newline is a line too.
pub proof fn all_lines_are_found(lines: Seq<Seq<char>>, with_cr: Seq<bool>, rest: Seq<char>)
    requires
        with_cr.len() == lines.len(),
        forall|i: int| 0 <= i < lines.len() ==> on_one_line(#[trigger] lines[i]),
        forall|i: int|
            0 <= i < lines.len() && !with_cr[i] && (#[trigger] lines[i]).len() > 0
                ==> lines[i].last() != '\r',
        on_one_line(rest),
    ensures
        text_lines(ended_lines(lines, with_cr) + rest) == (if rest.len() > 0 {
            lines.push(rest)
        } else {
            lines
        }),
{
    complete_lines_are_found(lines, with_cr);
    rest_grows(ended_lines(lines, with_cr), rest);
    assert(Seq::<char>::empty() + rest == rest);
}

/// The number that decimal digits stand for.
pub open spec fn value_of(digits: Seq<char>) -> int
    decreases digits.len(),
{
    if digits.len() == 0 {
        0
    } else {
        10 * value_of(digits.drop_last()) + (digits.last() as int - '0' as int)
    }
}

/// A number is written in digits that stand for it, without zeros in front.
pub proof fn decimals_are_exact(n: nat)
    ensures
        value_of(decimal(n)) == n,
        forall|i: int| 0 <= i < decimal(n).len() ==> '0' <= #[trigger] decimal(n)[i] <= '9',
        decimal(n).len() > 0,
        decimal(n).len() > 1 ==> decimal(n)[0] != '0',
        n > 0 ==> decimal(n)[0] != '0',
    decreases n,
{
    let text = decimal(n);
    reveal_with_fuel(value_of, 2);
    if n < 10 {
        assert(text.drop_last() == Seq::<char>::empty());
        assert(digit(n) as int == '0' as int + n);
    } else {
        decimals_are_exact(n / 10);
        assert(text.drop_last() == decimal(n / 10));
        assert(digit(n % 10) as int == '0' as int + n % 10);
        assert(text[0] == decimal(n / 10)[0]);
        assert forall|i: int| 0 <= i < text.len() implies '0' <= #[trigger] text[i] <= '9' by {
            if i < text.len() - 1 {
                assert(text[i] == decimal(n / 10)[i]);
            }
        }
    }
}

/// A column starts with its text, whole, and is filled up with spaces.
pub proof fn columns_hold_their_text(text: Seq<char>, width: nat)
    ensures
        padded(text, width).len() == (if text.len() < width {
            width
        } else {
            text.len()
        }),
        padded(text, width).take(text.len() as int) == text,
        forall|i: int|
            text.len() <= i < padded(text, width).len() ==> #[trigger] padded(text, width)[i]
                == ' ',
{
}

/// A text starts with another exactly where it is that one and something
/// behind it.
pub proof fn prefixes_are_exact(text: Seq<char>, prefix: Seq<char>)
    ensures
        starts_with(text, prefix) <==> exists|rest: Seq<char>| text == #[trigger] (prefix + rest),
{
    if starts_with(text, prefix) {
        assert(text == prefix + text.skip(prefix.len() as int));
    }
    if exists|rest: Seq<char>| text == #[trigger] (prefix + rest) {
        let rest = choose|rest: Seq<char>| text == #[trigger] (prefix + rest);
        assert((prefix + rest).take(prefix.len() as int) == prefix);
    }
}

} // verus!

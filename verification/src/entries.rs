//! The entries of a JSON object or array, one by one. An object of the JSON
//! library keeps one value for each key; here an entry whose key comes again
//! is seen as often as it is there.

use crate::json;
use crate::json::{Member, Scalar};
use vstd::prelude::*;
use vstd::utf8::*;

verus! {

/// The byte in front of the entries of an object.
pub const OPEN_OBJECT: u8 = 0x7b;

/// The byte behind the entries of an object.
pub const CLOSE_OBJECT: u8 = 0x7d;

/// The byte in front of the items of an array.
pub const OPEN_ARRAY: u8 = 0x5b;

/// The byte behind the items of an array.
pub const CLOSE_ARRAY: u8 = 0x5d;

/// The byte between a key and its value.
pub const COLON: u8 = 0x3a;

/// The byte between entries.
pub const COMMA: u8 = 0x2c;

/// The bytes that JSON takes for space.
pub open spec fn is_space(byte: u8) -> bool {
    byte == 0x20 || byte == 0x09 || byte == 0x0a || byte == 0x0d
}

/// Bytes without the space in front of them.
pub open spec fn trimmed(bytes: Seq<u8>) -> Seq<u8>
    decreases bytes.len(),
{
    if bytes.len() > 0 && is_space(bytes[0]) {
        trimmed(bytes.drop_first())
    } else {
        bytes
    }
}

/// What is left of some bytes behind the first of them.
pub open spec fn behind(bytes: Seq<u8>, size: nat) -> Seq<u8> {
    if size <= bytes.len() {
        bytes.skip(size as int)
    } else {
        seq![]
    }
}

/// Whether bytes start with a certain one.
pub open spec fn opens_with(bytes: Seq<u8>, byte: u8) -> bool {
    bytes.len() > 0 && bytes[0] == byte
}

/// The entries of an object, each with its key, or the items of an array,
/// whose keys are empty.
pub struct Listing {
    pub keyed: bool,
    pub entries: Seq<(Seq<char>, Member)>,
}

/// The byte that ends a listing.
pub open spec fn closing(keyed: bool) -> u8 {
    if keyed {
        CLOSE_OBJECT
    } else {
        CLOSE_ARRAY
    }
}

/// The entry that some bytes start with, and what is left behind it.
pub open spec fn first_entry(bytes: Seq<u8>, keyed: bool) -> Option<
    ((Seq<char>, Member), Seq<u8>),
> {
    match json::leading(bytes) {
        Some((first, size)) => {
            let rest = behind(bytes, size);
            if !keyed {
                Some(((seq![], first), rest))
            } else {
                match first {
                    Member::Text(key) if opens_with(trimmed(rest), COLON) => {
                        let after = trimmed(rest).drop_first();
                        match json::leading(after) {
                            Some((value, size)) => Some(((key, value), behind(after, size))),
                            None => None,
                        }
                    },
                    _ => None,
                }
            }
        },
        None => None,
    }
}

/// The entries that some bytes go on with, with commas between them, up to the
/// end of the listing.
pub open spec fn entries_from(bytes: Seq<u8>, keyed: bool) -> Option<Seq<(Seq<char>, Member)>>
    decreases bytes.len(),
{
    match first_entry(bytes, keyed) {
        Some((entry, rest)) => {
            let rest = trimmed(rest);
            if opens_with(rest, closing(keyed)) {
                Some(seq![entry])
            } else if opens_with(rest, COMMA) {
                proof {
                    entry_takes_bytes(bytes, keyed);
                }
                match entries_from(rest.drop_first(), keyed) {
                    Some(others) => Some(seq![entry] + others),
                    None => None,
                }
            } else {
                None
            }
        },
        None => None,
    }
}

/// The listing behind its opening byte.
pub open spec fn listing_from(bytes: Seq<u8>, keyed: bool) -> Option<Listing> {
    if opens_with(trimmed(bytes), closing(keyed)) {
        Some(Listing { keyed, entries: seq![] })
    } else {
        match entries_from(bytes, keyed) {
            Some(entries) => Some(Listing { keyed, entries }),
            None => None,
        }
    }
}

/// Whether some bytes are one JSON value, with nothing but space around it.
pub open spec fn is_value(bytes: Seq<u8>) -> bool {
    match json::leading(bytes) {
        Some((_, size)) => trimmed(behind(bytes, size)).len() == 0,
        None => false,
    }
}

/// The entries of the object or array that a text is, if it is one.
pub open spec fn listing_of(text: Seq<char>) -> Option<Listing> {
    let bytes = trimmed(encode_utf8(text));
    if !is_value(encode_utf8(text)) {
        None
    } else if opens_with(bytes, OPEN_OBJECT) {
        listing_from(bytes.drop_first(), true)
    } else if opens_with(bytes, OPEN_ARRAY) {
        listing_from(bytes.drop_first(), false)
    } else {
        None
    }
}

proof fn trimming_shortens(bytes: Seq<u8>)
    ensures
        trimmed(bytes).len() <= bytes.len(),
    decreases bytes.len(),
{
    if bytes.len() > 0 {
        trimming_shortens(bytes.drop_first());
    }
}

/// What is left behind an entry is no longer than what the entry was read from.
pub proof fn entry_takes_bytes(bytes: Seq<u8>, keyed: bool)
    ensures
        first_entry(bytes, keyed) matches Some((_, rest)) ==> trimmed(rest).len() <= bytes.len(),
{
    if let Some((_, size)) = json::leading(bytes) {
        trimming_shortens(behind(bytes, size));
    }
    if let Some((_, rest)) = first_entry(bytes, keyed) {
        trimming_shortens(rest);
    }
}


/// What entries say.
pub open spec fn entries_view(entries: Seq<(String, Option<Scalar>)>) -> Seq<
    (Seq<char>, Member),
> {
    entries.map_values(|e: (String, Option<Scalar>)| (e.0@, json::member_of(e.1)))
}

/// The place of the first byte from some place on that is no space.
fn skip_space(bytes: &[u8], from: usize) -> (at: usize)
    requires
        from <= bytes@.len(),
    ensures
        from <= at <= bytes@.len(),
        bytes@.skip(at as int) == trimmed(bytes@.skip(from as int)),
{
    let mut at: usize = from;
    while at < bytes.len() && (bytes[at] == 0x20 || bytes[at] == 0x09 || bytes[at] == 0x0a
        || bytes[at] == 0x0d)
        invariant
            from <= at <= bytes@.len(),
            trimmed(bytes@.skip(at as int)) == trimmed(bytes@.skip(from as int)),
        decreases bytes@.len() - at,
    {
        assert(bytes@.skip(at as int).drop_first() == bytes@.skip(at + 1));
        at = at + 1;
    }
    at
}

/// Reads the value at some place, and says where it ends.
fn value_at(bytes: &[u8], from: usize) -> (read: Option<(Option<Scalar>, usize)>)
    requires
        from <= bytes@.len(),
    ensures
        match read {
            Some((value, end)) => from <= end <= bytes@.len() && json::leading(
                bytes@.skip(from as int),
            ) == Some((json::member_of(value), (end - from) as nat)) && bytes@.skip(end as int)
                == behind(bytes@.skip(from as int), (end - from) as nat),
            None => json::leading(bytes@.skip(from as int)) is None,
        },
{
    let rest = vstd::slice::slice_subrange(bytes, from, bytes.len());
    assert(rest@ == bytes@.skip(from as int));
    match json::leading_value(rest) {
        Some((value, size)) => {
            assert(bytes@.skip(from + size) == rest@.skip(size as int));
            Some((value, from + size))
        },
        None => None,
    }
}

/// Reads the entry at some place, and says where it ends.
fn entry_at(bytes: &[u8], from: usize, keyed: bool) -> (read: Option<
    ((String, Option<Scalar>), usize),
>)
    requires
        from <= bytes@.len(),
    ensures
        match read {
            Some((entry, end)) => from <= end <= bytes@.len() && first_entry(
                bytes@.skip(from as int),
                keyed,
            ) == Some(((entry.0@, json::member_of(entry.1)), bytes@.skip(end as int))),
            None => first_entry(bytes@.skip(from as int), keyed) is None,
        },
{
    let (first, end) = match value_at(bytes, from) {
        Some(read) => read,
        None => return None,
    };
    if !keyed {
        let key = String::new();
        assert(key@ == Seq::<char>::empty());
        return Some(((key, first), end));
    }
    let key = match first {
        Some(Scalar::Text(key)) => key,
        _ => return None,
    };
    let colon: usize = skip_space(bytes, end);
    if colon == bytes.len() || bytes[colon] != COLON {
        return None;
    }
    assert(bytes@.skip(colon as int).drop_first() == bytes@.skip(colon + 1));
    match value_at(bytes, colon + 1) {
        Some((value, end)) => Some(((key, value), end)),
        None => None,
    }
}

/// Reads entries from some place on, up to the end of the listing.
fn entries_at(bytes: &[u8], from: usize, keyed: bool) -> (read: Option<
    Vec<(String, Option<Scalar>)>,
>)
    requires
        from <= bytes@.len(),
    ensures
        match read {
            Some(entries) => entries_from(bytes@.skip(from as int), keyed) == Some(
                entries_view(entries@),
            ),
            None => entries_from(bytes@.skip(from as int), keyed) is None,
        },
{
    let ghost all = entries_from(bytes@.skip(from as int), keyed);
    let mut entries: Vec<(String, Option<Scalar>)> = Vec::new();
    let mut at: usize = from;
    assert(entries_view(entries@) == Seq::<(Seq<char>, Member)>::empty());
    loop
        invariant
            at <= bytes@.len(),
            all == (match entries_from(bytes@.skip(at as int), keyed) {
                Some(others) => Some(entries_view(entries@) + others),
                None => None,
            }),
            all == entries_from(bytes@.skip(from as int), keyed),
        decreases bytes@.len() - at,
    {
        let (entry, end) = match entry_at(bytes, at, keyed) {
            Some(read) => read,
            None => return None,
        };
        let ghost before = entries@;
        let ghost said = (entry.0@, json::member_of(entry.1));
        entries.push(entry);
        assert(entries_view(entries@) == entries_view(before) + seq![said]);
        let next: usize = skip_space(bytes, end);
        if next == bytes.len() {
            return None;
        }
        let close: u8 = if keyed {
            CLOSE_OBJECT
        } else {
            CLOSE_ARRAY
        };
        if bytes[next] == close {
            return Some(entries);
        }
        if bytes[next] != COMMA {
            return None;
        }
        assert(bytes@.skip(next as int).drop_first() == bytes@.skip(next + 1));
        proof {
            if let Some(others) = entries_from(bytes@.skip(next + 1), keyed) {
                assert(entries_view(before) + (seq![said] + others) == entries_view(entries@)
                    + others);
            }
        }
        at = next + 1;
    }
}

/// Reads the entries of a text that is a JSON object, or the items of one that
/// is an array, and says which it is.
pub fn read_listing(text: &str) -> (read: Option<(bool, Vec<(String, Option<Scalar>)>)>)
    ensures
        match read {
            Some((keyed, entries)) => listing_of(text@) == Some(
                (Listing { keyed, entries: entries_view(entries@) }),
            ),
            None => listing_of(text@) is None,
        },
{
    let bytes = text.as_bytes();
    assert(bytes@.skip(0) == bytes@);
    let end = match value_at(bytes, 0) {
        Some((_, end)) => end,
        None => return None,
    };
    if skip_space(bytes, end) < bytes.len() {
        return None;
    }
    let start: usize = skip_space(bytes, 0);
    if start == bytes.len() {
        return None;
    }
    let keyed = if bytes[start] == OPEN_OBJECT {
        true
    } else if bytes[start] == OPEN_ARRAY {
        false
    } else {
        return None;
    };
    assert(bytes@.skip(start as int).drop_first() == bytes@.skip(start + 1));
    let close: u8 = if keyed {
        CLOSE_OBJECT
    } else {
        CLOSE_ARRAY
    };
    let first: usize = skip_space(bytes, start + 1);
    if first < bytes.len() && bytes[first] == close {
        let none: Vec<(String, Option<Scalar>)> = Vec::new();
        assert(entries_view(none@) == Seq::<(Seq<char>, Member)>::empty());
        return Some((keyed, none));
    }
    match entries_at(bytes, start + 1, keyed) {
        Some(entries) => Some((keyed, entries)),
        None => None,
    }
}

/// Bytes that are all space, tab, line feed or carriage return.
pub open spec fn all_space(bytes: Seq<u8>) -> bool {
    forall|i: int|
        0 <= i < bytes.len() ==> {
            let b = #[trigger] bytes[i];
            b == 0x20 || b == 0x09 || b == 0x0a || b == 0x0d
        }
}

/// Trimming takes all of the space in front, and nothing else.
pub proof fn trimming_takes_the_space_alone(space: Seq<u8>, rest: Seq<u8>)
    requires
        all_space(space),
        rest.len() > 0 ==> rest[0] != 0x20 && rest[0] != 0x09 && rest[0] != 0x0a && rest[0] != 0x0d,
    ensures
        trimmed(space + rest) == rest,
    decreases space.len(),
{
    let bytes = space + rest;
    if space.len() == 0 {
        assert(bytes == rest);
    } else {
        assert(bytes[0] == space[0]);
        let fewer = space.drop_first();
        assert forall|i: int| 0 <= i < fewer.len() implies {
            let b = #[trigger] fewer[i];
            b == 0x20 || b == 0x09 || b == 0x0a || b == 0x0d
        } by {
            assert(fewer[i] == space[i + 1]);
        }
        assert(bytes.drop_first() == fewer + rest);
        trimming_takes_the_space_alone(fewer, rest);
    }
}

/// An item of an array is the value that its bytes start with, without a key.
pub proof fn items_have_no_keys(bytes: Seq<u8>, item: Member, size: nat)
    requires
        json::leading(bytes) == Some((item, size)),
        size <= bytes.len(),
    ensures
        first_entry(bytes, false) == Some(((Seq::<char>::empty(), item), bytes.skip(size as int))),
{
}

/// An entry of an object is a text and a value with a colon between them, and
/// space where it may be.
pub proof fn entries_are_keys_and_values(
    bytes: Seq<u8>,
    key: Seq<char>,
    size: nat,
    space: Seq<u8>,
    after: Seq<u8>,
    value: Member,
    value_size: nat,
)
    requires
        json::leading(bytes) == Some((Member::Text(key), size)),
        size <= bytes.len(),
        bytes.skip(size as int) == space + seq![0x3a] + after,
        all_space(space),
        json::leading(after) == Some((value, value_size)),
        value_size <= after.len(),
    ensures
        first_entry(bytes, true) == Some(((key, value), after.skip(value_size as int))),
{
    let rest = seq![0x3au8] + after;
    assert(space + seq![0x3a] + after == space + rest);
    trimming_takes_the_space_alone(space, rest);
    assert(rest.drop_first() == after);
}

/// A value whose key is no text is no entry of an object.
pub proof fn keys_are_text(bytes: Seq<u8>)
    ensures
        first_entry(bytes, true) is Some ==> (json::leading(bytes) matches Some((key, _))
            && key is Text),
        json::leading(bytes) is None ==> first_entry(bytes, true) is None && first_entry(
            bytes,
            false,
        ) is None,
{
}

/// Bytes cut into what each entry is read from: behind each entry there is a
/// comma and what the next is read from, and behind the last the end of the
/// listing, with space where it may be.
pub open spec fn cut_into(
    tails: Seq<Seq<u8>>,
    entries: Seq<(Seq<char>, Member)>,
    rests: Seq<Seq<u8>>,
    spaces: Seq<Seq<u8>>,
    end: Seq<u8>,
    keyed: bool,
) -> bool {
    &&& tails.len() > 0
    &&& entries.len() == tails.len()
    &&& rests.len() == tails.len()
    &&& spaces.len() == tails.len()
    &&& forall|i: int| #![trigger rests[i]]
        0 <= i < tails.len() ==> {
            &&& first_entry(tails[i], keyed) == Some((entries[i], rests[i]))
            &&& all_space(spaces[i])
            &&& rests[i] == spaces[i] + (if i == tails.len() - 1 {
                seq![if keyed {
                    0x7du8
                } else {
                    0x5du8
                }] + end
            } else {
                seq![0x2cu8] + tails[i + 1]
            })
        }
}

/// All entries of a listing are read, in order, however many there are and
/// whatever their keys.
pub proof fn all_entries_are_read(
    tails: Seq<Seq<u8>>,
    entries: Seq<(Seq<char>, Member)>,
    rests: Seq<Seq<u8>>,
    spaces: Seq<Seq<u8>>,
    end: Seq<u8>,
    keyed: bool,
)
    requires
        cut_into(tails, entries, rests, spaces, end, keyed),
    ensures
        entries_from(tails[0], keyed) == Some(entries),
    decreases tails.len(),
{
    let close: u8 = if keyed {
        0x7du8
    } else {
        0x5du8
    };
    if tails.len() == 1 {
        let rest = seq![close] + end;
        assert(rests[0] == spaces[0] + rest);
        trimming_takes_the_space_alone(spaces[0], rest);
        assert(entries == seq![entries[0]]);
    } else {
        let rest = seq![0x2cu8] + tails[1];
        assert(rests[0] == spaces[0] + rest);
        trimming_takes_the_space_alone(spaces[0], rest);
        assert(rest.drop_first() == tails[1]);
        let (t, e, r, s) = (
            tails.drop_first(),
            entries.drop_first(),
            rests.drop_first(),
            spaces.drop_first(),
        );
        assert forall|i: int| #![trigger r[i]] 0 <= i < t.len() implies {
            &&& first_entry(t[i], keyed) == Some((e[i], r[i]))
            &&& all_space(s[i])
            &&& r[i] == s[i] + (if i == t.len() - 1 {
                seq![if keyed {
                    0x7du8
                } else {
                    0x5du8
                }] + end
            } else {
                seq![0x2cu8] + t[i + 1]
            })
        } by {
            assert(r[i] == rests[i + 1]);
        }
        all_entries_are_read(t, e, r, s, end, keyed);
        assert(t[0] == tails[1]);
        entry_takes_bytes(tails[0], keyed);
        assert(seq![entries[0]] + e == entries);
    }
}

/// A text that is one object or array, with space where it may be, is read as
/// the entries that it was made of.
pub proof fn a_text_lists_its_entries(
    text: Seq<char>,
    before: Seq<u8>,
    tails: Seq<Seq<u8>>,
    entries: Seq<(Seq<char>, Member)>,
    rests: Seq<Seq<u8>>,
    spaces: Seq<Seq<u8>>,
    end: Seq<u8>,
    keyed: bool,
    size: nat,
)
    requires
        encode_utf8(text) == before + seq![if keyed {
            0x7bu8
        } else {
            0x5bu8
        }] + tails[0],
        all_space(before),
        cut_into(tails, entries, rests, spaces, end, keyed),
        json::leading(encode_utf8(text)) matches Some((_, read)) && read == size,
        size <= encode_utf8(text).len(),
        all_space(encode_utf8(text).skip(size as int)),
        !opens_with(trimmed(tails[0]), if keyed {
            0x7du8
        } else {
            0x5du8
        }),
    ensures
        listing_of(text) == Some(Listing { keyed, entries }),
{
    let bytes = encode_utf8(text);
    let open: u8 = if keyed {
        0x7bu8
    } else {
        0x5bu8
    };
    let rest = seq![open] + tails[0];
    assert(before + seq![open] + tails[0] == before + rest);
    trimming_takes_the_space_alone(before, rest);
    assert(rest.drop_first() == tails[0]);
    let behind_it = bytes.skip(size as int);
    assert(behind_it + Seq::<u8>::empty() == behind_it);
    trimming_takes_the_space_alone(behind_it, Seq::empty());
    all_entries_are_read(tails, entries, rests, spaces, end, keyed);
}

/// An object or array with nothing but space in it has no entries.
pub proof fn empty_listings_have_no_entries(inner: Seq<u8>, end: Seq<u8>, keyed: bool)
    requires
        all_space(inner),
    ensures
        listing_from(
            inner + seq![if keyed {
                0x7du8
            } else {
                0x5du8
            }] + end,
            keyed,
        ) == Some(Listing { keyed, entries: seq![] }),
{
    let close: u8 = if keyed {
        0x7du8
    } else {
        0x5du8
    };
    let rest = seq![close] + end;
    assert(inner + seq![close] + end == inner + rest);
    trimming_takes_the_space_alone(inner, rest);
}

/// Only a text that is one JSON value, and opens as an object or an array, lists
/// anything.
pub proof fn only_objects_and_arrays_are_listed(text: Seq<char>)
    ensures
        json::leading(encode_utf8(text)) is None ==> listing_of(text) is None,
        listing_of(text) is Some ==> trimmed(encode_utf8(text)).len() > 0 && trimmed(
            encode_utf8(text),
        )[0] == (if listing_of(text)->0.keyed {
            0x7bu8
        } else {
            0x5bu8
        }),
{
}

} // verus!

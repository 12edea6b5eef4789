//! JSON objects, as far as the protocol's messages need them: members that
//! are text, non-negative integers or flags.

use crate::entries;
use crate::entries::Listing;
use crate::text;
use vstd::prelude::*;

verus! {

/// The object type of the JSON library, opaque here.
#[verifier::external_type_specification]
#[verifier::external_body]
#[verifier::reject_recursive_types(K)]
#[verifier::reject_recursive_types(V)]
pub struct ExMap<K, V>(serde_json::Map<K, V>);

/// The value type of the JSON library, opaque here.
#[verifier::external_type_specification]
#[verifier::external_body]
pub struct ExValue(serde_json::Value);

/// A member of an object that the protocol can use.
#[derive(Debug, Clone, PartialEq)]
pub enum Scalar {
    Text(String),
    Number(u64),
    Flag(bool),
}

/// What a member of an object holds. `Other` stands for everything else:
/// null, arrays, objects, and numbers that are no `u64`.
pub enum Member {
    Text(Seq<char>),
    Number(u64),
    Flag(bool),
    Other,
}

impl View for Scalar {
    type V = Member;

    open spec fn view(&self) -> Member {
        match *self {
            Scalar::Text(t) => Member::Text(t@),
            Scalar::Number(n) => Member::Number(n),
            Scalar::Flag(b) => Member::Flag(b),
        }
    }
}

/// The value of the member with this key.
pub open spec fn lookup(members: Seq<(Seq<char>, Member)>, key: Seq<char>) -> Option<Member>
    decreases members.len(),
{
    if members.len() == 0 {
        None
    } else if members.last().0 == key {
        Some(members.last().1)
    } else {
        lookup(members.drop_last(), key)
    }
}

/// Every member is text, a number or a flag.
pub open spec fn plain(members: Seq<(Seq<char>, Member)>) -> bool {
    forall|i: int| 0 <= i < members.len() ==> !((#[trigger] members[i]).1 is Other)
}

/// What the protocol sees of a member that may be missing.
pub open spec fn usable(member: Option<Member>) -> Option<Member> {
    match member {
        Some(Member::Other) => None,
        _ => member,
    }
}

/// What the protocol sees of the scalar that may have been read.
pub open spec fn scalar_view(scalar: Option<Scalar>) -> Option<Member> {
    match scalar {
        Some(s) => Some(s@),
        None => None,
    }
}

/// What was read of a value: `Other` where it is nothing that the protocol can
/// use.
pub open spec fn member_of(scalar: Option<Scalar>) -> Member {
    match scalar {
        Some(s) => s@,
        None => Member::Other,
    }
}

/// What an object of the JSON library holds: its members in the order in
/// which they were inserted, each key once.
pub uninterp spec fn members(
    object: serde_json::Map<String, serde_json::Value>,
) -> Seq<(Seq<char>, Member)>;

/// The members of the object that `serde_json::from_str` reads from a text,
/// if the text is JSON and its value is an object.
pub uninterp spec fn parsed_object(json: Seq<char>) -> Option<Seq<(Seq<char>, Member)>>;

/// The text that `serde_json::Value::to_string` writes for an object with
/// these members.
pub uninterp spec fn object_text(members: Seq<(Seq<char>, Member)>) -> Seq<char>;

/// The first value that a `serde_json::StreamDeserializer` reads from some
/// bytes, if it can read one, and how many bytes that takes with the space in
/// front of it.
pub uninterp spec fn leading(bytes: Seq<u8>) -> Option<(Member, nat)>;

/// An object without members.
///
/// Calls `serde_json::Map::new`, which makes an empty map.
#[verifier::external_body]
pub(crate) fn new_object() -> (object: serde_json::Map<String, serde_json::Value>)
    ensures
        members(object) == Seq::<(Seq<char>, Member)>::empty(),
{
    serde_json::Map::new()
}

/// Adds a member behind those that an object has.
///
/// Calls `serde_json::Map::insert`, which with the library's
/// `preserve_order` feature puts a key that the map did not have at the end.
#[verifier::external_body]
pub(crate) fn insert(
    object: &mut serde_json::Map<String, serde_json::Value>,
    key: &str,
    value: Scalar,
)
    requires
        lookup(members(*old(object)), key@) is None,
    ensures
        members(*final(object)) == members(*old(object)).push((key@, value@)),
{
    let value = match value {
        Scalar::Text(t) => serde_json::Value::String(t),
        Scalar::Number(n) => serde_json::Value::Number(n.into()),
        Scalar::Flag(b) => serde_json::Value::Bool(b),
    };
    object.insert(key.to_string(), value);
}

/// Reads a member of an object.
///
/// Calls `serde_json::Map::get`, which finds the value under a key; a number
/// is read with `serde_json::Number::as_u64`, which gives one that is no
/// `u64` as missing.
#[verifier::external_body]
pub(crate) fn get(
    object: &serde_json::Map<String, serde_json::Value>,
    key: &str,
) -> (value: Option<Scalar>)
    ensures
        scalar_view(value) == usable(lookup(members(*object), key@)),
{
    match object.get(key) {
        Some(serde_json::Value::String(t)) => Some(Scalar::Text(t.clone())),
        Some(serde_json::Value::Number(n)) => n.as_u64().map(Scalar::Number),
        Some(serde_json::Value::Bool(b)) => Some(Scalar::Flag(*b)),
        _ => None,
    }
}

/// Reads an object from its text.
///
/// Calls `serde_json::from_str`. What it reads, and whether it can, is a
/// function of the text alone, which `parsed_object` names; a value that is
/// no object counts as unreadable.
#[verifier::external_body]
pub(crate) fn parse_object(json: &str) -> (object: Option<
    serde_json::Map<String, serde_json::Value>,
>)
    ensures
        match object {
            Some(o) => parsed_object(json@) == Some(members(o)),
            None => parsed_object(json@) is None,
        },
{
    match serde_json::from_str(json) {
        Ok(serde_json::Value::Object(object)) => Some(object),
        _ => None,
    }
}

/// Reads one value from the front of some bytes, whatever follows it.
///
/// Calls `serde_json::Deserializer::into_iter` and, once,
/// `serde_json::StreamDeserializer::next` and `byte_offset`. What they read,
/// and how far, is a function of the bytes alone, which `leading` names; it
/// takes no more bytes than there are. A number is read with
/// `serde_json::Number::as_u64`, as a member of an object is.
#[verifier::external_body]
pub(crate) fn leading_value(bytes: &[u8]) -> (read: Option<(Option<Scalar>, usize)>)
    ensures
        match read {
            Some((value, size)) => leading(bytes@) == Some((member_of(value), size as nat))
                && size <= bytes@.len(),
            None => leading(bytes@) is None,
        },
{
    let mut values = serde_json::Deserializer::from_slice(bytes).into_iter();
    let value = match values.next() {
        Some(Ok(serde_json::Value::String(t))) => Some(Scalar::Text(t)),
        Some(Ok(serde_json::Value::Number(n))) => n.as_u64().map(Scalar::Number),
        Some(Ok(serde_json::Value::Bool(b))) => Some(Scalar::Flag(b)),
        Some(Ok(_)) => None,
        _ => return None,
    };
    Some((value, values.byte_offset()))
}

/// Writes an object as text.
///
/// Calls `serde_json::Value::to_string`. Where every member is text, a
/// number or a flag, the text is a function of the members, which
/// `object_text` names, and reading it gives the same members back, as an
/// object and entry by entry. The text of any object escapes control
/// characters, so it holds no NUL.
#[verifier::external_body]
pub(crate) fn write_object(object: serde_json::Map<String, serde_json::Value>) -> (json: String)
    ensures
        plain(members(object)) ==> json@ == object_text(members(object)),
        plain(members(object)) ==> parsed_object(json@) == Some(members(object)),
        plain(members(object)) ==> entries::listing_of(json@) == Some(
            (Listing { keyed: true, entries: members(object) }),
        ),
        text::nul_free(json@),
{
    serde_json::Value::Object(object).to_string()
}

} // verus!

//! Identifiers and names, produced by the `uuid` and `names` crates.

use vstd::prelude::*;

verus! {

/// What `uuid::Uuid::parse_str` yields for a text, as the 128-bit value of
/// the UUID, or `None` where it reports an error.
pub uninterp spec fn uuid_parse(s: Seq<char>) -> Option<u128>;

/// What `serde_json::from_str::<Vec<uuid::Uuid>>` yields for a text: the
/// identifiers of a JSON array of UUID strings, in order, as 128-bit values,
/// or `None` where it reports an error.
pub uninterp spec fn id_list_parse(s: Seq<char>) -> Option<Seq<u128>>;

/// Calls `serde_json::from_str` to read a JSON array of UUIDs; the result is
/// the named value `id_list_parse` of the text.
#[verifier::external_body]
pub(crate) fn decode_id_list(s: &str) -> (r: Option<Vec<u128>>)
    ensures
        match r {
            Some(v) => id_list_parse(s@) == Some(v@),
            None => id_list_parse(s@) is None,
        },
{
    match serde_json::from_str::<Vec<uuid::Uuid>>(s) {
        Ok(v) => Some(v.iter().map(|u| u.as_u128()).collect()),
        Err(_) => None,
    }
}

/// A version-4 (random) UUID of the RFC 4122 variant: the version nibble
/// is 4 and the two variant bits are `10`.
pub open spec fn is_v4_uuid(id: u128) -> bool {
    &&& id & 0xF000_0000_0000_0000_0000u128 == 0x4000_0000_0000_0000_0000u128
    &&& id & 0xC000_0000_0000_0000u128 == 0x8000_0000_0000_0000u128
}

/// What `serde_json::to_string` writes for a list of UUIDs given by their
/// 128-bit values.
pub uninterp spec fn id_list_text(ids: Seq<u128>) -> Seq<char>;

/// Calls `serde_json::to_string` on the list of UUIDs. The result is the
/// named value `id_list_text` of the list; reading it back with
/// `serde_json::from_str` gives the same list, since `uuid` writes each
/// UUID as its lower-case hyphenated text and reads that text back to the
/// same value, and a list of strings always serialises.
#[verifier::external_body]
pub(crate) fn encode_id_list(ids: &Vec<u128>) -> (r: String)
    ensures
        r@ == id_list_text(ids@),
        id_list_parse(r@) == Some(ids@),
{
    let us: Vec<uuid::Uuid> = ids.iter().map(|i| uuid::Uuid::from_u128(*i)).collect();
    serde_json::to_string(&us).unwrap()
}

/// Calls `uuid::Uuid::new_v4`. Its value is random; the contract states only
/// the version and variant bits that the crate's source sets on every result.
#[verifier::external_body]
pub(crate) fn new_uuid() -> (id: u128)
    ensures
        is_v4_uuid(id),
{
    uuid::Uuid::new_v4().as_u128()
}

/// Calls `uuid::Uuid::parse_str`; the result is the named value `uuid_parse`
/// of the text.
#[verifier::external_body]
pub(crate) fn parse_uuid(s: &str) -> (r: Option<u128>)
    ensures
        r == uuid_parse(s@),
{
    match uuid::Uuid::parse_str(s) {
        Ok(u) => Some(u.as_u128()),
        Err(_) => None,
    }
}

/// Calls `names::Generator::with_naming(Name::Plain).next()`, which draws a
/// random adjective and noun and joins them with a hyphen; the contract
/// states only that the hyphen is there, not which words were drawn.
#[verifier::external_body]
pub(crate) fn generate_name() -> (name: String)
    ensures
        name@.contains('-'),
{
    names::Generator::with_naming(names::Name::Plain).next().unwrap()
}

/// The identifiers that the texts parse to as UUIDs, in order; texts that
/// are no UUID are skipped.
pub open spec fn parsed_ids(texts: Seq<Seq<char>>) -> Seq<u128>
    decreases texts.len(),
{
    if texts.len() == 0 {
        Seq::empty()
    } else {
        let rest = parsed_ids(texts.drop_last());
        match uuid_parse(texts.last()) {
            Some(u) => rest.push(u),
            None => rest,
        }
    }
}

/// The identifiers of stored players, read from their texts: each text that
/// parses as a UUID gives its value, in order, and the others are skipped.
pub fn parse_player_ids(texts: &Vec<String>) -> (r: Vec<u128>)
    ensures
        r@ == parsed_ids(texts@.map_values(|t: String| t@)),
{
    let ghost ts = texts@.map_values(|t: String| t@);
    let mut r: Vec<u128> = Vec::new();
    let mut i: usize = 0;
    while i < texts.len()
        invariant
            0 <= i <= texts.len(),
            ts == texts@.map_values(|t: String| t@),
            r@ == parsed_ids(ts.take(i as int)),
        decreases texts.len() - i,
    {
        proof {
            assert(ts.take(i + 1).drop_last() =~= ts.take(i as int));
            assert(ts.take(i + 1).last() == texts@[i as int]@);
        }
        match parse_uuid(texts[i].as_str()) {
            Some(u) => r.push(u),
            None => {},
        }
        i = i + 1;
    }
    assert(ts.take(texts.len() as int) =~= ts);
    r
}

/// The identifiers of a stored JSON list, or none where the text is not
/// such a list.
pub open spec fn id_list_or_empty(s: Seq<char>) -> Seq<u128> {
    match id_list_parse(s) {
        Some(v) => v,
        None => Seq::empty(),
    }
}

/// The stored form of a list of identifiers: a JSON list of UUIDs, which
/// `read_id_list` reads back to the same list.
pub fn stored_id_list(ids: &Vec<u128>) -> (r: String)
    ensures
        r@ == id_list_text(ids@),
        id_list_or_empty(r@) == ids@,
{
    encode_id_list(ids)
}

/// Reads a stored JSON list of identifiers; a text that is not such a list
/// reads as the empty list.
pub fn read_id_list(s: &str) -> (r: Vec<u128>)
    ensures
        r@ == id_list_or_empty(s@),
{
    match decode_id_list(s) {
        Some(v) => v,
        None => Vec::new(),
    }
}

} // verus!

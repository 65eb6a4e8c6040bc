//! Query identifiers: UUIDs held as `u128` and written in their hyphenated
//! lowercase form.
use vstd::prelude::*;

verus! {

/// The lowercase hexadecimal digit of `d` (0 to 15).
pub open spec fn hex_char(d: int) -> char {
    if d < 10 {
        ((d + 48) as u32) as char
    } else {
        ((d + 87) as u32) as char
    }
}

/// The 32 hexadecimal digits of `x`, most significant first.
pub open spec fn uuid_simple(x: u128) -> Seq<char> {
    Seq::new(32, |i: int| hex_char(((x >> ((124 - 4 * i) as u128)) & 0xf) as int))
}

/// The hyphenated lowercase form of the UUID `x`:
/// `xxxxxxxx-xxxx-xxxx-xxxx-xxxxxxxxxxxx`.
pub open spec fn uuid_text(x: u128) -> Seq<char> {
    let s = uuid_simple(x);
    s.subrange(0, 8) + seq!['-'] + s.subrange(8, 12) + seq!['-'] + s.subrange(12, 16) + seq!['-']
        + s.subrange(16, 20) + seq!['-'] + s.subrange(20, 32)
}

/// The UUID that `uuid::Uuid::parse_str` reads from `s`, as a `u128`, or
/// `None` when `s` is not a UUID.
pub uninterp spec fn parsed_uuid(s: Seq<char>) -> Option<u128>;

/// Parses a UUID with `uuid::Uuid::parse_str` and takes it as a `u128`
/// (`Uuid::as_u128`). The crate documents that it reads every form it
/// writes; the contract states that for the hyphenated form.
#[verifier::external_body]
fn uuid_parse(s: &str) -> (r: Option<u128>)
    ensures
        r == parsed_uuid(s@),
        forall|x: u128| #[trigger] uuid_text(x) == s@ ==> r == Some(x),
{
    match uuid::Uuid::parse_str(s) {
        Ok(u) => Some(u.as_u128()),
        Err(_) => None,
    }
}

/// Writes the UUID `id` (`uuid::Uuid::from_u128`) with its `Display`, which
/// the crate documents as the hyphenated lowercase form.
#[verifier::external_body]
fn uuid_format(id: u128) -> (s: String)
    ensures
        s@ == uuid_text(id),
{
    uuid::Uuid::from_u128(id).to_string()
}

/// Reads a query identifier; `None` when `s` is not a UUID. An identifier
/// written by [`format_query_id`] reads back as the same identifier.
pub fn parse_query_id(s: &str) -> (r: Option<u128>)
    ensures
        r == parsed_uuid(s@),
        forall|x: u128| #[trigger] uuid_text(x) == s@ ==> r == Some(x),
{
    uuid_parse(s)
}

/// Writes a query identifier in the hyphenated lowercase UUID form.
pub fn format_query_id(id: u128) -> (s: String)
    ensures
        s@ == uuid_text(id),
{
    uuid_format(id)
}

} // verus!

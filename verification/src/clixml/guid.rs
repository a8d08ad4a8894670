//! GUID text, through the `uuid` crate.

use vstd::prelude::*;

verus! {

/// The lower-case hexadecimal digit character of `d < 16`.
pub open spec fn hex_lower_char(d: nat) -> char {
    if d < 10 {
        (48 + d) as char
    } else {
        (97 + (d - 10)) as char
    }
}

/// Two lower-case hexadecimal digits of a byte.
pub open spec fn hex2_lower(b: u8) -> Seq<char> {
    seq![hex_lower_char((b / 16) as nat), hex_lower_char((b % 16) as nat)]
}

/// Lower-case hexadecimal of each byte of `b`, in order.
pub open spec fn hex_lower(b: Seq<u8>) -> Seq<char>
    decreases b.len(),
{
    if b.len() == 0 {
        Seq::empty()
    } else {
        hex_lower(b.drop_last()) + hex2_lower(b.last())
    }
}

/// The hyphenated 8-4-4-4-12 rendering of a GUID's sixteen bytes, in
/// lower case.
pub open spec fn guid_text(b: Seq<u8>) -> Seq<char> {
    hex_lower(b.subrange(0, 4)) + seq!['-'] + hex_lower(b.subrange(4, 6)) + seq!['-']
        + hex_lower(b.subrange(6, 8)) + seq!['-'] + hex_lower(b.subrange(8, 10)) + seq!['-']
        + hex_lower(b.subrange(10, 16))
}

/// `uuid::Uuid::hyphenated` rendered with `to_string`: the documented
/// lower-case 8-4-4-4-12 form of the sixteen bytes in order.
#[verifier::external_body]
pub(crate) fn guid_to_text(bytes: &[u8; 16]) -> (r: String)
    ensures
        r@ == guid_text(bytes@),
{
    uuid::Uuid::from_bytes(*bytes).hyphenated().to_string()
}

/// The sixteen bytes `uuid::Uuid::parse_str` reads from `s`, or `None`
/// where it refuses the text.
pub uninterp spec fn uuid_parse(s: Seq<char>) -> Option<Seq<u8>>;

/// `uuid::Uuid::parse_str`, then `Uuid::as_bytes`: the GUID written in
/// `s` (hyphenated, simple, braced or URN form), or `None`.
#[verifier::external_body]
pub(crate) fn parse_guid(s: &str) -> (r: Option<[u8; 16]>)
    ensures
        match r {
            Some(b) => uuid_parse(s@) == Some(b@),
            None => uuid_parse(s@) is None,
        },
{
    match uuid::Uuid::parse_str(s) {
        Ok(u) => Some(*u.as_bytes()),
        Err(_) => None,
    }
}

} // verus!

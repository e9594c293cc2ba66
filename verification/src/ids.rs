//! Universally unique identifiers as bytes and as text.

use vstd::prelude::*;

verus! {

/// `uuid::Error`, carried without looking inside.
#[verifier::external_type_specification]
#[verifier::external_body]
pub struct ExUuidError(uuid::Error);

/// Whether `b` is marked as version 7 of the standard layout: the version in the
/// high half of byte 6, the variant in the two top bits of byte 8.
pub open spec fn version_7(b: Seq<u8>) -> bool {
    b.len() == 16 && b[6] / 16 == 7 && b[8] / 64 == 2
}

/// The lower-case hexadecimal digit for `d`.
pub open spec fn hex_digit(d: int) -> char {
    "0123456789abcdef"@[d]
}

/// The bytes `b[from..to]` in hexadecimal, two digits each, high half first.
pub open spec fn hex(b: Seq<u8>, from: int, to: int) -> Seq<char> {
    Seq::new(
        (2 * (to - from)) as nat,
        |i: int|
            if i % 2 == 0 {
                hex_digit((b[from + i / 2] / 16) as int)
            } else {
                hex_digit((b[from + i / 2] % 16) as int)
            },
    )
}

/// The hyphenated notation of an identifier: groups of 8, 4, 4, 4 and 12 digits.
pub open spec fn hyphenated(b: Seq<u8>) -> Seq<char> {
    hex(b, 0, 4) + "-"@ + hex(b, 4, 6) + "-"@ + hex(b, 6, 8) + "-"@ + hex(b, 8, 10) + "-"@ + hex(
        b,
        10,
        16,
    )
}

/// What `uuid::Uuid::parse_str` reads from `text`: the bytes of an identifier, or
/// `None` where it reports an error.
pub uninterp spec fn parsed_uuid(text: Seq<char>) -> Option<Seq<u8>>;

/// Calls `uuid::Uuid::now_v7`. The bytes depend on the time and on chance; the
/// version and the variant are always set.
#[verifier::external_body]
pub(crate) fn new_id_bytes() -> (r: [u8; 16])
    ensures
        version_7(r@),
{
    uuid::Uuid::now_v7().into_bytes()
}

/// Calls `Display::fmt` of `uuid::Uuid`, which writes the hyphenated notation in
/// lower case; `uuid::Uuid::parse_str` reads it back.
#[verifier::external_body]
pub(crate) fn id_text(bytes: [u8; 16]) -> (r: String)
    ensures
        r@ == hyphenated(bytes@),
        parsed_uuid(r@) == Some(bytes@),
{
    uuid::Uuid::from_bytes(bytes).to_string()
}

/// Calls `uuid::Uuid::parse_str`. Whether it succeeds and what it reads is a
/// function of the text, named by [`parsed_uuid`].
#[verifier::external_body]
pub(crate) fn parse_id(text: &str) -> (r: Result<[u8; 16], uuid::Error>)
    ensures
        match r {
            Ok(bytes) => parsed_uuid(text@) == Some(bytes@),
            Err(_) => parsed_uuid(text@) is None,
        },
{
    uuid::Uuid::parse_str(text).map(uuid::Uuid::into_bytes)
}

/// The text of an identifier gives its bytes in order, each by two hexadecimal digits,
/// the high half first, with a hyphen behind the fourth, sixth, eighth and tenth.
pub proof fn law_ids_are_written_in_hexadecimal(b: Seq<u8>, i: int)
    requires
        b.len() == 16,
        0 <= i < 16,
    ensures
        hyphenated(b).len() == 36,
        ({
            let at = 2 * i + (if i < 4 {
                0int
            } else if i < 6 {
                1
            } else if i < 8 {
                2
            } else if i < 10 {
                3
            } else {
                4
            });
            &&& hyphenated(b)[at] == "0123456789abcdef"@[b[i] as int / 16]
            &&& hyphenated(b)[at + 1] == "0123456789abcdef"@[b[i] as int % 16]
        }),
        hyphenated(b)[8] == '-',
        hyphenated(b)[13] == '-',
        hyphenated(b)[18] == '-',
        hyphenated(b)[23] == '-',
{
    reveal_strlit("-");
}

/// Only sixteen bytes that are marked as such are of version 7.
pub proof fn law_version_7(b: Seq<u8>)
    ensures
        version_7(b) <==> b.len() == 16 && 0x70 <= b[6] < 0x80 && 0x80 <= b[8] < 0xc0,
{
}

} // verus!

//! Printable descriptions of byte strings.

use vstd::prelude::*;
use vstd::utf8::*;

verus! {

/// The text that `format!("{:X?}", bytes)` gives for a byte slice: the debug listing
/// of the bytes in upper-case hexadecimal.
pub uninterp spec fn hex_listing(bytes: Seq<u8>) -> Seq<char>;

/// Calls `std::str::from_utf8`. Its documentation says that it fails exactly when the
/// bytes are not valid UTF-8, and otherwise returns the text whose UTF-8 encoding is the
/// bytes themselves; the contract states this over vstd's model of UTF-8.
#[verifier::external_body]
fn utf8_str(bytes: &[u8]) -> (res: Option<&str>)
    ensures
        res is Some <==> valid_utf8(bytes@),
        res matches Some(s) ==> s@ == decode_utf8(bytes@),
{
    match std::str::from_utf8(bytes) {
        Ok(s) => Some(s),
        Err(_) => None,
    }
}

/// Formats the bytes with `format!("{:X?}", ..)`. The result is named, not described:
/// std documents debug output as unstable, so nothing more is stated of it.
#[verifier::external_body]
fn hex_debug(bytes: &[u8]) -> (res: String)
    ensures
        res@ == hex_listing(bytes@),
{
    format!("{:X?}", bytes)
}

/// The text of `bytes` when they are valid UTF-8, else their hexadecimal listing.
pub open spec fn description(bytes: Seq<u8>) -> Seq<char> {
    if valid_utf8(bytes) {
        decode_utf8(bytes)
    } else {
        hex_listing(bytes)
    }
}

/// Describes a byte string for a log line: its UTF-8 text when it has one, else the
/// hexadecimal listing of its bytes.
pub fn desc(bytes: &[u8]) -> (text: String)
    ensures
        text@ == description(bytes@),
{
    match utf8_str(bytes) {
        Some(s) => s.to_string(),
        None => hex_debug(bytes),
    }
}

} // verus!

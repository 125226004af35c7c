//! Calls into the standard library whose results are taken on trust.
use crate::text::number;
use vstd::prelude::*;
use vstd::utf8;

verus! {

/// The lower-case form of a text, as `str::to_lowercase` gives it.
pub uninterp spec fn lowercase(s: Seq<char>) -> Seq<char>;

/// The text that `String::from_utf8_lossy` reads from bytes.
pub uninterp spec fn lossy_text(bytes: Seq<u8>) -> Seq<char>;

/// The message of the error that `str::parse::<u16>` gives for a text that it refuses.
pub uninterp spec fn parse_u16_error(s: Seq<char>) -> Seq<char>;

/// The message of the error that `str::parse::<u64>` gives for a text that it refuses.
pub uninterp spec fn parse_u64_error(s: Seq<char>) -> Seq<char>;

/// The message of the error that `str::parse::<usize>` gives for a text that it refuses, on a
/// machine where `max` is the largest value that fits.
pub uninterp spec fn parse_usize_error(s: Seq<char>, max: nat) -> Seq<char>;

/// The lower-case form of an ASCII letter; any other character as it is.
pub open spec fn ascii_lower(c: char) -> char {
    if 'A' <= c <= 'Z' {
        (c as u32 + 32) as char
    } else {
        c
    }
}

/// `str::to_lowercase`: the result depends on the text alone, and an ASCII text is lowered
/// letter by letter. What becomes of other characters is left to Unicode.
#[verifier::external_body]
pub(crate) fn to_lower(s: &str) -> (r: String)
    ensures
        r@ == lowercase(s@),
        utf8::is_ascii_chars(s@) ==> r@ == s@.map_values(|c: char| ascii_lower(c)),
{
    s.to_lowercase()
}

/// `String::from_utf8_lossy`: the result depends on the bytes alone, and bytes that are valid
/// UTF-8 are decoded. How invalid bytes are replaced is left unsaid.
#[verifier::external_body]
pub(crate) fn from_lossy(bytes: &[u8]) -> (r: String)
    ensures
        r@ == lossy_text(bytes@),
        utf8::valid_utf8(bytes@) ==> r@ == utf8::decode_utf8(bytes@),
{
    String::from_utf8_lossy(bytes).into_owned()
}

/// `str::parse::<u16>`: an optional plus sign and decimal digits, of a value that fits. The
/// message of a refusal depends on the text alone.
#[verifier::external_body]
pub(crate) fn parse_u16(s: &str) -> (r: Result<u16, String>)
    ensures
        match r {
            Ok(v) => number::decimal_up_to(s@, u16::MAX as nat) == Some(v as nat),
            Err(e) => number::decimal_up_to(s@, u16::MAX as nat) is None && e@ == parse_u16_error(s@),
        },
{
    s.parse::<u16>().map_err(|e| e.to_string())
}

/// `str::parse::<u64>`: an optional plus sign and decimal digits, of a value that fits. The
/// message of a refusal depends on the text alone.
#[verifier::external_body]
pub(crate) fn parse_u64(s: &str) -> (r: Result<u64, String>)
    ensures
        match r {
            Ok(v) => number::decimal_up_to(s@, u64::MAX as nat) == Some(v as nat),
            Err(e) => number::decimal_up_to(s@, u64::MAX as nat) is None && e@ == parse_u64_error(s@),
        },
{
    s.parse::<u64>().map_err(|e| e.to_string())
}

/// `str::parse::<usize>`: an optional plus sign and decimal digits, of a value that fits. The
/// message of a refusal depends on the text and on the largest value that fits.
#[verifier::external_body]
pub(crate) fn parse_usize(s: &str) -> (r: Result<usize, String>)
    ensures
        match r {
            Ok(v) => number::decimal_up_to(s@, usize::MAX as nat) == Some(v as nat),
            Err(e) => number::decimal_up_to(s@, usize::MAX as nat) is None && e@
                == parse_usize_error(s@, usize::MAX as nat),
        },
{
    s.parse::<usize>().map_err(|e| e.to_string())
}

} // verus!

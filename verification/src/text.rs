//! The few operations on text that the library takes from `std` as they are.

use vstd::prelude::*;
use std::sync::Arc;

verus! {

/// `Arc::clone` on shared bytes: a second handle to the same allocation, and
/// so to the same bytes. `std` makes the handle; nothing is proved of it.
#[verifier::external_body]
pub(crate) fn share_bytes(bytes: &Arc<Vec<u8>>) -> (shared: Arc<Vec<u8>>)
    ensures
        shared == *bytes,
{
    Arc::clone(bytes)
}

/// `str`'s `==`: two string slices are equal exactly when they hold the same
/// characters in the same order. Stated here because the comparison itself is
/// made by `std` and not proved.
#[verifier::external_body]
pub(crate) fn str_eq(a: &str, b: &str) -> (same: bool)
    ensures
        same == (a@ == b@),
{
    a == b
}

/// The value of a decimal digit.
pub open spec fn digit_value(c: char) -> int {
    c as int - '0' as int
}

/// Whether `c` is one of `0` to `9`.
pub open spec fn is_digit(c: char) -> bool {
    '0' <= c <= '9'
}

/// Whether every character of `s` is a decimal digit.
pub open spec fn all_digits(s: Seq<char>) -> bool {
    forall|i: int| 0 <= i < s.len() ==> is_digit(#[trigger] s[i])
}

/// The number that a run of decimal digits writes.
pub open spec fn digits_value(s: Seq<char>) -> int
    decreases s.len(),
{
    if s.len() == 0 {
        0
    } else {
        10 * digits_value(s.drop_last()) + digit_value(s.last())
    }
}

/// The integer that `s` writes in decimal, where it writes one that fits
/// `i32`: an optional `+` or `-`, then one digit or more, and nothing else.
pub open spec fn parse_i32_spec(s: Seq<char>) -> Option<i32> {
    let negative = s.len() > 0 && s[0] == '-';
    let signed = s.len() > 0 && (s[0] == '-' || s[0] == '+');
    let digits = if signed {
        s.skip(1)
    } else {
        s
    };
    let value = if negative {
        -digits_value(digits)
    } else {
        digits_value(digits)
    };
    if digits.len() == 0 || !all_digits(digits) || value < i32::MIN || value > i32::MAX {
        None
    } else {
        Some(value as i32)
    }
}

/// `str::parse::<i32>`: `std` reads an optional sign and decimal digits, and
/// refuses the empty string, any other character and a value outside `i32`.
/// The contract restates that; the parsing is `std`'s and is not proved.
#[verifier::external_body]
pub(crate) fn parse_i32(s: &str) -> (parsed: Option<i32>)
    ensures
        parsed == parse_i32_spec(s@),
{
    s.parse::<i32>().ok()
}

/// What `html_escape::decode_html_entities` makes of a text: the text with
/// every character reference that ends in `;` and names a character replaced
/// by that character.
pub uninterp spec fn decoded_entities(text: Seq<char>) -> Seq<char>;

/// `html_escape::decode_html_entities`: the text with its character
/// references decoded. Which references there are is the crate's table to
/// say; the decoding is believed, not proved.
#[verifier::external_body]
pub(crate) fn decode_entities(text: &str) -> (decoded: String)
    ensures
        decoded@ == decoded_entities(text@),
{
    html_escape::decode_html_entities(text).into_owned()
}

/// What `str::to_lowercase` makes of a text: the text with every character
/// that has a lowercase form replaced by it.
pub uninterp spec fn lowercased(text: Seq<char>) -> Seq<char>;

/// `str::to_lowercase`: the lowercase form of a text, by Unicode's rules.
/// The table of lowercase forms is `std`'s; nothing is proved of it.
#[verifier::external_body]
pub(crate) fn to_lowercase(text: &str) -> (lower: String)
    ensures
        lower@ == lowercased(text@),
{
    text.to_lowercase()
}

} // verus!

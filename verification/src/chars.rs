//! Classes of ASCII bytes.
//!
//! Each predicate is an executable function that may also be used in
//! contracts, where it stands for the `spec_` function of the same name.

use vstd::prelude::*;

verus! {

pub open spec fn spec_is_digit(c: u8) -> bool {
    0x30 <= c <= 0x39
}

/// `0` to `9`.
#[verifier::when_used_as_spec(spec_is_digit)]
pub fn is_digit(c: u8) -> (r: bool)
    ensures
        r == spec_is_digit(c),
{
    0x30 <= c && c <= 0x39
}

pub open spec fn spec_is_upper(c: u8) -> bool {
    0x41 <= c <= 0x5a
}

/// `A` to `Z`.
#[verifier::when_used_as_spec(spec_is_upper)]
pub fn is_upper(c: u8) -> (r: bool)
    ensures
        r == spec_is_upper(c),
{
    0x41 <= c && c <= 0x5a
}

pub open spec fn spec_is_lower(c: u8) -> bool {
    0x61 <= c <= 0x7a
}

/// `a` to `z`.
#[verifier::when_used_as_spec(spec_is_lower)]
pub fn is_lower(c: u8) -> (r: bool)
    ensures
        r == spec_is_lower(c),
{
    0x61 <= c && c <= 0x7a
}

pub open spec fn spec_is_alpha(c: u8) -> bool {
    spec_is_upper(c) || spec_is_lower(c)
}

/// A letter of either case.
#[verifier::when_used_as_spec(spec_is_alpha)]
pub fn is_alpha(c: u8) -> (r: bool)
    ensures
        r == spec_is_alpha(c),
{
    is_upper(c) || is_lower(c)
}

pub open spec fn spec_is_alnum(c: u8) -> bool {
    spec_is_alpha(c) || spec_is_digit(c)
}

/// A letter or a digit.
#[verifier::when_used_as_spec(spec_is_alnum)]
pub fn is_alnum(c: u8) -> (r: bool)
    ensures
        r == spec_is_alnum(c),
{
    is_alpha(c) || is_digit(c)
}

pub open spec fn spec_is_space(c: u8) -> bool {
    c == 0x20 || c == 0x09 || c == 0x0a || c == 0x0c || c == 0x0d
}

/// ASCII white space: space, horizontal tab, line feed, form feed and
/// carriage return.
#[verifier::when_used_as_spec(spec_is_space)]
pub fn is_space(c: u8) -> (r: bool)
    ensures
        r == spec_is_space(c),
{
    c == 0x20 || c == 0x09 || c == 0x0a || c == 0x0c || c == 0x0d
}

pub open spec fn spec_is_blank(c: u8) -> bool {
    c == 0x20 || c == 0x09 || c == 0x0c || c == 0x0d
}

/// White space other than the line feed, which ends a message.
#[verifier::when_used_as_spec(spec_is_blank)]
pub fn is_blank(c: u8) -> (r: bool)
    ensures
        r == spec_is_blank(c),
{
    c == 0x20 || c == 0x09 || c == 0x0c || c == 0x0d
}

pub open spec fn spec_is_ascii(c: u8) -> bool {
    c < 0x80
}

/// A byte of the seven-bit set.
#[verifier::when_used_as_spec(spec_is_ascii)]
pub fn is_ascii(c: u8) -> (r: bool)
    ensures
        r == spec_is_ascii(c),
{
    c < 0x80
}

pub open spec fn spec_to_lower(c: u8) -> u8 {
    if spec_is_upper(c) {
        (c + 0x20) as u8
    } else {
        c
    }
}

/// The lower-case form of a letter; any other byte is returned as it is.
#[verifier::when_used_as_spec(spec_to_lower)]
pub fn to_lower(c: u8) -> (r: u8)
    ensures
        r == spec_to_lower(c),
{
    if is_upper(c) {
        c + 0x20
    } else {
        c
    }
}

pub open spec fn spec_same_letter(a: u8, b: u8) -> bool {
    spec_to_lower(a) == spec_to_lower(b)
}

/// Whether two bytes are equal once the case of letters is ignored.
#[verifier::when_used_as_spec(spec_same_letter)]
pub fn same_letter(a: u8, b: u8) -> (r: bool)
    ensures
        r == spec_same_letter(a, b),
{
    to_lower(a) == to_lower(b)
}

pub open spec fn spec_digit_value(c: u8, radix: u8) -> Option<u32> {
    let lower = spec_to_lower(c);
    if spec_is_digit(c) && c - 0x30 < radix {
        Some((c - 0x30) as u32)
    } else if spec_is_lower(lower) && radix >= 10 && lower - 0x61 < radix - 10 {
        Some((lower - 0x61 + 10) as u32)
    } else {
        None
    }
}

/// The value of `c` as a digit in the given radix, where the letters stand
/// for ten and above in either case; `None` where `c` is no digit of that
/// radix.
pub fn ascii_to_digit(c: u8, radix: u8) -> (r: Option<u32>)
    ensures
        r == spec_digit_value(c, radix),
        r matches Some(v) ==> v < radix,
{
    let lower = to_lower(c);
    if is_digit(c) && c - 0x30 < radix {
        Some((c - 0x30) as u32)
    } else if is_lower(lower) && radix >= 10 && lower - 0x61 < radix - 10 {
        Some((lower - 0x61 + 10) as u32)
    } else {
        None
    }
}

} // verus!

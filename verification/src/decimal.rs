//! Decimal numbers as they are written in a program message: an optional
//! sign, digits with an optional point, and an optional exponent.

use vstd::prelude::*;
use crate::chars::is_digit;
use crate::error::ErrorCode;
use crate::scan::{lemma_run_end, run_end, scan_run, ByteClass};

verus! {

/// The largest magnitude of an exponent.
pub const EXPONENT_LIMIT: u32 = 32000;

pub open spec fn spec_is_sign(c: u8) -> bool {
    c == 0x2b || c == 0x2d
}

/// `+` or `-`.
#[verifier::when_used_as_spec(spec_is_sign)]
pub fn is_sign(c: u8) -> (r: bool)
    ensures
        r == spec_is_sign(c),
{
    c == 0x2b || c == 0x2d
}

pub open spec fn spec_is_exponent_mark(c: u8) -> bool {
    c == 0x45 || c == 0x65
}

/// `E` or `e`.
#[verifier::when_used_as_spec(spec_is_exponent_mark)]
pub fn is_exponent_mark(c: u8) -> (r: bool)
    ensures
        r == spec_is_exponent_mark(c),
{
    c == 0x45 || c == 0x65
}

/// The number that a string of decimal digits stands for.
pub open spec fn digits_value(digits: Seq<u8>) -> nat
    decreases digits.len(),
{
    if digits.len() == 0 {
        0
    } else {
        digits_value(digits.drop_last()) * 10 + (digits.last() - 0x30) as nat
    }
}

/// Whether every byte is a decimal digit.
pub open spec fn all_digits(bytes: Seq<u8>) -> bool {
    forall|i: int| 0 <= i < bytes.len() ==> is_digit(#[trigger] bytes[i])
}

/// Where the digits of the mantissa start: behind the sign, if there is one.
pub open spec fn mantissa_start(s: Seq<u8>, pos: int) -> int {
    if 0 <= pos < s.len() && is_sign(s[pos]) {
        pos + 1
    } else {
        pos
    }
}

/// Where the digits before the point end.
pub open spec fn integer_end(s: Seq<u8>, pos: int) -> int {
    run_end(s, mantissa_start(s, pos), ByteClass::Digit)
}

/// Whether the mantissa has a decimal point.
pub open spec fn has_point(s: Seq<u8>, pos: int) -> bool {
    integer_end(s, pos) < s.len() && s[integer_end(s, pos)] == 0x2e
}

/// Where the mantissa ends.
pub open spec fn mantissa_end(s: Seq<u8>, pos: int) -> int {
    if has_point(s, pos) {
        run_end(s, integer_end(s, pos) + 1, ByteClass::Digit)
    } else {
        integer_end(s, pos)
    }
}

/// The number of digits in the mantissa, before and behind the point.
pub open spec fn mantissa_digits(s: Seq<u8>, pos: int) -> int {
    if has_point(s, pos) {
        mantissa_end(s, pos) - mantissa_start(s, pos) - 1
    } else {
        mantissa_end(s, pos) - mantissa_start(s, pos)
    }
}

/// Whether an exponent mark follows the mantissa.
pub open spec fn has_exponent(s: Seq<u8>, pos: int) -> bool {
    mantissa_end(s, pos) < s.len() && is_exponent_mark(s[mantissa_end(s, pos)])
}

/// Where the digits of the exponent start: behind the mark and the sign.
pub open spec fn exponent_start(s: Seq<u8>, pos: int) -> int {
    let p = mantissa_end(s, pos) + 1;
    if p < s.len() && is_sign(s[p]) {
        p + 1
    } else {
        p
    }
}

/// Where the digits of the exponent end.
pub open spec fn exponent_end(s: Seq<u8>, pos: int) -> int {
    run_end(s, exponent_start(s, pos), ByteClass::Digit)
}

/// The outcome of reading a decimal number at `pos`, and the position at
/// which reading stopped.
///
/// The mantissa needs at least one digit. An exponent mark must be followed,
/// after an optional sign, by at least one digit, and the exponent may not
/// exceed the limit in magnitude.
pub open spec fn decimal_scan(s: Seq<u8>, pos: int) -> (Result<(), ErrorCode>, int) {
    if mantissa_digits(s, pos) == 0 {
        (Err(ErrorCode::InvalidCharacterInNumber), mantissa_end(s, pos))
    } else if !has_exponent(s, pos) {
        (Ok(()), mantissa_end(s, pos))
    } else if exponent_end(s, pos) == exponent_start(s, pos) {
        (Err(ErrorCode::InvalidCharacterInNumber), exponent_end(s, pos))
    } else if digits_value(s.subrange(exponent_start(s, pos), exponent_end(s, pos)))
        > EXPONENT_LIMIT {
        (Err(ErrorCode::ExponentTooLarge), exponent_end(s, pos))
    } else {
        (Ok(()), exponent_end(s, pos))
    }
}

/// Reading a number stops inside the input, and behind at least one byte
/// where the first byte is a sign, a point or a digit.
pub proof fn lemma_decimal_scan_bounds(s: Seq<u8>, pos: int)
    requires
        0 <= pos <= s.len(),
    ensures
        pos <= decimal_scan(s, pos).1 <= s.len(),
        pos < s.len() && (is_sign(s[pos]) || is_digit(s[pos]) || s[pos] == 0x2e) ==> pos
            < decimal_scan(s, pos).1,
        pos <= mantissa_start(s, pos) <= integer_end(s, pos) <= mantissa_end(s, pos) <= s.len(),
        has_exponent(s, pos) ==> mantissa_end(s, pos) < exponent_start(s, pos) <= exponent_end(
            s,
            pos,
        ) <= s.len(),
{
    let m = mantissa_start(s, pos);
    lemma_run_end(s, m, ByteClass::Digit);
    let i = integer_end(s, pos);
    if has_point(s, pos) {
        lemma_run_end(s, i + 1, ByteClass::Digit);
    }
    if has_exponent(s, pos) {
        lemma_run_end(s, exponent_start(s, pos), ByteClass::Digit);
    }
}

/// Whether the digits in `buf[from..to]` stand for a number above `limit`.
fn digits_exceed(buf: &[u8], from: usize, to: usize, limit: u32) -> (r: bool)
    requires
        from <= to <= buf@.len(),
        forall|i: int| from <= i < to ==> is_digit(#[trigger] buf@[i]),
        limit <= 400_000_000,
    ensures
        r == (digits_value(buf@.subrange(from as int, to as int)) > limit),
{
    let mut acc: u32 = 0;
    let mut over = false;
    let mut i = from;
    while i < to
        invariant
            from <= i <= to <= buf@.len(),
            forall|j: int| from <= j < to ==> is_digit(#[trigger] buf@[j]),
            limit <= 400_000_000,
            over ==> digits_value(buf@.subrange(from as int, i as int)) > limit,
            !over ==> acc == digits_value(buf@.subrange(from as int, i as int)) && acc <= limit,
        decreases to - i,
    {
        proof {
            let next = buf@.subrange(from as int, i + 1);
            assert(next.drop_last() =~= buf@.subrange(from as int, i as int));
            assert(next.last() == buf@[i as int]);
            assert(is_digit(buf@[i as int]));
        }
        if !over {
            let d: u32 = (buf[i] - 0x30) as u32;
            acc = acc * 10 + d;
            if acc > limit {
                over = true;
            }
        }
        i += 1;
    }
    over
}

/// Where the parts of a number lie.
struct Parts {
    start: usize,
    int_end: usize,
    point: bool,
    mant_end: usize,
    exponent: bool,
    exp_start: usize,
    exp_end: usize,
}

impl Parts {
    /// The parts are those of the number at `pos` in `s`.
    spec fn of(self, s: Seq<u8>, pos: int) -> bool {
        &&& self.start == mantissa_start(s, pos)
        &&& self.int_end == integer_end(s, pos)
        &&& self.point == has_point(s, pos)
        &&& self.mant_end == mantissa_end(s, pos)
        &&& self.exponent == has_exponent(s, pos)
        &&& self.exponent ==> self.exp_start == exponent_start(s, pos) && self.exp_end
            == exponent_end(s, pos)
        &&& pos <= self.start <= self.int_end <= self.mant_end <= s.len()
        &&& self.point ==> self.int_end < self.mant_end
        &&& self.exponent ==> self.mant_end < self.exp_start <= self.exp_end <= s.len()
        &&& forall|i: int| self.start <= i < self.int_end ==> is_digit(#[trigger] s[i])
        &&& forall|i: int| self.int_end < i < self.mant_end ==> is_digit(#[trigger] s[i])
        &&& self.exponent ==> forall|i: int|
            self.exp_start <= i < self.exp_end ==> is_digit(#[trigger] s[i])
    }

    /// The number of digits in the mantissa.
    spec fn digits(self) -> int {
        if self.point {
            self.mant_end - self.start - 1
        } else {
            self.mant_end - self.start
        }
    }
}

/// Finds the parts of the number at `pos`.
fn scan_parts(buf: &[u8], pos: usize) -> (p: Parts)
    requires
        pos <= buf@.len(),
    ensures
        p.of(buf@, pos as int),
{
    let len = buf.len();
    let start = if pos < len && is_sign(buf[pos]) {
        pos + 1
    } else {
        pos
    };
    let int_end = scan_run(buf, start, ByteClass::Digit);
    let point = int_end < len && buf[int_end] == 0x2e;
    let mant_end = if point {
        scan_run(buf, int_end + 1, ByteClass::Digit)
    } else {
        int_end
    };
    let exponent = mant_end < len && is_exponent_mark(buf[mant_end]);
    let mut exp_start = mant_end;
    let mut exp_end = mant_end;
    if exponent {
        exp_start = if mant_end + 1 < len && is_sign(buf[mant_end + 1]) {
            mant_end + 2
        } else {
            mant_end + 1
        };
        exp_end = scan_run(buf, exp_start, ByteClass::Digit);
    }
    proof {
        lemma_run_end(buf@, start as int, ByteClass::Digit);
        if point {
            lemma_run_end(buf@, int_end + 1, ByteClass::Digit);
        }
        if exponent {
            lemma_run_end(buf@, exp_start as int, ByteClass::Digit);
        }
    }
    Parts { start, int_end, point, mant_end, exponent, exp_start, exp_end }
}

/// Whether the parts make up a number, and where reading stops.
fn judge_parts(buf: &[u8], pos: usize, p: &Parts) -> (r: (Result<(), ErrorCode>, usize))
    requires
        pos <= buf@.len(),
        p.of(buf@, pos as int),
    ensures
        r.0 == decimal_scan(buf@, pos as int).0,
        r.1 == decimal_scan(buf@, pos as int).1,
        pos <= r.1 <= buf@.len(),
{
    let digits = if p.point {
        p.mant_end - p.start - 1
    } else {
        p.mant_end - p.start
    };
    if digits == 0 {
        (Err(ErrorCode::InvalidCharacterInNumber), p.mant_end)
    } else if !p.exponent {
        (Ok(()), p.mant_end)
    } else if p.exp_end == p.exp_start {
        (Err(ErrorCode::InvalidCharacterInNumber), p.exp_end)
    } else if digits_exceed(buf, p.exp_start, p.exp_end, EXPONENT_LIMIT) {
        (Err(ErrorCode::ExponentTooLarge), p.exp_end)
    } else {
        (Ok(()), p.exp_end)
    }
}

/// Reads a decimal number at `pos`. Returns whether one stands there, and
/// the position at which reading stopped.
pub(crate) fn scan_decimal(buf: &[u8], pos: usize) -> (r: (Result<(), ErrorCode>, usize))
    requires
        pos <= buf@.len(),
    ensures
        r.0 == decimal_scan(buf@, pos as int).0,
        r.1 == decimal_scan(buf@, pos as int).1,
        pos <= r.1 <= buf@.len(),
{
    let parts = scan_parts(buf, pos);
    judge_parts(buf, pos, &parts)
}

/// Whether `text` is a decimal number from its first byte to its last.
pub open spec fn is_decimal(text: Seq<u8>) -> bool {
    decimal_scan(text, 0).0 is Ok && decimal_scan(text, 0).1 == text.len()
}

/// The digits of the mantissa, those before the point followed by those
/// behind it.
pub open spec fn mantissa_text(text: Seq<u8>) -> Seq<u8> {
    let whole = text.subrange(mantissa_start(text, 0), integer_end(text, 0));
    if has_point(text, 0) {
        whole + text.subrange(integer_end(text, 0) + 1, mantissa_end(text, 0))
    } else {
        whole
    }
}

/// The exponent, which is zero where none is written.
pub open spec fn exponent_value(text: Seq<u8>) -> int {
    if has_exponent(text, 0) {
        let magnitude = digits_value(
            text.subrange(exponent_start(text, 0), exponent_end(text, 0)),
        );
        if text[mantissa_end(text, 0) + 1] == 0x2d {
            -magnitude
        } else {
            magnitude as int
        }
    } else {
        0
    }
}

/// How many digits of the mantissa stand before the decimal point once the
/// exponent is applied. It is negative where zeros would have to be put
/// between the point and the first digit.
pub open spec fn point_position(text: Seq<u8>) -> int {
    integer_end(text, 0) - mantissa_start(text, 0) + exponent_value(text)
}

/// Ten to the power of `n`.
pub open spec fn pow10(n: nat) -> nat
    decreases n,
{
    if n == 0 {
        1
    } else {
        10 * pow10((n - 1) as nat)
    }
}

/// The integer nearest to the number whose digits are `digits`, with the
/// decimal point behind the first `point` of them; a half is rounded away
/// from zero. These are the digits before the point, followed by zeros where
/// the point lies behind the last digit, and one more where the first digit
/// behind the point is five or above.
pub open spec fn rounded_digits(digits: Seq<u8>, point: int) -> nat {
    if point < 0 {
        0
    } else if point >= digits.len() {
        digits_value(digits) * pow10((point - digits.len()) as nat)
    } else {
        digits_value(digits.take(point)) + if digits[point] >= 0x35 {
            1nat
        } else {
            0nat
        }
    }
}

/// The integer nearest to the decimal number `text`, a half rounded away
/// from zero.
pub open spec fn rounded_value(text: Seq<u8>) -> int {
    let magnitude = rounded_digits(mantissa_text(text), point_position(text));
    if text.len() > 0 && text[0] == 0x2d {
        -magnitude
    } else {
        magnitude as int
    }
}

/// The nearest integer as a 64-bit value: an error where `text` is no
/// decimal number, and another where the integer does not fit.
pub open spec fn rounded_i64(text: Seq<u8>) -> Result<i64, ErrorCode> {
    if !is_decimal(text) {
        Err(ErrorCode::NumericDataError)
    } else if i64::MIN <= rounded_value(text) <= i64::MAX {
        Ok(rounded_value(text) as i64)
    } else {
        Err(ErrorCode::DataOutOfRange)
    }
}

/// The largest magnitude that is of use: that of the least 64-bit integer.
pub const MAGNITUDE_LIMIT: u64 = 0x8000_0000_0000_0000;

/// A longer string of digits stands for a number that is no smaller.
proof fn lemma_digits_value_grows(digits: Seq<u8>, n: int)
    requires
        0 <= n <= digits.len(),
    ensures
        digits_value(digits.take(n)) <= digits_value(digits),
    decreases digits.len() - n,
{
    if n == digits.len() {
        assert(digits.take(n) =~= digits);
    } else {
        lemma_digits_value_grows(digits, n + 1);
        assert(digits.take(n + 1).drop_last() =~= digits.take(n));
    }
}

proof fn lemma_pow10_positive(n: nat)
    ensures
        pow10(n) >= 1,
    decreases n,
{
    if n > 0 {
        lemma_pow10_positive((n - 1) as nat);
    }
}

/// The length of the mantissa's digits, in terms of its parts.
proof fn lemma_mantissa_text(text: Seq<u8>, p: Parts)
    requires
        p.of(text, 0),
    ensures
        mantissa_text(text).len() == p.digits(),
        forall|i: int|
            0 <= i < p.int_end - p.start ==> #[trigger] mantissa_text(text)[i] == text[p.start + i],
        forall|i: int|
            p.int_end - p.start <= i < p.digits() ==> #[trigger] mantissa_text(text)[i]
                == text[i + p.start + 1],
{
}

/// The digit of the mantissa with index `i`.
fn mantissa_digit(text: &[u8], p: &Parts, i: usize) -> (d: u8)
    requires
        p.of(text@, 0),
        i < p.digits(),
    ensures
        d == mantissa_text(text@)[i as int],
        is_digit(d),
{
    proof {
        lemma_mantissa_text(text@, *p);
    }
    if i < p.int_end - p.start {
        text[p.start + i]
    } else {
        text[i + p.start + 1]
    }
}

/// The magnitude of the nearest integer, or `None` where it is above the
/// limit.
fn round_magnitude(text: &[u8], p: &Parts, point: i128) -> (r: Option<u64>)
    requires
        p.of(text@, 0),
        -40000 <= point,
        point - p.digits() <= 40000,
    ensures
        r matches Some(m) ==> m == rounded_digits(mantissa_text(text@), point as int) && m
            <= MAGNITUDE_LIMIT,
        r is None ==> rounded_digits(mantissa_text(text@), point as int) > MAGNITUDE_LIMIT,
{
    let ghost digits = mantissa_text(text@);
    proof {
        lemma_mantissa_text(text@, *p);
    }
    if point < 0 {
        return Some(0);
    }
    let count: usize = if p.point {
        p.mant_end - p.start - 1
    } else {
        p.mant_end - p.start
    };
    let stop: usize = if point >= count as i128 {
        count
    } else {
        point as usize
    };
    let mut acc: u64 = 0;
    let mut over = false;
    let mut i: usize = 0;
    while i < stop
        invariant
            i <= stop <= count,
            digits == mantissa_text(text@),
            count == digits.len(),
            count == p.digits(),
            p.of(text@, 0),
            over ==> digits_value(digits.take(i as int)) > MAGNITUDE_LIMIT,
            !over ==> acc == digits_value(digits.take(i as int)) && acc <= MAGNITUDE_LIMIT,
        decreases stop - i,
    {
        let d = mantissa_digit(text, p, i);
        proof {
            assert(digits.take(i + 1).drop_last() =~= digits.take(i as int));
            assert(digits.take(i + 1).last() == digits[i as int]);
        }
        if !over {
            let wide: u128 = acc as u128 * 10 + (d - 0x30) as u128;
            if wide > MAGNITUDE_LIMIT as u128 {
                over = true;
            } else {
                acc = wide as u64;
            }
        }
        i += 1;
    }
    if point < count as i128 {
        let d = mantissa_digit(text, p, stop);
        if over {
            return None;
        }
        if d >= 0x35 {
            if acc >= MAGNITUDE_LIMIT {
                return None;
            }
            return Some(acc + 1);
        }
        return Some(acc);
    }
    proof {
        assert(digits.take(count as int) =~= digits);
        assert(pow10(0) == 1);
        assert(digits_value(digits) * 1 == digits_value(digits)) by (nonlinear_arith);
    }
    let pad: u64 = (point - count as i128) as u64;
    let mut j: u64 = 0;
    while j < pad
        invariant
            j <= pad,
            over ==> digits_value(digits) * pow10(j as nat) > MAGNITUDE_LIMIT,
            !over ==> acc == digits_value(digits) * pow10(j as nat) && acc <= MAGNITUDE_LIMIT,
        decreases pad - j,
    {
        proof {
            let v = digits_value(digits);
            let q = pow10(j as nat);
            assert(v * (10 * q) == (v * q) * 10) by (nonlinear_arith);
        }
        if !over {
            let wide: u128 = acc as u128 * 10;
            if wide > MAGNITUDE_LIMIT as u128 {
                over = true;
            } else {
                acc = wide as u64;
            }
        }
        j += 1;
    }
    if over {
        None
    } else {
        Some(acc)
    }
}

/// The value of the digits in `text[from..to]`, which is at most the
/// exponent limit.
fn small_digits(text: &[u8], from: usize, to: usize) -> (r: i64)
    requires
        from <= to <= text@.len(),
        forall|i: int| from <= i < to ==> is_digit(#[trigger] text@[i]),
        digits_value(text@.subrange(from as int, to as int)) <= EXPONENT_LIMIT,
    ensures
        r == digits_value(text@.subrange(from as int, to as int)),
{
    let mut acc: i64 = 0;
    let mut i = from;
    proof {
        lemma_digits_value_grows(text@.subrange(from as int, to as int), 0);
    }
    while i < to
        invariant
            from <= i <= to <= text@.len(),
            forall|k: int| from <= k < to ==> is_digit(#[trigger] text@[k]),
            digits_value(text@.subrange(from as int, to as int)) <= EXPONENT_LIMIT,
            acc == digits_value(text@.subrange(from as int, i as int)),
            acc <= EXPONENT_LIMIT,
        decreases to - i,
    {
        proof {
            let whole = text@.subrange(from as int, to as int);
            let next = text@.subrange(from as int, i + 1);
            assert(next.drop_last() =~= text@.subrange(from as int, i as int));
            assert(next.last() == text@[i as int]);
            assert(whole.take(i + 1 - from) =~= next);
            lemma_digits_value_grows(whole, i + 1 - from);
        }
        acc = acc * 10 + (text[i] - 0x30) as i64;
        i += 1;
    }
    acc
}

/// The exponent of a number.
fn read_exponent(text: &[u8], p: &Parts) -> (r: i64)
    requires
        p.of(text@, 0),
        is_decimal(text@),
    ensures
        r == exponent_value(text@),
        -(EXPONENT_LIMIT as int) <= r <= EXPONENT_LIMIT,
{
    if p.exponent {
        let magnitude = small_digits(text, p.exp_start, p.exp_end);
        if text[p.mant_end + 1] == 0x2d {
            -magnitude
        } else {
            magnitude
        }
    } else {
        0
    }
}

/// Puts the sign to a magnitude.
fn signed(negative: bool, magnitude: Option<u64>) -> (r: Result<i64, ErrorCode>)
    requires
        magnitude matches Some(m) ==> m <= MAGNITUDE_LIMIT,
    ensures
        r == match magnitude {
            Some(m) => {
                let v = if negative {
                    -(m as int)
                } else {
                    m as int
                };
                if i64::MIN <= v <= i64::MAX {
                    Ok::<i64, ErrorCode>(v as i64)
                } else {
                    Err::<i64, ErrorCode>(ErrorCode::DataOutOfRange)
                }
            },
            None => Err(ErrorCode::DataOutOfRange),
        },
{
    match magnitude {
        None => Err(ErrorCode::DataOutOfRange),
        Some(m) => {
            if negative {
                if m == MAGNITUDE_LIMIT {
                    Ok(i64::MIN)
                } else {
                    Ok(-(m as i64))
                }
            } else if m == MAGNITUDE_LIMIT {
                Err(ErrorCode::DataOutOfRange)
            } else {
                Ok(m as i64)
            }
        },
    }
}

/// Rounds a decimal number, as it is written, to the nearest 64-bit
/// integer; a half is rounded away from zero.
pub fn round_decimal(text: &[u8]) -> (r: Result<i64, ErrorCode>)
    ensures
        r == rounded_i64(text@),
{
    let len = text.len();
    let parts = scan_parts(text, 0);
    let (scanned, end) = judge_parts(text, 0, &parts);
    if scanned.is_err() || end != len {
        return Err(ErrorCode::NumericDataError);
    }
    let negative = text[0] == 0x2d;
    let exponent = read_exponent(text, &parts);
    let position: i128 = (parts.int_end - parts.start) as i128 + exponent as i128;
    let magnitude = round_magnitude(text, &parts, position);
    signed(negative, magnitude)
}

/// The digits of an integer, behind its sign.
pub open spec fn integer_digits(text: Seq<u8>) -> Seq<u8> {
    text.subrange(mantissa_start(text, 0), text.len() as int)
}

/// A sign followed by digits, or digits alone, is a decimal number, and
/// rounding leaves it as it is.
pub proof fn lemma_integer_text(text: Seq<u8>)
    requires
        integer_digits(text).len() > 0,
        forall|i: int| mantissa_start(text, 0) <= i < text.len() ==> is_digit(#[trigger] text[i]),
    ensures
        is_decimal(text),
        rounded_value(text) == if text[0] == 0x2d {
            -digits_value(integer_digits(text))
        } else {
            digits_value(integer_digits(text)) as int
        },
{
    let start = mantissa_start(text, 0);
    crate::scan::lemma_run_end_is(text, start, ByteClass::Digit, text.len() as int);
    assert(integer_end(text, 0) == text.len());
    assert(!has_point(text, 0));
    assert(!has_exponent(text, 0));
    assert(mantissa_text(text) == integer_digits(text));
    assert(point_position(text) == integer_digits(text).len());
    assert(pow10(0) == 1);
    assert(digits_value(integer_digits(text)) * 1 == digits_value(integer_digits(text)))
        by (nonlinear_arith);
}

/// The value of two strings of digits put together.
proof fn lemma_digits_split(a: Seq<u8>, b: Seq<u8>)
    ensures
        digits_value(a + b) == digits_value(a) * pow10(b.len()) + digits_value(b),
    decreases b.len(),
{
    let va = digits_value(a);
    if b.len() == 0 {
        assert(a + b =~= a);
        assert(pow10(0) == 1);
        assert(va * 1 == va) by (nonlinear_arith);
    } else {
        let rest = b.drop_last();
        lemma_digits_split(a, rest);
        assert((a + b).drop_last() =~= a + rest);
        assert((a + b).last() == b.last());
        let p = pow10(rest.len());
        let vb = digits_value(rest);
        assert(pow10(b.len()) == 10 * p);
        assert((va * p + vb) * 10 == va * (10 * p) + vb * 10) by (nonlinear_arith);
    }
}

/// A string of digits stands for a number below the power of ten of its
/// length.
pub proof fn lemma_digits_bound(b: Seq<u8>)
    requires
        all_digits(b),
    ensures
        digits_value(b) < pow10(b.len()),
    decreases b.len(),
{
    if b.len() > 0 {
        let rest = b.drop_last();
        assert forall|i: int| 0 <= i < rest.len() implies is_digit(#[trigger] rest[i]) by {
            assert(rest[i] == b[i]);
        }
        lemma_digits_bound(rest);
        assert(is_digit(b[b.len() - 1]));
    }
}

/// Powers of ten multiply.
proof fn lemma_pow10_adds(a: nat, b: nat)
    ensures
        pow10(a + b) == pow10(a) * pow10(b),
    decreases b,
{
    if b == 0 {
        assert(pow10(a) * 1 == pow10(a)) by (nonlinear_arith);
    } else {
        lemma_pow10_adds(a, (b - 1) as nat);
        let x = pow10(a);
        let y = pow10((b - 1) as nat);
        assert(pow10(a + b) == 10 * pow10((a + b - 1) as nat));
        assert(10 * (x * y) == x * (10 * y)) by (nonlinear_arith);
    }
}

/// What rounding means. Where the decimal point lies before the end of the
/// digits, the digits stand for the number `v / p`, with `v` the value of
/// all digits and `p` the power of ten of the number of digits behind the
/// point, and the rounded number `r` is the integer nearest to it, a half
/// rounded up: `r <= v / p + 1/2 < r + 1`.
pub proof fn lemma_rounded_is_nearest(digits: Seq<u8>, point: int)
    requires
        all_digits(digits),
        point < digits.len(),
    ensures
        ({
            let v = digits_value(digits);
            let p = pow10((digits.len() - point) as nat);
            let r = rounded_digits(digits, point);
            2 * r * p <= 2 * v + p < 2 * (r + 1) * p
        }),
{
    let v = digits_value(digits);
    let k = (digits.len() - point) as nat;
    let p = pow10(k);
    let r = rounded_digits(digits, point);
    lemma_pow10_positive(k);
    if point < 0 {
        lemma_digits_bound(digits);
        let extra = (k - digits.len()) as nat;
        lemma_pow10_adds(digits.len(), extra);
        lemma_pow10_positive((extra - 1) as nat);
        let q = pow10(digits.len());
        let e = pow10(extra);
        assert(e >= 10);
        assert(p == q * e);
        assert(2 * v < q * e) by (nonlinear_arith)
            requires
                v < q,
                e >= 10,
        ;
        assert(2 * 0 * p == 0) by (nonlinear_arith);
        assert(2 * (0 + 1) * p == 2 * p) by (nonlinear_arith);
    } else {
        let head = digits.take(point);
        let tail = digits.skip(point);
        assert(digits =~= head + tail);
        lemma_digits_split(head, tail);
        let h = digits_value(head);
        let l = digits_value(tail);
        assert(tail.len() == k);
        assert forall|i: int| 0 <= i < tail.len() implies is_digit(#[trigger] tail[i]) by {
            assert(tail[i] == digits[point + i]);
        }
        lemma_digits_bound(tail);
        let first = seq![tail[0]];
        let rest = tail.drop_first();
        assert(tail =~= first + rest);
        lemma_digits_split(first, rest);
        assert forall|i: int| 0 <= i < rest.len() implies is_digit(#[trigger] rest[i]) by {
            assert(rest[i] == tail[i + 1]);
        }
        lemma_digits_bound(rest);
        assert(first.drop_last() =~= Seq::<u8>::empty());
        assert(digits_value(first.drop_last()) == 0);
        assert(first.last() == tail[0]);
        assert(tail[0] == digits[point]);
        assert(is_digit(tail[0]));
        assert(digits_value(first) == tail[0] - 0x30);
        let d = (tail[0] - 0x30) as int;
        let q = pow10(rest.len());
        let m = digits_value(rest);
        assert(p == 10 * q);
        assert(l == d * q + m);
        assert(v == h * p + l);
        assert(tail[0] == digits[point]);
        assert(is_digit(tail[0]));
        if digits[point] >= 0x35 {
            assert(r == h + 1);
            assert(2 * (h + 1) * (10 * q) <= 2 * (h * (10 * q) + (d * q + m)) + 10 * q)
                by (nonlinear_arith)
                requires
                    d >= 5,
                    m >= 0,
                    q >= 0,
            ;
            assert(2 * (h * (10 * q) + (d * q + m)) + 10 * q < 2 * (h + 1 + 1) * (10 * q))
                by (nonlinear_arith)
                requires
                    d <= 9,
                    m < q,
            ;
        } else {
            assert(r == h);
            assert(2 * h * (10 * q) <= 2 * (h * (10 * q) + (d * q + m)) + 10 * q)
                by (nonlinear_arith)
                requires
                    d >= 0,
                    m >= 0,
                    q >= 0,
            ;
            assert(2 * (h * (10 * q) + (d * q + m)) + 10 * q < 2 * (h + 1) * (10 * q))
                by (nonlinear_arith)
                requires
                    d <= 4,
                    m < q,
            ;
        }
    }
}

/// The mantissa of a number holds digits only.
proof fn lemma_mantissa_digits(text: Seq<u8>)
    ensures
        all_digits(mantissa_text(text)),
{
    let start = mantissa_start(text, 0);
    lemma_run_end(text, start, ByteClass::Digit);
    let int_end = integer_end(text, 0);
    if has_point(text, 0) {
        lemma_run_end(text, int_end + 1, ByteClass::Digit);
    }
    let m = mantissa_text(text);
    assert forall|i: int| 0 <= i < m.len() implies is_digit(#[trigger] m[i]) by {
        if i < int_end - start {
            assert(m[i] == text[start + i]);
        } else {
            assert(m[i] == text[i + start + 1]);
        }
    }
}

/// What the rounding of a number means. Where digits stand behind the
/// decimal point once the exponent is applied, the magnitude of the number
/// is `v / p`, with `v` the value of the digits of the mantissa and `p` the
/// power of ten of the number of digits behind the point, and the magnitude
/// `r` of the rounded number is the integer nearest to it, a half rounded
/// up: `r <= v / p + 1/2 < r + 1`. Where no digit stands behind the point,
/// the number is an integer and stays as it is.
pub proof fn lemma_rounded_value(text: Seq<u8>)
    ensures
        ({
            let digits = mantissa_text(text);
            let point = point_position(text);
            let v = digits_value(digits);
            let r = rounded_digits(digits, point);
            if point < digits.len() {
                let p = pow10((digits.len() - point) as nat);
                2 * r * p <= 2 * v + p < 2 * (r + 1) * p
            } else {
                r == v * pow10((point - digits.len()) as nat)
            }
        }),
        rounded_value(text) == if text.len() > 0 && text[0] == 0x2d {
            -rounded_digits(mantissa_text(text), point_position(text))
        } else {
            rounded_digits(mantissa_text(text), point_position(text)) as int
        },
{
    lemma_mantissa_digits(text);
    if point_position(text) < mantissa_text(text).len() {
        lemma_rounded_is_nearest(mantissa_text(text), point_position(text));
    }
}

} // verus!

//! Typed values taken out of tokens.

use vstd::prelude::*;
use vstd::string::StringSliceAdditionalSpecFns;
use vstd::utf8::valid_utf8;
use crate::decimal::{is_decimal, round_decimal, rounded_value};
use crate::error::{Error, ErrorCode};
use crate::mnemonic::mnemonic_matches;
use crate::lexis::LexState;
use crate::token::{Token, TokenView};
use crate::tokenizer::Tokenizer;

verus! {

/// The integer between `min` and `max` that a token stands for.
///
/// A decimal number is rounded to the nearest integer, a half away from
/// zero; a number in another radix is taken as it is. A number outside the
/// range is an error, a token of another kind of data is of the wrong type,
/// and a token that is no data at all is a syntax error.
pub open spec fn integer_of(token: TokenView, min: int, max: int) -> Result<int, ErrorCode> {
    match token {
        TokenView::DecimalNumericProgramData(text) => if !is_decimal(text) {
            Err(ErrorCode::NumericDataError)
        } else if min <= rounded_value(text) <= max {
            Ok(rounded_value(text))
        } else {
            Err(ErrorCode::DataOutOfRange)
        },
        TokenView::NonDecimalNumericProgramData(value) => if min <= value <= max {
            Ok(value as int)
        } else {
            Err(ErrorCode::DataOutOfRange)
        },
        TokenView::SuffixProgramData(_)
        | TokenView::CharacterProgramData(_)
        | TokenView::StringProgramData(_)
        | TokenView::ArbitraryBlockData(_) => Err(ErrorCode::DataTypeError),
        _ => Err(ErrorCode::SyntaxError),
    }
}

/// The bytes of a string that a token stands for.
pub open spec fn bytes_of(token: TokenView) -> Result<Seq<u8>, ErrorCode> {
    match token {
        TokenView::StringProgramData(bytes) => Ok(bytes),
        TokenView::SuffixProgramData(_)
        | TokenView::NonDecimalNumericProgramData(_)
        | TokenView::DecimalNumericProgramData(_)
        | TokenView::ArbitraryBlockData(_)
        | TokenView::CharacterProgramData(_) => Err(ErrorCode::DataTypeError),
        _ => Err(ErrorCode::SyntaxError),
    }
}

/// The UTF-8 encoding of the text that a token stands for: the bytes of a
/// string or a block where they are valid UTF-8, or the text of a UTF-8
/// block.
pub open spec fn text_of(token: TokenView) -> Result<Seq<u8>, ErrorCode> {
    match token {
        TokenView::StringProgramData(bytes) | TokenView::ArbitraryBlockData(bytes) => if valid_utf8(
            bytes,
        ) {
            Ok(bytes)
        } else {
            Err(ErrorCode::StringDataError)
        },
        TokenView::Utf8BlockData(bytes) => Ok(bytes),
        TokenView::SuffixProgramData(_)
        | TokenView::NonDecimalNumericProgramData(_)
        | TokenView::DecimalNumericProgramData(_)
        | TokenView::CharacterProgramData(_) => Err(ErrorCode::DataTypeError),
        _ => Err(ErrorCode::SyntaxError),
    }
}

/// The payload of the arbitrary block that a token stands for.
pub open spec fn block_of(token: TokenView) -> Result<Seq<u8>, ErrorCode> {
    match token {
        TokenView::ArbitraryBlockData(bytes) => Ok(bytes),
        TokenView::StringProgramData(_)
        | TokenView::SuffixProgramData(_)
        | TokenView::NonDecimalNumericProgramData(_)
        | TokenView::DecimalNumericProgramData(_)
        | TokenView::Utf8BlockData(_)
        | TokenView::CharacterProgramData(_) => Err(ErrorCode::DataTypeError),
        _ => Err(ErrorCode::SyntaxError),
    }
}

/// Whether the result `r` of a conversion is the integer `expected`, or the
/// error with the expected code.
pub open spec fn is_integer_result(r: Result<int, Error>, expected: Result<int, ErrorCode>) -> bool {
    match (r, expected) {
        (Ok(v), Ok(w)) => v == w,
        (Err(error), Err(code)) => error.code == code,
        _ => false,
    }
}

/// Whether the result `r` of a conversion holds the bytes `expected`, or
/// the error with the expected code.
pub open spec fn is_bytes_result(r: Result<Seq<u8>, Error>, expected: Result<Seq<u8>, ErrorCode>) -> bool {
    match (r, expected) {
        (Ok(v), Ok(w)) => v == w,
        (Err(error), Err(code)) => error.code == code,
        _ => false,
    }
}

/// Calls `core::str::from_utf8`, which hands the bytes back as text where
/// they are valid UTF-8 and fails where they are not.
#[verifier::external_body]
pub(crate) fn utf8_text<'a>(bytes: &'a [u8]) -> (r: Option<&'a str>)
    ensures
        r is Some <==> valid_utf8(bytes@),
        r matches Some(text) ==> text.spec_bytes() == bytes@,
{
    core::str::from_utf8(bytes).ok()
}

/// The payload of an arbitrary block.
#[derive(Debug, PartialEq, Clone, Copy)]
pub struct Arbitrary<'a>(pub &'a [u8]);

impl<'a> Token<'a> {
    /// The integer between `min` and `max` that the token stands for.
    pub fn to_integer(self, min: i64, max: i64) -> (r: Result<i64, Error>)
        ensures
            is_integer_result(
                match r {
                    Ok(v) => Ok(v as int),
                    Err(e) => Err(e),
                },
                integer_of(self@, min as int, max as int),
            ),
    {
        match self {
            Token::DecimalNumericProgramData(text) => match round_decimal(text) {
                Ok(value) => if min <= value && value <= max {
                    Ok(value)
                } else {
                    Err(Error::new(ErrorCode::DataOutOfRange))
                },
                Err(code) => Err(Error::new(code)),
            },
            Token::NonDecimalNumericProgramData(value) => {
                let wide = value as i64;
                if min <= wide && wide <= max {
                    Ok(wide)
                } else {
                    Err(Error::new(ErrorCode::DataOutOfRange))
                }
            },
            Token::SuffixProgramData(_)
            | Token::CharacterProgramData(_)
            | Token::StringProgramData(_)
            | Token::ArbitraryBlockData(_) => Err(Error::new(ErrorCode::DataTypeError)),
            _ => Err(Error::new(ErrorCode::SyntaxError)),
        }
    }

    /// The bytes of the string that the token is.
    pub fn to_bytes(self) -> (r: Result<&'a [u8], Error>)
        ensures
            is_bytes_result(
                match r {
                    Ok(v) => Ok(v@),
                    Err(e) => Err(e),
                },
                bytes_of(self@),
            ),
    {
        match self {
            Token::StringProgramData(bytes) => Ok(bytes),
            Token::SuffixProgramData(_)
            | Token::NonDecimalNumericProgramData(_)
            | Token::DecimalNumericProgramData(_)
            | Token::ArbitraryBlockData(_)
            | Token::CharacterProgramData(_) => Err(Error::new(ErrorCode::DataTypeError)),
            _ => Err(Error::new(ErrorCode::SyntaxError)),
        }
    }

    /// The text that the token holds: that of a UTF-8 block, or the bytes
    /// of a string or an arbitrary block where they are valid UTF-8.
    pub fn to_str(self) -> (r: Result<&'a str, Error>)
        ensures
            is_bytes_result(
                match r {
                    Ok(v) => Ok(v.spec_bytes()),
                    Err(e) => Err(e),
                },
                text_of(self@),
            ),
    {
        match self {
            Token::StringProgramData(bytes) | Token::ArbitraryBlockData(bytes) => match utf8_text(
                bytes,
            ) {
                Some(text) => Ok(text),
                None => Err(Error::new(ErrorCode::StringDataError)),
            },
            Token::Utf8BlockData(text) => Ok(text),
            Token::SuffixProgramData(_)
            | Token::NonDecimalNumericProgramData(_)
            | Token::DecimalNumericProgramData(_)
            | Token::CharacterProgramData(_) => Err(Error::new(ErrorCode::DataTypeError)),
            _ => Err(Error::new(ErrorCode::SyntaxError)),
        }
    }

    /// The payload of the arbitrary block that the token is.
    pub fn to_arbitrary(self) -> (r: Result<Arbitrary<'a>, Error>)
        ensures
            is_bytes_result(
                match r {
                    Ok(v) => Ok(v.0@),
                    Err(e) => Err(e),
                },
                block_of(self@),
            ),
    {
        match self {
            Token::StringProgramData(_)
            | Token::SuffixProgramData(_)
            | Token::NonDecimalNumericProgramData(_)
            | Token::DecimalNumericProgramData(_)
            | Token::Utf8BlockData(_)
            | Token::CharacterProgramData(_) => Err(Error::new(ErrorCode::DataTypeError)),
            Token::ArbitraryBlockData(bytes) => Ok(Arbitrary(bytes)),
            _ => Err(Error::new(ErrorCode::SyntaxError)),
        }
    }
}

/// A type of integer that a token can be converted to.
pub trait TokenInteger: Sized + Copy {
    /// The value as a mathematical integer.
    spec fn value(self) -> int;

    /// The least value of the type.
    spec fn least() -> int;

    /// The greatest value of the type that a token can give.
    spec fn greatest() -> int;

    /// The integer that the token stands for, if it is one of this type.
    fn from_token(token: Token<'_>) -> (r: Result<Self, Error>)
        ensures
            is_integer_result(
                match r {
                    Ok(v) => Ok(v.value()),
                    Err(e) => Err(e),
                },
                integer_of(token@, Self::least(), Self::greatest()),
            ),
    ;

    /// Whether the value lies between `min` and `max`.
    fn within(self, min: Self, max: Self) -> (r: bool)
        ensures
            r == (min.value() <= self.value() <= max.value()),
    ;
}

impl TokenInteger for u8 {
    open spec fn value(self) -> int {
        self as int
    }

    open spec fn least() -> int {
        0
    }

    open spec fn greatest() -> int {
        0xff
    }

    fn from_token(token: Token<'_>) -> (r: Result<Self, Error>) {
        match token.to_integer(0, 0xff) {
            Ok(v) => Ok(v as u8),
            Err(e) => Err(e),
        }
    }

    fn within(self, min: Self, max: Self) -> (r: bool) {
        min <= self && self <= max
    }
}

impl TokenInteger for i8 {
    open spec fn value(self) -> int {
        self as int
    }

    open spec fn least() -> int {
        -0x80
    }

    open spec fn greatest() -> int {
        0x7f
    }

    fn from_token(token: Token<'_>) -> (r: Result<Self, Error>) {
        match token.to_integer(-0x80, 0x7f) {
            Ok(v) => Ok(v as i8),
            Err(e) => Err(e),
        }
    }

    fn within(self, min: Self, max: Self) -> (r: bool) {
        min <= self && self <= max
    }
}

impl TokenInteger for u16 {
    open spec fn value(self) -> int {
        self as int
    }

    open spec fn least() -> int {
        0
    }

    open spec fn greatest() -> int {
        0xffff
    }

    fn from_token(token: Token<'_>) -> (r: Result<Self, Error>) {
        match token.to_integer(0, 0xffff) {
            Ok(v) => Ok(v as u16),
            Err(e) => Err(e),
        }
    }

    fn within(self, min: Self, max: Self) -> (r: bool) {
        min <= self && self <= max
    }
}

impl TokenInteger for i16 {
    open spec fn value(self) -> int {
        self as int
    }

    open spec fn least() -> int {
        -0x8000
    }

    open spec fn greatest() -> int {
        0x7fff
    }

    fn from_token(token: Token<'_>) -> (r: Result<Self, Error>) {
        match token.to_integer(-0x8000, 0x7fff) {
            Ok(v) => Ok(v as i16),
            Err(e) => Err(e),
        }
    }

    fn within(self, min: Self, max: Self) -> (r: bool) {
        min <= self && self <= max
    }
}

impl TokenInteger for u32 {
    open spec fn value(self) -> int {
        self as int
    }

    open spec fn least() -> int {
        0
    }

    open spec fn greatest() -> int {
        0xffff_ffff
    }

    fn from_token(token: Token<'_>) -> (r: Result<Self, Error>) {
        match token.to_integer(0, 0xffff_ffff) {
            Ok(v) => Ok(v as u32),
            Err(e) => Err(e),
        }
    }

    fn within(self, min: Self, max: Self) -> (r: bool) {
        min <= self && self <= max
    }
}

impl TokenInteger for i32 {
    open spec fn value(self) -> int {
        self as int
    }

    open spec fn least() -> int {
        -0x8000_0000
    }

    open spec fn greatest() -> int {
        0x7fff_ffff
    }

    fn from_token(token: Token<'_>) -> (r: Result<Self, Error>) {
        match token.to_integer(-0x8000_0000, 0x7fff_ffff) {
            Ok(v) => Ok(v as i32),
            Err(e) => Err(e),
        }
    }

    fn within(self, min: Self, max: Self) -> (r: bool) {
        min <= self && self <= max
    }
}

impl TokenInteger for usize {
    open spec fn value(self) -> int {
        self as int
    }

    open spec fn least() -> int {
        0
    }

    open spec fn greatest() -> int {
        if usize::MAX < i64::MAX {
            usize::MAX as int
        } else {
            i64::MAX as int
        }
    }

    fn from_token(token: Token<'_>) -> (r: Result<Self, Error>) {
        let max: i64 = if usize::MAX as u64 <= 0x7fff_ffff_ffff_ffff {
            usize::MAX as i64
        } else {
            i64::MAX
        };
        match token.to_integer(0, max) {
            Ok(v) => Ok(v as usize),
            Err(e) => Err(e),
        }
    }

    fn within(self, min: Self, max: Self) -> (r: bool) {
        min <= self && self <= max
    }
}

impl TokenInteger for isize {
    open spec fn value(self) -> int {
        self as int
    }

    open spec fn least() -> int {
        isize::MIN as int
    }

    open spec fn greatest() -> int {
        isize::MAX as int
    }

    fn from_token(token: Token<'_>) -> (r: Result<Self, Error>) {
        match token.to_integer(isize::MIN as i64, isize::MAX as i64) {
            Ok(v) => Ok(v as isize),
            Err(e) => Err(e),
        }
    }

    fn within(self, min: Self, max: Self) -> (r: bool) {
        min <= self && self <= max
    }
}

/// The special values that may stand in the place of a number.
pub enum NumericValues<'a> {
    Maximum,
    Minimum,
    Default,
    Up,
    Down,
    Numeric(Token<'a>),
}

/// `MAXimum`.
pub open spec fn maximum_word() -> Seq<u8> {
    seq![0x4du8, 0x41u8, 0x58u8, 0x69u8, 0x6du8, 0x75u8, 0x6du8]
}

/// `MINimum`.
pub open spec fn minimum_word() -> Seq<u8> {
    seq![0x4du8, 0x49u8, 0x4eu8, 0x69u8, 0x6du8, 0x75u8, 0x6du8]
}

/// `DEFault`.
pub open spec fn default_word() -> Seq<u8> {
    seq![0x44u8, 0x45u8, 0x46u8, 0x61u8, 0x75u8, 0x6cu8, 0x74u8]
}

/// `UP`.
pub open spec fn up_word() -> Seq<u8> {
    seq![0x55u8, 0x50u8]
}

/// `DOWN`.
pub open spec fn down_word() -> Seq<u8> {
    seq![0x44u8, 0x4fu8, 0x57u8, 0x4eu8]
}

/// The special value that character data names, in its short or its long
/// form.
pub open spec fn numeric_word<'a>(s: Seq<u8>) -> Option<NumericValues<'a>> {
    if mnemonic_matches(maximum_word(), s) {
        Some(NumericValues::Maximum)
    } else if mnemonic_matches(minimum_word(), s) {
        Some(NumericValues::Minimum)
    } else if mnemonic_matches(default_word(), s) {
        Some(NumericValues::Default)
    } else if mnemonic_matches(up_word(), s) {
        Some(NumericValues::Up)
    } else if mnemonic_matches(down_word(), s) {
        Some(NumericValues::Down)
    } else {
        None
    }
}

/// Finds the special value that character data names.
pub fn find_numeric_word<'a>(s: &[u8]) -> (r: Option<NumericValues<'a>>)
    ensures
        r == numeric_word::<'a>(s@),
{
    let maximum: [u8; 7] = [0x4d, 0x41, 0x58, 0x69, 0x6d, 0x75, 0x6d];
    let minimum: [u8; 7] = [0x4d, 0x49, 0x4e, 0x69, 0x6d, 0x75, 0x6d];
    let default: [u8; 7] = [0x44, 0x45, 0x46, 0x61, 0x75, 0x6c, 0x74];
    let up: [u8; 2] = [0x55, 0x50];
    let down: [u8; 4] = [0x44, 0x4f, 0x57, 0x4e];
    proof {
        assert(maximum@ =~= maximum_word());
        assert(minimum@ =~= minimum_word());
        assert(default@ =~= default_word());
        assert(up@ =~= up_word());
        assert(down@ =~= down_word());
    }
    if Token::mnemonic_compare(maximum.as_slice(), s) {
        Some(NumericValues::Maximum)
    } else if Token::mnemonic_compare(minimum.as_slice(), s) {
        Some(NumericValues::Minimum)
    } else if Token::mnemonic_compare(default.as_slice(), s) {
        Some(NumericValues::Default)
    } else if Token::mnemonic_compare(up.as_slice(), s) {
        Some(NumericValues::Up)
    } else if Token::mnemonic_compare(down.as_slice(), s) {
        Some(NumericValues::Down)
    } else {
        None
    }
}

/// The special value that a token names, if it is character data that names
/// one.
pub open spec fn special_of<'a>(token: TokenView) -> Option<NumericValues<'a>> {
    match token {
        TokenView::CharacterProgramData(s) => numeric_word(s),
        _ => None,
    }
}

/// Whether `r` is what a token gives as a number of type `R`.
pub open spec fn is_numeric_of<R: TokenInteger>(token: TokenView, r: Result<R, Error>) -> bool {
    is_integer_result(
        match r {
            Ok(v) => Ok(v.value()),
            Err(e) => Err(e),
        },
        integer_of(token, R::least(), R::greatest()),
    )
}

/// What the check of a range makes of a value: the value where it lies
/// between `min` and `max`, an error where it does not, and an earlier error
/// as it is.
pub open spec fn range_checked<R: TokenInteger>(value: Result<R, Error>, min: R, max: R) -> Result<
    R,
    Error,
> {
    match value {
        Ok(v) => if min.value() <= v.value() <= max.value() {
            Ok(v)
        } else {
            Err(Error { code: ErrorCode::DataOutOfRange })
        },
        Err(e) => Err(e),
    }
}

/// Checks that a value lies between `min` and `max`.
pub fn check_range<R: TokenInteger>(value: Result<R, Error>, min: R, max: R) -> (r: Result<
    R,
    Error,
>)
    ensures
        r == range_checked(value, min, max),
{
    match value {
        Ok(v) => if v.within(min, max) {
            Ok(v)
        } else {
            Err(Error::new(ErrorCode::DataOutOfRange))
        },
        Err(e) => Err(e),
    }
}

impl<'a> Token<'a> {
    /// Hands character data to `special`, which may put another token in
    /// its place or refuse it. Any other token is returned as it is.
    pub fn map_character_data<F>(self, special: F) -> (r: Result<Token<'a>, Error>) where
        F: FnOnce(&'a [u8]) -> Result<Token<'a>, Error>,

        requires
            self matches Token::CharacterProgramData(s) ==> call_requires(special, (s,)),
        ensures
            match self {
                Token::CharacterProgramData(s) => call_ensures(special, (s,), r),
                _ => r == Ok::<Token<'a>, Error>(self),
            },
    {
        match self {
            Token::CharacterProgramData(s) => special(s),
            _ => Ok(self),
        }
    }

    /// Reads the token as a number of type `R`. Character data that names
    /// one of the special values `MAXimum`, `MINimum`, `DEFault`, `UP` and
    /// `DOWN` is resolved by `num`; any other token is converted.
    pub fn numeric<F, R>(self, num: F) -> (r: Result<R, Error>) where
        F: FnOnce(NumericValues<'a>) -> Result<R, Error>,
        R: TokenInteger,

        requires
            special_of::<'a>(self@) matches Some(kind) ==> call_requires(num, (kind,)),
        ensures
            match special_of::<'a>(self@) {
                Some(kind) => call_ensures(num, (kind,), r),
                None => is_numeric_of(self@, r),
            },
    {
        match self {
            Token::CharacterProgramData(s) => match find_numeric_word(s) {
                Some(kind) => num(kind),
                None => R::from_token(self),
            },
            _ => R::from_token(self),
        }
    }

    /// Reads the token as a number as `numeric` does, and checks that the
    /// value lies between `min` and `max`.
    pub fn numeric_range<F, R>(self, min: R, max: R, num: F) -> (r: Result<R, Error>) where
        F: FnOnce(NumericValues<'a>) -> Result<R, Error>,
        R: TokenInteger,

        requires
            special_of::<'a>(self@) matches Some(kind) ==> call_requires(num, (kind,)),
        ensures
            exists|value: Result<R, Error>|
                {
                    &&& r == range_checked(value, min, max)
                    &&& match special_of::<'a>(self@) {
                        Some(kind) => call_ensures(num, (kind,), value),
                        None => is_numeric_of(self@, value),
                    }
                },
    {
        let value = self.numeric(num);
        check_range(value, min, max)
    }
}

impl LexState {
    /// What reading an integer between `min` and `max` does: the next data
    /// item is consumed as `data_step` says, and converted.
    pub open spec fn integer_step(self, min: int, max: int) -> (Result<int, ErrorCode>, LexState) {
        (
            match self.data_step(false).0 {
                Ok(Some(token)) => integer_of(token, min, max),
                Ok(None) => Err(ErrorCode::MissingParameter),
                Err(code) => Err(code),
            },
            self.data_step(false).1,
        )
    }
}

/// Reads the next data item, which must be there, as an integer of type
/// `R`.
pub fn next_integer<R: TokenInteger>(args: &mut Tokenizer<'_>) -> (r: Result<R, Error>)
    ensures
        final(args)@ == old(args)@.integer_step(R::least(), R::greatest()).1,
        is_integer_result(
            match r {
                Ok(v) => Ok(v.value()),
                Err(e) => Err(e),
            },
            old(args)@.integer_step(R::least(), R::greatest()).0,
        ),
{
    match args.next_data(false) {
        Ok(Some(token)) => R::from_token(token),
        Ok(None) => Err(Error::new(ErrorCode::MissingParameter)),
        Err(code) => Err(Error::new(code)),
    }
}

/// The words that name a value that is no finite number.
#[derive(Clone, Copy, Debug, PartialEq, Eq, Structural)]
pub enum FloatWord {
    /// `INFinity`.
    Infinity,
    /// `NINFinity`.
    NegInfinity,
    /// `NAN`.
    NotANumber,
}

/// What a floating-point value is to be made from: the text of a decimal
/// number, or a word that names a value.
#[derive(Clone, Copy, Debug, PartialEq)]
pub enum FloatSource<'a> {
    Text(&'a [u8]),
    Word(FloatWord),
}

/// The model of what a floating-point value is to be made from.
pub enum FloatSourceView {
    Text(Seq<u8>),
    Word(FloatWord),
}

impl<'a> View for FloatSource<'a> {
    type V = FloatSourceView;

    open spec fn view(&self) -> FloatSourceView {
        match *self {
            FloatSource::Text(text) => FloatSourceView::Text(text@),
            FloatSource::Word(word) => FloatSourceView::Word(word),
        }
    }
}

/// `INFinity`.
pub open spec fn infinity_word() -> Seq<u8> {
    seq![0x49u8, 0x4eu8, 0x46u8, 0x69u8, 0x6eu8, 0x69u8, 0x74u8, 0x79u8]
}

/// `NINFinity`.
pub open spec fn negative_infinity_word() -> Seq<u8> {
    seq![0x4eu8, 0x49u8, 0x4eu8, 0x46u8, 0x69u8, 0x6eu8, 0x69u8, 0x74u8, 0x79u8]
}

/// `NAN`.
pub open spec fn not_a_number_word() -> Seq<u8> {
    seq![0x4eu8, 0x41u8, 0x4eu8]
}

/// The value that character data names, in its short or its long form.
pub open spec fn float_word(s: Seq<u8>) -> Option<FloatWord> {
    if mnemonic_matches(infinity_word(), s) {
        Some(FloatWord::Infinity)
    } else if mnemonic_matches(negative_infinity_word(), s) {
        Some(FloatWord::NegInfinity)
    } else if mnemonic_matches(not_a_number_word(), s) {
        Some(FloatWord::NotANumber)
    } else {
        None
    }
}

/// Finds the value that character data names.
pub fn find_float_word(s: &[u8]) -> (r: Option<FloatWord>)
    ensures
        r == float_word(s@),
{
    let infinity: [u8; 8] = [0x49, 0x4e, 0x46, 0x69, 0x6e, 0x69, 0x74, 0x79];
    let negative: [u8; 9] = [0x4e, 0x49, 0x4e, 0x46, 0x69, 0x6e, 0x69, 0x74, 0x79];
    let nan: [u8; 3] = [0x4e, 0x41, 0x4e];
    proof {
        assert(infinity@ =~= infinity_word());
        assert(negative@ =~= negative_infinity_word());
        assert(nan@ =~= not_a_number_word());
    }
    if Token::mnemonic_compare(infinity.as_slice(), s) {
        Some(FloatWord::Infinity)
    } else if Token::mnemonic_compare(negative.as_slice(), s) {
        Some(FloatWord::NegInfinity)
    } else if Token::mnemonic_compare(nan.as_slice(), s) {
        Some(FloatWord::NotANumber)
    } else {
        None
    }
}

/// What a token gives to make a floating-point value from: the text of a
/// decimal number, or the value that character data names. Character data
/// that names none and data of another kind are of the wrong type, and a
/// token that is no data at all is a syntax error.
pub open spec fn float_source_of(token: TokenView) -> Result<FloatSourceView, ErrorCode> {
    match token {
        TokenView::DecimalNumericProgramData(text) => Ok(FloatSourceView::Text(text)),
        TokenView::CharacterProgramData(s) => match float_word(s) {
            Some(word) => Ok(FloatSourceView::Word(word)),
            None => Err(ErrorCode::DataTypeError),
        },
        TokenView::SuffixProgramData(_)
        | TokenView::NonDecimalNumericProgramData(_)
        | TokenView::StringProgramData(_)
        | TokenView::ArbitraryBlockData(_) => Err(ErrorCode::DataTypeError),
        _ => Err(ErrorCode::SyntaxError),
    }
}

/// Whether the result `r` of a conversion is the source `expected`, or the
/// error with the expected code.
pub open spec fn is_float_source<'a>(
    r: Result<FloatSource<'a>, Error>,
    expected: Result<FloatSourceView, ErrorCode>,
) -> bool {
    match (r, expected) {
        (Ok(source), Ok(view)) => source@ == view,
        (Err(error), Err(code)) => error.code == code,
        _ => false,
    }
}

impl<'a> Token<'a> {
    /// What the token gives to make a floating-point value from.
    pub fn to_float_source(self) -> (r: Result<FloatSource<'a>, Error>)
        ensures
            is_float_source(r, float_source_of(self@)),
    {
        match self {
            Token::DecimalNumericProgramData(text) => Ok(FloatSource::Text(text)),
            Token::CharacterProgramData(s) => match find_float_word(s) {
                Some(word) => Ok(FloatSource::Word(word)),
                None => Err(Error::new(ErrorCode::DataTypeError)),
            },
            Token::SuffixProgramData(_)
            | Token::NonDecimalNumericProgramData(_)
            | Token::StringProgramData(_)
            | Token::ArbitraryBlockData(_) => Err(Error::new(ErrorCode::DataTypeError)),
            _ => Err(Error::new(ErrorCode::SyntaxError)),
        }
    }
}

} // verus!

use scpi::chars::ascii_to_digit;
use scpi::decimal::round_decimal;
use scpi::error::{Error, ErrorCode, ESR_COMMAND_ERROR, ESR_DEVICE_ERROR, ESR_EXECUTION_ERROR, ESR_QUERY_ERROR};
use scpi::token::Token;
use scpi::tokenizer::Tokenizer;
use scpi::value::{
    check_range, find_float_word, find_numeric_word, next_integer, Arbitrary, FloatSource,
    FloatWord, NumericValues, TokenInteger,
};

fn rounded(text: &[u8]) -> Result<i64, ErrorCode> {
    round_decimal(text)
}

#[test]
fn decimal_rounds_half_away_from_zero() {
    assert_eq!(rounded(b"0"), Ok(0));
    assert_eq!(rounded(b"25"), Ok(25));
    assert_eq!(rounded(b"-10."), Ok(-10));
    assert_eq!(rounded(b".2"), Ok(0));
    assert_eq!(rounded(b".5"), Ok(1));
    assert_eq!(rounded(b"-.5"), Ok(-1));
    assert_eq!(rounded(b"0.49999999999999999999999"), Ok(0));
    assert_eq!(rounded(b"1.5"), Ok(2));
    assert_eq!(rounded(b"2.5"), Ok(3));
    assert_eq!(rounded(b"-2.5"), Ok(-3));
    assert_eq!(rounded(b"2.4999"), Ok(2));
    assert_eq!(rounded(b"1.E5"), Ok(100000));
    assert_eq!(rounded(b"-25e5"), Ok(-2500000));
    assert_eq!(rounded(b"25E-2"), Ok(0));
    assert_eq!(rounded(b"75E-2"), Ok(1));
    assert_eq!(rounded(b".1E2"), Ok(10));
    assert_eq!(rounded(b"+1234.5678e2"), Ok(123457));
    assert_eq!(rounded(b"1234.5678e-2"), Ok(12));
    assert_eq!(rounded(b"1234.5678e-4"), Ok(0));
    assert_eq!(rounded(b"5e-1"), Ok(1));
    assert_eq!(rounded(b"5e-2"), Ok(0));
    assert_eq!(rounded(b"9e-32000"), Ok(0));
    assert_eq!(rounded(b"0e32000"), Ok(0));
    assert_eq!(rounded(b"0000000000000000000000000000012"), Ok(12));
    assert_eq!(rounded(b"16777217"), Ok(16777217));
}

#[test]
fn decimal_is_checked_against_sixty_four_bits() {
    assert_eq!(rounded(b"9223372036854775807"), Ok(i64::MAX));
    assert_eq!(rounded(b"9223372036854775807.4"), Ok(i64::MAX));
    assert_eq!(rounded(b"9223372036854775807.5"), Err(ErrorCode::DataOutOfRange));
    assert_eq!(rounded(b"9223372036854775808"), Err(ErrorCode::DataOutOfRange));
    assert_eq!(rounded(b"-9223372036854775808"), Ok(i64::MIN));
    assert_eq!(rounded(b"-9223372036854775808.4"), Ok(i64::MIN));
    assert_eq!(rounded(b"-9223372036854775808.5"), Err(ErrorCode::DataOutOfRange));
    assert_eq!(rounded(b"-9223372036854775809"), Err(ErrorCode::DataOutOfRange));
    assert_eq!(rounded(b"1e19"), Err(ErrorCode::DataOutOfRange));
    assert_eq!(rounded(b"1e18"), Ok(1_000_000_000_000_000_000));
    assert_eq!(rounded(b"1e32000"), Err(ErrorCode::DataOutOfRange));
    assert_eq!(rounded(b"99999999999999999999999999999999"), Err(ErrorCode::DataOutOfRange));
}

#[test]
fn malformed_decimal_is_refused() {
    assert_eq!(rounded(b""), Err(ErrorCode::NumericDataError));
    assert_eq!(rounded(b"+"), Err(ErrorCode::NumericDataError));
    assert_eq!(rounded(b"."), Err(ErrorCode::NumericDataError));
    assert_eq!(rounded(b"1e"), Err(ErrorCode::NumericDataError));
    assert_eq!(rounded(b"1 "), Err(ErrorCode::NumericDataError));
    assert_eq!(rounded(b"1x"), Err(ErrorCode::NumericDataError));
    assert_eq!(rounded(b"1e32001"), Err(ErrorCode::NumericDataError));
    assert_eq!(rounded(b"abc"), Err(ErrorCode::NumericDataError));
}

#[test]
fn integers_are_converted_within_their_range() {
    assert_eq!(u8::from_token(Token::DecimalNumericProgramData(b"255")), Ok(255));
    assert_eq!(u8::from_token(Token::DecimalNumericProgramData(b"255.4")), Ok(255));
    assert_eq!(
        u8::from_token(Token::DecimalNumericProgramData(b"255.5")),
        Err(Error::new(ErrorCode::DataOutOfRange))
    );
    assert_eq!(
        u8::from_token(Token::DecimalNumericProgramData(b"-1")),
        Err(Error::new(ErrorCode::DataOutOfRange))
    );
    assert_eq!(u8::from_token(Token::DecimalNumericProgramData(b"-0.4")), Ok(0));
    assert_eq!(i8::from_token(Token::DecimalNumericProgramData(b"-128")), Ok(-128));
    assert_eq!(
        i8::from_token(Token::DecimalNumericProgramData(b"128")),
        Err(Error::new(ErrorCode::DataOutOfRange))
    );
    assert_eq!(u16::from_token(Token::NonDecimalNumericProgramData(0xffff)), Ok(0xffff));
    assert_eq!(
        u16::from_token(Token::NonDecimalNumericProgramData(0x10000)),
        Err(Error::new(ErrorCode::DataOutOfRange))
    );
    assert_eq!(i16::from_token(Token::DecimalNumericProgramData(b"-32768")), Ok(-32768));
    assert_eq!(u32::from_token(Token::NonDecimalNumericProgramData(0xffff_ffff)), Ok(0xffff_ffff));
    assert_eq!(
        i32::from_token(Token::NonDecimalNumericProgramData(0x8000_0000)),
        Err(Error::new(ErrorCode::DataOutOfRange))
    );
    assert_eq!(i32::from_token(Token::DecimalNumericProgramData(b"-2147483648")), Ok(i32::MIN));
    assert_eq!(usize::from_token(Token::DecimalNumericProgramData(b"1e3")), Ok(1000));
    assert_eq!(isize::from_token(Token::DecimalNumericProgramData(b"-1e3")), Ok(-1000));
    assert_eq!(
        u8::from_token(Token::CharacterProgramData(b"MAX")),
        Err(Error::new(ErrorCode::DataTypeError))
    );
    assert_eq!(
        u8::from_token(Token::StringProgramData(b"1")),
        Err(Error::new(ErrorCode::DataTypeError))
    );
    assert_eq!(
        u8::from_token(Token::SuffixProgramData(b"V")),
        Err(Error::new(ErrorCode::DataTypeError))
    );
    assert_eq!(
        u8::from_token(Token::ArbitraryBlockData(b"1")),
        Err(Error::new(ErrorCode::DataTypeError))
    );
    assert_eq!(
        u8::from_token(Token::ExpressionProgramData(b"1")),
        Err(Error::new(ErrorCode::SyntaxError))
    );
    assert_eq!(
        u8::from_token(Token::ProgramDataSeparator),
        Err(Error::new(ErrorCode::SyntaxError))
    );
    assert_eq!(
        u8::from_token(Token::DecimalNumericProgramData(b"1x")),
        Err(Error::new(ErrorCode::NumericDataError))
    );
    assert_eq!(
        Token::DecimalNumericProgramData(b"7").to_integer(7, 7),
        Ok(7)
    );
    assert_eq!(
        Token::DecimalNumericProgramData(b"7").to_integer(8, 9),
        Err(Error::new(ErrorCode::DataOutOfRange))
    );
}

#[test]
fn strings_text_and_blocks_are_taken_out() {
    assert_eq!(Token::StringProgramData(b"abc").to_bytes(), Ok(b"abc".as_ref()));
    assert_eq!(
        Token::ArbitraryBlockData(b"abc").to_bytes(),
        Err(Error::new(ErrorCode::DataTypeError))
    );
    assert_eq!(
        Token::Utf8BlockData("abc").to_bytes(),
        Err(Error::new(ErrorCode::SyntaxError))
    );
    assert_eq!(Token::StringProgramData("åäö".as_bytes()).to_str(), Ok("åäö"));
    assert_eq!(Token::ArbitraryBlockData(b"abc").to_str(), Ok("abc"));
    assert_eq!(Token::Utf8BlockData("åäö").to_str(), Ok("åäö"));
    assert_eq!(
        Token::StringProgramData(b"\xff").to_str(),
        Err(Error::new(ErrorCode::StringDataError))
    );
    assert_eq!(
        Token::CharacterProgramData(b"abc").to_str(),
        Err(Error::new(ErrorCode::DataTypeError))
    );
    assert_eq!(
        Token::ProgramMessageTerminator.to_str(),
        Err(Error::new(ErrorCode::SyntaxError))
    );
    assert_eq!(
        Token::ArbitraryBlockData(b"abc").to_arbitrary(),
        Ok(Arbitrary(b"abc"))
    );
    assert_eq!(
        Token::StringProgramData(b"abc").to_arbitrary(),
        Err(Error::new(ErrorCode::DataTypeError))
    );
    assert_eq!(
        Token::Utf8BlockData("abc").to_arbitrary(),
        Err(Error::new(ErrorCode::DataTypeError))
    );
    assert_eq!(
        Token::HeaderCommonPrefix.to_arbitrary(),
        Err(Error::new(ErrorCode::SyntaxError))
    );
}

fn resolve(kind: NumericValues) -> Result<u8, Error> {
    match kind {
        NumericValues::Maximum => Ok(255),
        NumericValues::Minimum => Ok(0),
        NumericValues::Default => Ok(1),
        NumericValues::Up => Ok(129),
        NumericValues::Down => Ok(127),
        _ => Err(Error::new(ErrorCode::ParameterError)),
    }
}

#[test]
fn special_values_are_resolved() {
    assert_eq!(Token::CharacterProgramData(b"MAXimum").numeric(resolve), Ok(255u8));
    assert_eq!(Token::CharacterProgramData(b"max").numeric(resolve), Ok(255u8));
    assert_eq!(Token::CharacterProgramData(b"MIN").numeric(resolve), Ok(0u8));
    assert_eq!(Token::CharacterProgramData(b"default").numeric(resolve), Ok(1u8));
    assert_eq!(Token::CharacterProgramData(b"up").numeric(resolve), Ok(129u8));
    assert_eq!(Token::CharacterProgramData(b"DOWN").numeric(resolve), Ok(127u8));
    assert_eq!(
        Token::CharacterProgramData(b"maxi").numeric(resolve),
        Err(Error::new(ErrorCode::DataTypeError))
    );
    assert_eq!(Token::DecimalNumericProgramData(b"12").numeric(resolve), Ok(12u8));
    assert_eq!(
        Token::DecimalNumericProgramData(b"12").numeric_range(0, 10, resolve),
        Err(Error::new(ErrorCode::DataOutOfRange))
    );
    assert_eq!(
        Token::DecimalNumericProgramData(b"10").numeric_range(0, 10, resolve),
        Ok(10u8)
    );
    assert_eq!(
        Token::CharacterProgramData(b"MAX").numeric_range(0, 10, resolve),
        Err(Error::new(ErrorCode::DataOutOfRange))
    );
    assert_eq!(
        Token::CharacterProgramData(b"MIN").numeric_range(0, 10, resolve),
        Ok(0u8)
    );
    assert_eq!(
        Token::StringProgramData(b"1").numeric_range(0, 10, resolve),
        Err(Error::new(ErrorCode::DataTypeError))
    );
    assert!(matches!(find_numeric_word(b"mini"), None));
    assert!(matches!(find_numeric_word(b"MINIMUM"), Some(NumericValues::Minimum)));
    assert_eq!(check_range(Ok(5u8), 5, 5), Ok(5));
    assert_eq!(check_range(Ok(4u8), 5, 6), Err(Error::new(ErrorCode::DataOutOfRange)));
    assert_eq!(
        check_range::<u8>(Err(Error::new(ErrorCode::SyntaxError)), 5, 6),
        Err(Error::new(ErrorCode::SyntaxError))
    );
    assert!(5u8.within(5, 5));
    assert!(!(-1i8).within(0, 5));
}

#[test]
fn character_data_is_mapped() {
    let potato = |s: &[u8]| {
        if Token::mnemonic_compare(b"POTato", s) {
            Ok(Token::DecimalNumericProgramData(b"5"))
        } else {
            Err(Error::new(ErrorCode::IllegalParameterValue))
        }
    };
    assert_eq!(
        Token::CharacterProgramData(b"potato").map_character_data(potato),
        Ok(Token::DecimalNumericProgramData(b"5"))
    );
    assert_eq!(
        Token::CharacterProgramData(b"tomato").map_character_data(potato),
        Err(Error::new(ErrorCode::IllegalParameterValue))
    );
    assert_eq!(
        Token::StringProgramData(b"potato").map_character_data(potato),
        Ok(Token::StringProgramData(b"potato"))
    );
}

#[test]
fn next_integer_reads_and_converts() {
    let mut tokenizer = Tokenizer::new(b"A 12,#H10,300,'x'");
    tokenizer.next();
    tokenizer.next();
    assert_eq!(next_integer::<u8>(&mut tokenizer), Ok(12));
    assert_eq!(next_integer::<u8>(&mut tokenizer), Ok(16));
    assert_eq!(
        next_integer::<u8>(&mut tokenizer),
        Err(Error::new(ErrorCode::DataOutOfRange))
    );
    assert_eq!(
        next_integer::<u8>(&mut tokenizer),
        Err(Error::new(ErrorCode::DataTypeError))
    );
    assert_eq!(
        next_integer::<u8>(&mut tokenizer),
        Err(Error::new(ErrorCode::MissingParameter))
    );
}

#[test]
fn digits_of_a_radix() {
    assert_eq!(ascii_to_digit(b'0', 10), Some(0));
    assert_eq!(ascii_to_digit(b'9', 10), Some(9));
    assert_eq!(ascii_to_digit(b'a', 10), None);
    assert_eq!(ascii_to_digit(b'a', 16), Some(10));
    assert_eq!(ascii_to_digit(b'F', 16), Some(15));
    assert_eq!(ascii_to_digit(b'g', 16), None);
    assert_eq!(ascii_to_digit(b'7', 8), Some(7));
    assert_eq!(ascii_to_digit(b'8', 8), None);
    assert_eq!(ascii_to_digit(b'1', 2), Some(1));
    assert_eq!(ascii_to_digit(b'2', 2), None);
    assert_eq!(ascii_to_digit(b'z', 36), Some(35));
    assert_eq!(ascii_to_digit(b'/', 10), None);
    assert_eq!(ascii_to_digit(b'1', 0), None);
}

#[test]
fn error_numbers_and_classes() {
    assert_eq!(ErrorCode::NoError.get_code(), 0);
    assert_eq!(ErrorCode::UndefinedHeader.get_code(), -113);
    assert_eq!(ErrorCode::InvalidSeparator.get_code(), -103);
    assert_eq!(ErrorCode::DataOutOfRange.get_code(), -222);
    assert_eq!(ErrorCode::QueueOverflow.get_code(), -350);
    assert_eq!(ErrorCode::QueryInterrupted.get_code(), -410);
    assert_eq!(ErrorCode::Custom(42).get_code(), 42);
    assert_eq!(ErrorCode::NoError.esr_mask(), 0);
    assert_eq!(ErrorCode::Custom(0).esr_mask(), 0);
    assert_eq!(ErrorCode::CommandError.esr_mask(), ESR_COMMAND_ERROR);
    assert_eq!(ErrorCode::Custom(-199).esr_mask(), ESR_COMMAND_ERROR);
    assert_eq!(ErrorCode::Custom(-200).esr_mask(), ESR_EXECUTION_ERROR);
    assert_eq!(ErrorCode::Custom(-299).esr_mask(), ESR_EXECUTION_ERROR);
    assert_eq!(ErrorCode::Custom(-300).esr_mask(), ESR_DEVICE_ERROR);
    assert_eq!(ErrorCode::Custom(-399).esr_mask(), ESR_DEVICE_ERROR);
    assert_eq!(ErrorCode::Custom(-400).esr_mask(), ESR_QUERY_ERROR);
    assert_eq!(ErrorCode::Custom(-499).esr_mask(), ESR_QUERY_ERROR);
    assert_eq!(ErrorCode::Custom(-500).esr_mask(), ESR_DEVICE_ERROR);
    assert_eq!(ErrorCode::Custom(-99).esr_mask(), ESR_DEVICE_ERROR);
    assert_eq!(ErrorCode::Custom(1).esr_mask(), ESR_DEVICE_ERROR);
    assert_eq!(ESR_COMMAND_ERROR, 1 << 5);
    assert_eq!(ESR_EXECUTION_ERROR, 1 << 4);
    assert_eq!(ESR_DEVICE_ERROR, 1 << 3);
    assert_eq!(ESR_QUERY_ERROR, 1 << 2);
    let error: Error = ErrorCode::SyntaxError.into();
    assert_eq!(error, Error::new(ErrorCode::SyntaxError));
    assert_eq!(error.get_code(), -102);
    assert_eq!(error.esr_mask(), ESR_COMMAND_ERROR);
}

#[test]
fn matcher_examples() {
    // A prefix that stops at the short form is accepted, one that stops
    // inside the long form is not.
    assert!(Token::mnemonic_compare(b"TRIGger", b"trigger"));
    assert!(Token::mnemonic_compare(b"TRIGger", b"trig"));
    assert!(!Token::mnemonic_compare(b"TRIGger", b"trigg"));
    assert!(!Token::mnemonic_compare(b"TRIGger", b"trigge"));
    // Case does not matter.
    assert!(Token::mnemonic_compare(b"TRIGger", b"tRiGgEr"));
    assert!(Token::mnemonic_compare(b"TRIGger", b"TrIg"));
    // A canonical form with an upper-case letter behind the short form has
    // no short spelling.
    assert!(Token::mnemonic_compare(b"ABcD", b"abcd"));
    assert!(!Token::mnemonic_compare(b"ABcD", b"ab"));
    assert!(Token::mnemonic_compare(b"", b""));
    assert!(!Token::mnemonic_compare(b"", b"a"));
    assert!(!Token::CharacterProgramData(b"trig").eq_mnemonic(b"TRIGger2"));
    assert!(Token::CharacterProgramData(b"trig2").eq_mnemonic(b"TRIGger2"));
    assert!(!Token::StringProgramData(b"trig2").eq_mnemonic(b"TRIGger2"));
    assert_eq!(Token::mnemonic_split_index(b"123"), None);
    assert_eq!(
        Token::mnemonic_split_index(b"a1"),
        Some((b"a".as_ref(), b"1".as_ref()))
    );
}

#[test]
fn float_sources_are_told_apart() {
    assert_eq!(find_float_word(b"INF"), Some(FloatWord::Infinity));
    assert_eq!(find_float_word(b"infinity"), Some(FloatWord::Infinity));
    assert_eq!(find_float_word(b"ninf"), Some(FloatWord::NegInfinity));
    assert_eq!(find_float_word(b"NINFINITY"), Some(FloatWord::NegInfinity));
    assert_eq!(find_float_word(b"nan"), Some(FloatWord::NotANumber));
    assert_eq!(find_float_word(b"infi"), None);
    assert_eq!(find_float_word(b"na"), None);
    assert_eq!(find_float_word(b""), None);
    assert_eq!(
        Token::DecimalNumericProgramData(b"1.5").to_float_source(),
        Ok(FloatSource::Text(b"1.5"))
    );
    assert_eq!(
        Token::CharacterProgramData(b"inf").to_float_source(),
        Ok(FloatSource::Word(FloatWord::Infinity))
    );
    assert_eq!(
        Token::CharacterProgramData(b"max").to_float_source(),
        Err(Error::new(ErrorCode::DataTypeError))
    );
    assert_eq!(
        Token::StringProgramData(b"inf").to_float_source(),
        Err(Error::new(ErrorCode::DataTypeError))
    );
    assert_eq!(
        Token::NonDecimalNumericProgramData(1).to_float_source(),
        Err(Error::new(ErrorCode::DataTypeError))
    );
    assert_eq!(
        Token::SuffixProgramData(b"V").to_float_source(),
        Err(Error::new(ErrorCode::DataTypeError))
    );
    assert_eq!(
        Token::ArbitraryBlockData(b"1").to_float_source(),
        Err(Error::new(ErrorCode::DataTypeError))
    );
    assert_eq!(
        Token::ExpressionProgramData(b"1").to_float_source(),
        Err(Error::new(ErrorCode::SyntaxError))
    );
    assert_eq!(
        Token::ProgramMessageTerminator.to_float_source(),
        Err(Error::new(ErrorCode::SyntaxError))
    );
}

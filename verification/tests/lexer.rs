use scpi::error::ErrorCode;
use scpi::token::Token;
use scpi::tokenizer::Tokenizer;

fn lex(message: &[u8]) -> Vec<Result<Token<'_>, ErrorCode>> {
    Tokenizer::new(message).collect()
}

#[test]
fn header_with_query_and_terminator() {
    assert_eq!(
        lex(b"*IDN?\n"),
        vec![
            Ok(Token::HeaderCommonPrefix),
            Ok(Token::ProgramMnemonic(b"IDN")),
            Ok(Token::HeaderQuerySuffix),
            Ok(Token::ProgramMessageTerminator),
        ]
    );
}

#[test]
fn compound_header_and_units() {
    assert_eq!(
        lex(b":SENS:VOLT:DC 1.5 V, MAX ; AC?\n"),
        vec![
            Ok(Token::HeaderMnemonicSeparator),
            Ok(Token::ProgramMnemonic(b"SENS")),
            Ok(Token::HeaderMnemonicSeparator),
            Ok(Token::ProgramMnemonic(b"VOLT")),
            Ok(Token::HeaderMnemonicSeparator),
            Ok(Token::ProgramMnemonic(b"DC")),
            Ok(Token::ProgramHeaderSeparator),
            Ok(Token::DecimalNumericProgramData(b"1.5")),
            Ok(Token::SuffixProgramData(b"V")),
            Ok(Token::ProgramDataSeparator),
            Ok(Token::CharacterProgramData(b"MAX")),
            Ok(Token::ProgramMessageUnitSeparator),
            Ok(Token::ProgramMnemonic(b"AC")),
            Ok(Token::HeaderQuerySuffix),
            Ok(Token::ProgramMessageTerminator),
        ]
    );
}

#[test]
fn all_kinds_of_data() {
    assert_eq!(
        lex(b"X 'a''b',\"c\",#HfF,#q17,#B101,#13abc,(1,2),word,/M,-1E-3"),
        vec![
            Ok(Token::ProgramMnemonic(b"X")),
            Ok(Token::ProgramHeaderSeparator),
            Ok(Token::StringProgramData(b"a''b")),
            Ok(Token::ProgramDataSeparator),
            Ok(Token::StringProgramData(b"c")),
            Ok(Token::ProgramDataSeparator),
            Ok(Token::NonDecimalNumericProgramData(255)),
            Ok(Token::ProgramDataSeparator),
            Ok(Token::NonDecimalNumericProgramData(15)),
            Ok(Token::ProgramDataSeparator),
            Ok(Token::NonDecimalNumericProgramData(5)),
            Ok(Token::ProgramDataSeparator),
            Ok(Token::ArbitraryBlockData(b"abc")),
            Ok(Token::ProgramDataSeparator),
            Ok(Token::ExpressionProgramData(b"1,2")),
            Ok(Token::ProgramDataSeparator),
            Ok(Token::CharacterProgramData(b"word")),
            Ok(Token::ProgramDataSeparator),
            Ok(Token::SuffixProgramData(b"/M")),
            Ok(Token::ProgramDataSeparator),
            Ok(Token::DecimalNumericProgramData(b"-1E-3")),
        ]
    );
}

#[test]
fn line_feed_behind_data_is_the_terminator() {
    assert_eq!(
        lex(b"CMD 1\n"),
        vec![
            Ok(Token::ProgramMnemonic(b"CMD")),
            Ok(Token::ProgramHeaderSeparator),
            Ok(Token::DecimalNumericProgramData(b"1")),
            Ok(Token::ProgramMessageTerminator),
        ]
    );
    assert_eq!(
        lex(b"CMD 1 V \t\n"),
        vec![
            Ok(Token::ProgramMnemonic(b"CMD")),
            Ok(Token::ProgramHeaderSeparator),
            Ok(Token::DecimalNumericProgramData(b"1")),
            Ok(Token::SuffixProgramData(b"V")),
            Ok(Token::ProgramMessageTerminator),
        ]
    );
    assert_eq!(
        lex(b"A 'x' ; \r\n"),
        vec![
            Ok(Token::ProgramMnemonic(b"A")),
            Ok(Token::ProgramHeaderSeparator),
            Ok(Token::StringProgramData(b"x")),
            Ok(Token::ProgramMessageUnitSeparator),
            Ok(Token::ProgramMessageTerminator),
        ]
    );
    assert_eq!(
        lex(b"A \n"),
        vec![
            Ok(Token::ProgramMnemonic(b"A")),
            Ok(Token::ProgramHeaderSeparator),
            Ok(Token::ProgramMessageTerminator),
        ]
    );
    assert_eq!(
        lex(b"A 1,\n"),
        vec![
            Ok(Token::ProgramMnemonic(b"A")),
            Ok(Token::ProgramHeaderSeparator),
            Ok(Token::DecimalNumericProgramData(b"1")),
            Err(ErrorCode::SyntaxError),
            Ok(Token::ProgramMessageTerminator),
        ]
    );
}

#[test]
fn indefinite_block_runs_to_the_end() {
    assert_eq!(
        lex(b"X #0a;b\n"),
        vec![
            Ok(Token::ProgramMnemonic(b"X")),
            Ok(Token::ProgramHeaderSeparator),
            Ok(Token::ArbitraryBlockData(b"a;b")),
            Ok(Token::ProgramMessageTerminator),
        ]
    );
    assert_eq!(
        lex(b"X #0\n"),
        vec![
            Ok(Token::ProgramMnemonic(b"X")),
            Ok(Token::ProgramHeaderSeparator),
            Ok(Token::ArbitraryBlockData(b"")),
            Ok(Token::ProgramMessageTerminator),
        ]
    );
    assert_eq!(
        lex(b"X #0a\nb\n"),
        vec![
            Ok(Token::ProgramMnemonic(b"X")),
            Ok(Token::ProgramHeaderSeparator),
            Ok(Token::ArbitraryBlockData(b"a\nb")),
            Ok(Token::ProgramMessageTerminator),
        ]
    );
    assert_eq!(
        lex(b"X #0ab")[2],
        Err(ErrorCode::InvalidBlockData)
    );
    assert_eq!(lex(b"X #0")[2], Err(ErrorCode::InvalidBlockData));
}

#[test]
fn block_length_may_carry_a_plus_sign() {
    assert_eq!(
        Tokenizer::new(b"+2ab").read_arbitrary_data(b'2'),
        Ok(Token::ArbitraryBlockData(b"ab"))
    );
    assert_eq!(
        Tokenizer::new(b"-2ab").read_arbitrary_data(b'2'),
        Err(ErrorCode::InvalidBlockData)
    );
    assert_eq!(
        Tokenizer::new(b"++ab").read_arbitrary_data(b'2'),
        Err(ErrorCode::InvalidBlockData)
    );
    assert_eq!(
        Tokenizer::new(b"000000002ab;").read_arbitrary_data(b'9'),
        Ok(Token::ArbitraryBlockData(b"ab"))
    );
    assert_eq!(
        Tokenizer::new(b"2ab x").read_arbitrary_data(b'1'),
        Err(ErrorCode::InvalidSeparator)
    );
    assert_eq!(
        Tokenizer::new(b"12").read_arbitrary_data(b'3'),
        Err(ErrorCode::InvalidBlockData)
    );
    assert_eq!(
        Tokenizer::new(b"2ab").read_arbitrary_data(b'x'),
        Err(ErrorCode::InvalidBlockData)
    );
}

#[test]
fn errors_of_the_header() {
    assert_eq!(lex(b"*1")[0], Err(ErrorCode::CommandHeaderError));
    assert_eq!(lex(b"A *B")[2], Err(ErrorCode::CommandHeaderError));
    assert_eq!(lex(b"*A*B")[2], Err(ErrorCode::CommandHeaderError));
    assert_eq!(lex(b"A*B")[1], Err(ErrorCode::CommandHeaderError));
    assert_eq!(lex(b"A:*B")[2], Err(ErrorCode::CommandHeaderError));
    assert_eq!(lex(b"A;*B")[2], Ok(Token::HeaderCommonPrefix));
    assert_eq!(lex(b"A::B")[1], Err(ErrorCode::InvalidSeparator));
    assert_eq!(lex(b"*A:B")[2], Err(ErrorCode::InvalidSeparator));
    assert_eq!(lex(b"A 1:B")[3], Err(ErrorCode::InvalidSeparator));
    assert_eq!(lex(b"A?B")[1], Err(ErrorCode::InvalidSeparator));
    assert_eq!(lex(b"A? ?")[3], Err(ErrorCode::InvalidSeparator));
    assert_eq!(lex(b"A,B")[1], Err(ErrorCode::HeaderSeparatorError));
    assert_eq!(lex(b"A/B")[1], Err(ErrorCode::InvalidSeparator));
    assert_eq!(lex(b"1")[0], Err(ErrorCode::CommandHeaderError));
    assert_eq!(lex(b"+")[0], Err(ErrorCode::CommandHeaderError));
    assert_eq!(lex(b"#")[0], Err(ErrorCode::CommandHeaderError));
    assert_eq!(lex(b"'a'")[0], Err(ErrorCode::CommandHeaderError));
    assert_eq!(
        lex(b"ABCDEFGHIJKLM")[0],
        Err(ErrorCode::ProgramMnemonicTooLong)
    );
    assert_eq!(
        lex(b"ABCDEFGHIJKL"),
        vec![Ok(Token::ProgramMnemonic(b"ABCDEFGHIJKL"))]
    );
    assert_eq!(lex(b"%")[0], Err(ErrorCode::SyntaxError));
    assert_eq!(lex(b"\xc3")[0], Err(ErrorCode::InvalidCharacter));
}

#[test]
fn errors_of_the_data() {
    assert_eq!(lex(b"A 1,,2")[3], Err(ErrorCode::SyntaxError));
    assert_eq!(lex(b"A 1,;")[3], Err(ErrorCode::SyntaxError));
    assert_eq!(lex(b"A #")[2], Err(ErrorCode::BlockDataError));
    assert_eq!(lex(b"A #X1")[2], Err(ErrorCode::NumericDataError));
    assert_eq!(lex(b"A #H")[2], Err(ErrorCode::NumericDataError));
    assert_eq!(lex(b"A #HG")[2], Err(ErrorCode::InvalidCharacterInNumber));
    assert_eq!(lex(b"A #Q8")[2], Err(ErrorCode::InvalidCharacterInNumber));
    assert_eq!(lex(b"A #B2")[2], Err(ErrorCode::InvalidCharacterInNumber));
    assert_eq!(lex(b"A #HFFFFFFFF")[2], Ok(Token::NonDecimalNumericProgramData(0xffff_ffff)));
    assert_eq!(lex(b"A #H100000000")[2], Err(ErrorCode::ExponentTooLarge));
    assert_eq!(lex(b"A #H1 x")[2], Err(ErrorCode::InvalidSeparator));
    assert_eq!(lex(b"A 1E")[2], Err(ErrorCode::InvalidCharacterInNumber));
    assert_eq!(lex(b"A 1E+")[2], Err(ErrorCode::InvalidCharacterInNumber));
    assert_eq!(lex(b"A .")[2], Err(ErrorCode::InvalidCharacterInNumber));
    assert_eq!(lex(b"A -x")[2], Err(ErrorCode::InvalidCharacterInNumber));
    assert_eq!(lex(b"A 1E32000")[2], Ok(Token::DecimalNumericProgramData(b"1E32000")));
    assert_eq!(lex(b"A 1E-32000")[2], Ok(Token::DecimalNumericProgramData(b"1E-32000")));
    assert_eq!(lex(b"A 1E32001")[2], Err(ErrorCode::ExponentTooLarge));
    assert_eq!(lex(b"A 1E-32001")[2], Err(ErrorCode::ExponentTooLarge));
    assert_eq!(lex(b"A 1E0000000000000000000032000")[2], Ok(Token::DecimalNumericProgramData(b"1E0000000000000000000032000")));
    assert_eq!(lex(b"A 1E99999999999999999999999999")[2], Err(ErrorCode::ExponentTooLarge));
    assert_eq!(lex(b"A abcdefghijklm")[2], Err(ErrorCode::CharacterDataTooLong));
    assert_eq!(lex(b"A abc def")[2], Err(ErrorCode::InvalidCharacterData));
    assert_eq!(lex(b"A 1 abcdefghijklm")[3], Err(ErrorCode::SuffixTooLong));
    assert_eq!(lex(b"A 1 V W")[3], Err(ErrorCode::InvalidSuffix));
    assert_eq!(lex(b"A 'abc")[2], Err(ErrorCode::InvalidStringData));
    assert_eq!(lex(b"A 'a\xffc'")[2], Err(ErrorCode::InvalidCharacter));
    assert_eq!(lex(b"A 'a' 'b'")[2], Err(ErrorCode::InvalidSeparator));
    assert_eq!(lex(b"A (1")[2], Err(ErrorCode::InvalidExpression));
    assert_eq!(lex(b"A (1;2)")[2], Err(ErrorCode::InvalidExpression));
    assert_eq!(lex(b"A (1(2))")[2], Err(ErrorCode::InvalidExpression));
    assert_eq!(lex(b"A (1'2)")[2], Err(ErrorCode::InvalidExpression));
    assert_eq!(lex(b"A (1\xff2)")[2], Err(ErrorCode::InvalidExpression));
    assert_eq!(lex(b"A (1) x")[2], Err(ErrorCode::InvalidSuffix));
    assert_eq!(lex(b"A #21")[2], Err(ErrorCode::InvalidBlockData));
}

#[test]
fn utf8_block_is_an_option() {
    assert_eq!(
        Tokenizer::with_utf8_blocks("A #s'åäö'".as_bytes()).collect()[2],
        Ok(Token::Utf8BlockData("åäö"))
    );
    assert_eq!(
        Tokenizer::with_utf8_blocks(b"A #s'\xff'").collect()[2],
        Err(ErrorCode::InvalidBlockData)
    );
    assert_eq!(
        Tokenizer::with_utf8_blocks(b"A #sx").collect()[2],
        Err(ErrorCode::InvalidBlockData)
    );
    assert_eq!(
        Tokenizer::with_utf8_blocks(b"A #s").collect()[2],
        Err(ErrorCode::InvalidBlockData)
    );
    assert_eq!(
        Tokenizer::new("A #s'åäö'".as_bytes()).collect()[2],
        Err(ErrorCode::NumericDataError)
    );
}

#[test]
fn every_step_moves_forward_and_ranges_cover_the_message() {
    let messages: [&[u8]; 8] = [
        b"*IDN?\n",
        b":SENS:VOLT:DC 1.5 V, MAX ; AC?\n",
        b"A 1,,2;;B 'x",
        b"\xff\xfe#####",
        b"A #H1 x, (1;2), #0",
        b"   ",
        b"1 2 3",
        b"A::B??//",
    ];
    for message in messages.iter() {
        let mut tokenizer = Tokenizer::new(message);
        let mut last = tokenizer.position();
        assert_eq!(last, 0);
        while let Some(_) = tokenizer.next() {
            assert!(tokenizer.position() > last);
            last = tokenizer.position();
        }
        assert_eq!(last, message.len());
        assert_eq!(tokenizer.next(), None);
        assert_eq!(tokenizer.position(), message.len());
    }
}

#[test]
fn terminator_is_the_last_token_of_a_query_message() {
    let tokens = lex(b"SENS:VOLT:DC?;*IDN?\n");
    let terminators = tokens
        .iter()
        .filter(|t| **t == Ok(Token::ProgramMessageTerminator))
        .count();
    assert_eq!(terminators, 1);
    assert_eq!(tokens.last(), Some(&Ok(Token::ProgramMessageTerminator)));
}

#[test]
fn empty_lexer_yields_nothing() {
    assert_eq!(Tokenizer::empty().next(), None);
    assert_eq!(Tokenizer::empty().collect(), vec![]);
    assert_eq!(Tokenizer::empty().position(), 0);
}

#[test]
fn separator_is_consumed_and_boundaries_are_left() {
    let mut tokenizer = Tokenizer::new(b"A 1,2;B");
    tokenizer.next();
    tokenizer.next();
    assert_eq!(
        tokenizer.next(),
        Some(Ok(Token::DecimalNumericProgramData(b"1")))
    );
    assert_eq!(tokenizer.next_separator(), Ok(()));
    assert_eq!(
        tokenizer.next(),
        Some(Ok(Token::DecimalNumericProgramData(b"2")))
    );
    let before = tokenizer.position();
    assert_eq!(tokenizer.next_separator(), Ok(()));
    assert_eq!(tokenizer.position(), before);
    assert_eq!(
        tokenizer.next(),
        Some(Ok(Token::ProgramMessageUnitSeparator))
    );
    assert_eq!(tokenizer.next_separator(), Err(ErrorCode::InvalidSeparator));
    let mut tokenizer = Tokenizer::new(b"A 1 V");
    tokenizer.next();
    tokenizer.next();
    tokenizer.next();
    assert_eq!(tokenizer.next_separator(), Err(ErrorCode::SuffixNotAllowed));
    assert_eq!(tokenizer.next(), Some(Ok(Token::SuffixProgramData(b"V"))));
    assert_eq!(tokenizer.next_separator(), Ok(()));
    let mut tokenizer = Tokenizer::new(b"A 1,,");
    tokenizer.next();
    tokenizer.next();
    tokenizer.next();
    assert_eq!(tokenizer.next_separator(), Err(ErrorCode::SyntaxError));
}

#[test]
fn data_is_read_with_its_separator() {
    let mut tokenizer = Tokenizer::new(b"A 1,'x';B");
    tokenizer.next();
    tokenizer.next();
    assert_eq!(
        tokenizer.next_data(false),
        Ok(Some(Token::DecimalNumericProgramData(b"1")))
    );
    assert_eq!(
        tokenizer.next_data(true),
        Ok(Some(Token::StringProgramData(b"x")))
    );
    let before = tokenizer.position();
    assert_eq!(tokenizer.next_data(true), Ok(None));
    assert_eq!(tokenizer.next_data(false), Err(ErrorCode::MissingParameter));
    assert_eq!(tokenizer.position(), before);
    let mut tokenizer = Tokenizer::new(b"A");
    tokenizer.next();
    assert_eq!(tokenizer.next_data(true), Ok(None));
    assert_eq!(tokenizer.next_data(false), Err(ErrorCode::MissingParameter));
    let mut tokenizer = Tokenizer::new(b"A 1,");
    tokenizer.next();
    tokenizer.next();
    tokenizer.next();
    assert_eq!(tokenizer.next_data(true), Err(ErrorCode::MissingParameter));
    let mut tokenizer = Tokenizer::new(b"A 'x");
    tokenizer.next();
    tokenizer.next();
    assert_eq!(tokenizer.next_data(true), Err(ErrorCode::InvalidStringData));
}

#[test]
fn number_is_read_with_its_suffix() {
    let mut tokenizer = Tokenizer::new(b"A 1.5 KHZ,MAX,2,'x'");
    tokenizer.next();
    tokenizer.next();
    assert_eq!(
        tokenizer.next_decimal(false).unwrap(),
        Some((
            Token::DecimalNumericProgramData(b"1.5"),
            Some(b"KHZ".as_ref())
        ))
    );
    assert_eq!(
        tokenizer.next_decimal(false).unwrap(),
        Some((Token::CharacterProgramData(b"MAX"), None))
    );
    assert_eq!(
        tokenizer.next_decimal(false).unwrap(),
        Some((Token::DecimalNumericProgramData(b"2"), None))
    );
    assert_eq!(
        tokenizer.next_decimal(false).unwrap_err().code,
        ErrorCode::MissingParameter
    );
    assert_eq!(tokenizer.next_decimal(true).unwrap(), None);
    assert_eq!(
        tokenizer.next_decimal(false).unwrap_err().code,
        ErrorCode::MissingParameter
    );
}

#[test]
fn block_is_taken_or_refused() {
    let mut tokenizer = Tokenizer::new(b"A #12ab");
    tokenizer.next();
    tokenizer.next();
    assert_eq!(tokenizer.next_arb().unwrap(), b"ab");
    assert_eq!(
        tokenizer.next_arb().unwrap_err().code,
        ErrorCode::MissingParameter
    );
    let mut tokenizer = Tokenizer::new(b"A 1");
    tokenizer.next();
    tokenizer.next();
    assert_eq!(
        tokenizer.next_arb().unwrap_err().code,
        ErrorCode::DataTypeError
    );
    let mut tokenizer = Tokenizer::new(b"A (1)");
    tokenizer.next();
    tokenizer.next();
    assert_eq!(
        tokenizer.next_arb().unwrap_err().code,
        ErrorCode::MissingParameter
    );
    let mut tokenizer = Tokenizer::new(b"A #");
    tokenizer.next();
    tokenizer.next();
    assert_eq!(
        tokenizer.next_arb().unwrap_err().code,
        ErrorCode::BlockDataError
    );
}

#[test]
fn skipping_white_space_stops_at_a_separator() {
    let mut tokenizer = Tokenizer::new(b" \t\r\x0c ,");
    tokenizer.skip_ws();
    assert_eq!(tokenizer.position(), 5);
    assert_eq!(
        tokenizer.skip_ws_to_separator(ErrorCode::InvalidSuffix),
        Ok(())
    );
    assert_eq!(tokenizer.position(), 5);
    let mut tokenizer = Tokenizer::new(b" \t\n ,");
    tokenizer.skip_ws();
    assert_eq!(tokenizer.position(), 2);
    assert_eq!(
        tokenizer.skip_ws_to_separator(ErrorCode::InvalidSuffix),
        Ok(())
    );
    assert_eq!(tokenizer.position(), 2);
    let mut tokenizer = Tokenizer::new(b"  x");
    assert_eq!(
        tokenizer.skip_ws_to_separator(ErrorCode::InvalidSuffix),
        Err(ErrorCode::InvalidSuffix)
    );
    assert_eq!(tokenizer.position(), 2);
    let mut tokenizer = Tokenizer::new(b"\x0b");
    tokenizer.skip_ws();
    assert_eq!(tokenizer.position(), 0);
    let mut tokenizer = Tokenizer::new(b"  ");
    assert_eq!(
        tokenizer.skip_ws_to_separator(ErrorCode::InvalidSuffix),
        Ok(())
    );
    assert_eq!(tokenizer.position(), 2);
}

#[test]
fn data_objects_are_six_kinds() {
    assert!(Token::CharacterProgramData(b"a").is_data_object());
    assert!(Token::DecimalNumericProgramData(b"1").is_data_object());
    assert!(Token::SuffixProgramData(b"V").is_data_object());
    assert!(Token::NonDecimalNumericProgramData(1).is_data_object());
    assert!(Token::StringProgramData(b"a").is_data_object());
    assert!(Token::ArbitraryBlockData(b"a").is_data_object());
    assert!(!Token::ExpressionProgramData(b"1").is_data_object());
    assert!(!Token::Utf8BlockData("a").is_data_object());
    assert!(!Token::ProgramMnemonic(b"a").is_data_object());
    assert!(!Token::ProgramDataSeparator.is_data_object());
    assert!(!Token::ProgramMessageTerminator.is_data_object());
    assert!(!Token::HeaderQuerySuffix.is_data_object());
}

#[test]
fn messages_of_headers_are_lexed_without_error() {
    let messages: [&[u8]; 7] = [
        b"*IDN?\n",
        b"*RST\n",
        b"A\n",
        b":A:B:C?\n",
        b"SENS:VOLT:DC?;*IDN?\n",
        b"A_1:B2;:C?;*D;E:F\n",
        b"ABCDEFGHIJKL:abcdefghijkl?;*ABCDEFGHIJKL\n",
    ];
    for message in messages.iter() {
        let tokens = lex(message);
        assert!(tokens.iter().all(|t| t.is_ok()));
        assert_eq!(tokens.last(), Some(&Ok(Token::ProgramMessageTerminator)));
        assert_eq!(
            tokens
                .iter()
                .filter(|t| **t == Ok(Token::ProgramMessageTerminator))
                .count(),
            1
        );
    }
}

#[test]
fn number_marks_what_follows_until_a_comma() {
    assert_eq!(
        lex(b"A 1;B x"),
        vec![
            Ok(Token::ProgramMnemonic(b"A")),
            Ok(Token::ProgramHeaderSeparator),
            Ok(Token::DecimalNumericProgramData(b"1")),
            Ok(Token::ProgramMessageUnitSeparator),
            Ok(Token::ProgramMnemonic(b"B")),
            Ok(Token::ProgramHeaderSeparator),
            Ok(Token::SuffixProgramData(b"x")),
        ]
    );
    assert_eq!(
        lex(b"A 1,x;B x"),
        vec![
            Ok(Token::ProgramMnemonic(b"A")),
            Ok(Token::ProgramHeaderSeparator),
            Ok(Token::DecimalNumericProgramData(b"1")),
            Ok(Token::ProgramDataSeparator),
            Ok(Token::CharacterProgramData(b"x")),
            Ok(Token::ProgramMessageUnitSeparator),
            Ok(Token::ProgramMnemonic(b"B")),
            Ok(Token::ProgramHeaderSeparator),
            Ok(Token::CharacterProgramData(b"x")),
        ]
    );
}

#[test]
fn messages_with_data_are_lexed_without_error() {
    let messages: [&[u8]; 12] = [
        b"A 1, #0rest; of, the 'message\n",
        b"A #0\n",
        b"A 1\n",
        b"A 1, 2 ,3\n",
        b"A 1.5E3 KHZ, 'a''b', \"c\", #H1F, #Q17, #B101, #13abc, (1,2), word\n",
        b"*ESE 5; *ESE?\n",
        b":SENS:VOLT:DC -1.5 V ;AC?;*RST\n",
        b"A /M;B 2 /S\n",
        b"A \n",
        b"A? ;B\n",
        b"A 1;B x\n",
        b"A\t#210abcdefghij \r\n",
    ];
    for message in messages.iter() {
        let tokens = lex(message);
        assert!(tokens.iter().all(|t| t.is_ok()), "{:?}", tokens);
        assert_eq!(tokens.last(), Some(&Ok(Token::ProgramMessageTerminator)));
        assert_eq!(
            tokens
                .iter()
                .filter(|t| **t == Ok(Token::ProgramMessageTerminator))
                .count(),
            1
        );
    }
}

#[test]
fn message_with_a_utf8_block_is_lexed_without_error() {
    let tokens = Tokenizer::with_utf8_blocks("A #s'åäö' , 1\n".as_bytes()).collect();
    assert_eq!(
        tokens,
        vec![
            Ok(Token::ProgramMnemonic(b"A")),
            Ok(Token::ProgramHeaderSeparator),
            Ok(Token::Utf8BlockData("åäö")),
            Ok(Token::ProgramDataSeparator),
            Ok(Token::DecimalNumericProgramData(b"1")),
            Ok(Token::ProgramMessageTerminator),
        ]
    );
}

use scpi::error::ErrorCode;
use scpi::token::Token;
use scpi::tokenizer::Tokenizer;

fn f32_of(token: Token) -> f32 {
    match token {
        Token::DecimalNumericProgramData(text) => lexical_core::parse::<f32>(text).unwrap(),
        other => panic!("not a decimal number: {:?}", other),
    }
}

#[test]
fn test_split_mnemonic() {
    assert_eq!(
        Token::mnemonic_split_index(b"TRIGger54"),
        Some((b"TRIGger".as_ref(), b"54".as_ref()))
    );
    assert_eq!(
        Token::mnemonic_split_index(b"T123r54"),
        Some((b"T123r".as_ref(), b"54".as_ref()))
    );
    assert_eq!(Token::mnemonic_split_index(b"TRIGger"), None);
    assert_eq!(Token::mnemonic_split_index(b""), None);
}

#[test]
fn test_compare_mnemonic() {
    //Should return true
    assert!(Token::mnemonic_compare(b"TRIGger", b"trigger"));
    assert!(Token::mnemonic_compare(b"TRIGger", b"trig"));
    assert!(Token::mnemonic_compare(b"TRIGger", b"TRIGGER"));
    assert!(Token::mnemonic_compare(b"TRIGger", b"TRIG"));
    //Should return false
    assert!(!Token::mnemonic_compare(b"TRIGger", b"TRIGge"));
    assert!(!Token::mnemonic_compare(
        b"TRIGger",
        b"triggeristoodamnlong"
    ));
    assert!(!Token::mnemonic_compare(b"TRIGger", b"tri"));
}

#[test]
fn test_eq_mnemonic() {
    assert!(Token::ProgramMnemonic(b"trigger").eq_mnemonic(b"TRIGger1"));
    assert!(Token::ProgramMnemonic(b"trig").eq_mnemonic(b"TRIGger1"));
    assert!(Token::ProgramMnemonic(b"trigger1").eq_mnemonic(b"TRIGger1"));
    assert!(Token::ProgramMnemonic(b"trigger1").eq_mnemonic(b"TRIGger"));
    assert!(Token::ProgramMnemonic(b"trig1").eq_mnemonic(b"TRIGger1"));
    assert!(!Token::ProgramMnemonic(b"trigger2").eq_mnemonic(b"TRIGger1"));
    assert!(!Token::ProgramMnemonic(b"trig2").eq_mnemonic(b"TRIGger1"));
    assert!(!Token::ProgramMnemonic(b"trig2").eq_mnemonic(b"TRIGger1"));

    assert!(Token::ProgramMnemonic(b"trigger2").eq_mnemonic(b"TRIGger2"));
    assert!(Token::ProgramMnemonic(b"trig2").eq_mnemonic(b"TRIGger2"));
    assert!(!Token::ProgramMnemonic(b"trigger").eq_mnemonic(b"TRIGger2"));
    assert!(!Token::ProgramMnemonic(b"trig").eq_mnemonic(b"TRIGger2"));
    assert!(!Token::ProgramMnemonic(b"trigger1").eq_mnemonic(b"TRIGger2"));
    assert!(!Token::ProgramMnemonic(b"trig1").eq_mnemonic(b"TRIGger2"));
}

#[test]
fn test_read_character_data() {
    assert_eq!(
        Tokenizer::new(b"CHARacter4 , pperg").read_character_data(),
        Ok(Token::CharacterProgramData(b"CHARacter4"))
    );
    assert_eq!(
        Tokenizer::new(b"CHARacterIsTooLong").read_character_data(),
        Err(ErrorCode::CharacterDataTooLong)
    );
    assert_eq!(
        Tokenizer::new(b"Character Invalid").read_character_data(),
        Err(ErrorCode::InvalidCharacterData)
    );
}

#[test]
fn test_read_numeric_data() {
    assert_eq!(
        f32_of(Tokenizer::new(b"25").read_numeric_data().unwrap()),
        25f32
    );
    assert_eq!(
        f32_of(Tokenizer::new(b"-10.").read_numeric_data().unwrap()),
        -10f32
    );
    assert_eq!(
        f32_of(Tokenizer::new(b".2").read_numeric_data().unwrap()),
        0.2f32
    );
    assert_eq!(
        f32_of(Tokenizer::new(b"1.E5").read_numeric_data().unwrap()),
        1e5f32
    );
    assert_eq!(
        f32_of(Tokenizer::new(b"-25e5").read_numeric_data().unwrap()),
        -25e5f32
    );
    assert_eq!(
        f32_of(Tokenizer::new(b"25E-2").read_numeric_data().unwrap()),
        0.25f32
    );
    assert_eq!(
        f32_of(Tokenizer::new(b".1E2").read_numeric_data().unwrap()),
        10f32
    );
    assert_eq!(
        f32_of(Tokenizer::new(b".1E2").read_numeric_data().unwrap()),
        10f32
    );
}

#[test]
fn test_read_suffix_data() {
    assert_eq!(
        Tokenizer::new(b"MOHM").read_suffix_data().unwrap(),
        Token::SuffixProgramData(b"MOHM")
    );

    // Error, too long suffix
    assert_eq!(
        Tokenizer::new(b"SUFFIXTOODAMNLONG").read_suffix_data(),
        Err(ErrorCode::SuffixTooLong)
    );
}

#[test]
fn test_read_numeric_suffix_data() {
    let mut tokenizer = Tokenizer::new(b"header 25 KHZ , 12.7E6 KOHM.M/S-2");
    assert_eq!(tokenizer.next(), Some(Ok(Token::ProgramMnemonic(b"header"))));
    assert_eq!(tokenizer.next(), Some(Ok(Token::ProgramHeaderSeparator)));
    assert_eq!(
        tokenizer.next(),
        Some(Ok(Token::DecimalNumericProgramData(b"25")))
    );
    assert_eq!(tokenizer.next(), Some(Ok(Token::SuffixProgramData(b"KHZ"))));
    assert_eq!(tokenizer.next(), Some(Ok(Token::ProgramDataSeparator)));
    let number = tokenizer.next().unwrap().unwrap();
    assert_eq!(number, Token::DecimalNumericProgramData(b"12.7E6"));
    assert_eq!(f32_of(number), 12.7e6f32);
    assert_eq!(
        tokenizer.next(),
        Some(Ok(Token::SuffixProgramData(b"KOHM.M/S-2")))
    );
    assert_eq!(tokenizer.next(), None);
}

#[test]
fn test_read_string_data() {
    assert_eq!(
        Tokenizer::new(b"\"MOHM\",  gui").read_string_data(b'"', true),
        Ok(Token::StringProgramData(b"MOHM"))
    );
    assert_eq!(
        Tokenizer::new(b"'MOHM',  gui").read_string_data(b'\'', true),
        Ok(Token::StringProgramData(b"MOHM"))
    );
    assert_eq!(
        Tokenizer::new(b"'MO''HM',  gui").read_string_data(b'\'', true),
        Ok(Token::StringProgramData(b"MO''HM"))
    );

    assert_eq!(
        Tokenizer::new(b"\"MOHM").read_string_data(b'"', true),
        Err(ErrorCode::InvalidStringData)
    );
    assert_eq!(
        Tokenizer::new(b"'MOHM").read_string_data(b'"', true),
        Err(ErrorCode::InvalidStringData)
    );
    assert_eq!(
        Tokenizer::new(b"'MO\xffHM").read_string_data(b'"', true),
        Err(ErrorCode::InvalidCharacter)
    );
}

#[test]
fn test_read_arb_data() {
    assert_eq!(
        Tokenizer::new(b"02\x01\x02,").read_arbitrary_data(b'2'),
        Ok(Token::ArbitraryBlockData(&[1, 2]))
    );
    assert_eq!(
        Tokenizer::new(b"2\x01\x02,").read_arbitrary_data(b'1'),
        Ok(Token::ArbitraryBlockData(&[1, 2]))
    );

    // Error, too short
    assert_eq!(
        Tokenizer::new(b"02\x01").read_arbitrary_data(b'2'),
        Err(ErrorCode::InvalidBlockData)
    );

    // Error, invalid header
    assert_eq!(
        Tokenizer::new(b"a2\x01\x02,").read_arbitrary_data(b'2'),
        Err(ErrorCode::InvalidBlockData)
    );

    // Error, header too short/invalid
    assert_eq!(
        Tokenizer::new(b"2\x01\x02,").read_arbitrary_data(b'2'),
        Err(ErrorCode::InvalidBlockData)
    );

    // Indefinite length
    assert_eq!(
        Tokenizer::new(b"\x01\x02\n").read_arbitrary_data(b'0'),
        Ok(Token::ArbitraryBlockData(&[1, 2]))
    );

    // Error, indefinite not terminated by newline
    assert_eq!(
        Tokenizer::new(b"\x01\x02").read_arbitrary_data(b'0'),
        Err(ErrorCode::InvalidBlockData)
    );
}

#[test]
fn test_read_arb_utf8() {
    assert_eq!(
        Tokenizer::new("'åäö'".as_bytes()).read_utf8_data(b's'),
        Ok(Token::Utf8BlockData("åäö"))
    );
    assert_eq!(
        Tokenizer::new("\"åäö\"".as_bytes()).read_utf8_data(b's'),
        Ok(Token::Utf8BlockData("åäö"))
    );
    assert_eq!(
        Tokenizer::new("'å''äö'".as_bytes()).read_utf8_data(b's'),
        Ok(Token::Utf8BlockData("å''äö"))
    );
    //Missing quote
    assert_eq!(
        Tokenizer::new("'å''äö".as_bytes()).read_utf8_data(b's'),
        Err(ErrorCode::InvalidStringData)
    );
    //Invalid utf8
    assert_eq!(
        Tokenizer::new(b"'\xff'").read_utf8_data(b's'),
        Err(ErrorCode::InvalidBlockData)
    );
}

#[test]
fn test_read_expr_data() {
    assert_eq!(
        Tokenizer::new(b"(@1!2,2,3,4,5,#,POTATO)").read_expression_data(),
        Ok(Token::ExpressionProgramData(b"@1!2,2,3,4,5,#,POTATO"))
    );
}

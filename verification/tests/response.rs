use scpi::error::{Error, ErrorCode};
use scpi::response::{render_block, render_quoted, render_signed, render_unsigned, Response};
use scpi::token::Token;
use scpi::tokenizer::Tokenizer;

#[test]
fn integers_are_rendered_without_leading_zeros() {
    assert_eq!(render_unsigned(0), b"0");
    assert_eq!(render_unsigned(9), b"9");
    assert_eq!(render_unsigned(10), b"10");
    assert_eq!(render_unsigned(1234567890), b"1234567890");
    assert_eq!(render_unsigned(u64::MAX), b"18446744073709551615");
    assert_eq!(render_signed(0), b"0");
    assert_eq!(render_signed(-1), b"-1");
    assert_eq!(render_signed(32767), b"32767");
    assert_eq!(render_signed(i64::MAX), b"9223372036854775807");
    assert_eq!(render_signed(i64::MIN), b"-9223372036854775808");
}

#[test]
fn strings_are_quoted_with_doubled_quotes() {
    assert_eq!(render_quoted(b""), b"\"\"");
    assert_eq!(render_quoted(b"abc"), b"\"abc\"");
    assert_eq!(render_quoted(b"a\"b"), b"\"a\"\"b\"");
    assert_eq!(render_quoted(b"\"\""), b"\"\"\"\"\"\"");
    assert_eq!(render_quoted(b"it's"), b"\"it's\"");
}

#[test]
fn blocks_are_framed_with_their_length() {
    assert_eq!(render_block(b"").unwrap(), b"#10");
    assert_eq!(render_block(b"abc").unwrap(), b"#13abc");
    assert_eq!(render_block(&[7u8; 10]).unwrap()[..4], *b"#210");
    assert_eq!(render_block(&[7u8; 10]).unwrap().len(), 14);
    assert_eq!(render_block(&[0u8; 123]).unwrap()[..5], *b"#3123");
}

#[test]
fn written_block_is_read_back() {
    let payloads: [&[u8]; 5] = [b"", b"abc", b"\n;,\"'#0", &[0u8; 100], &[255u8; 1000]];
    for payload in payloads.iter() {
        let mut response = Response::new(2000);
        response.begin_unit().unwrap();
        response.block(payload).unwrap();
        response.finish().unwrap();
        let mut message = b"DATA ".to_vec();
        message.extend_from_slice(response.as_slice());
        let mut tokenizer = Tokenizer::new(&message);
        assert_eq!(tokenizer.next(), Some(Ok(Token::ProgramMnemonic(b"DATA"))));
        assert_eq!(tokenizer.next(), Some(Ok(Token::ProgramHeaderSeparator)));
        assert_eq!(tokenizer.next(), Some(Ok(Token::ArbitraryBlockData(payload))));
        assert_eq!(tokenizer.next(), None);
        message.extend_from_slice(b";NEXT");
        let mut tokenizer = Tokenizer::new(&message);
        tokenizer.next();
        tokenizer.next();
        assert_eq!(tokenizer.next(), Some(Ok(Token::ArbitraryBlockData(payload))));
        assert_eq!(
            tokenizer.next(),
            Some(Ok(Token::ProgramMessageUnitSeparator))
        );
    }
}

#[test]
fn values_are_separated_by_commas_and_units_by_semicolons() {
    let mut response = Response::new(100);
    assert!(response.is_empty());
    assert_eq!(response.begin_unit(), Ok(()));
    assert_eq!(response.character(b"ACME"), Ok(()));
    assert_eq!(response.unsigned(12), Ok(()));
    assert_eq!(response.integer(-3), Ok(()));
    assert_eq!(response.boolean(true), Ok(()));
    assert_eq!(response.boolean(false), Ok(()));
    assert_eq!(response.string(b"a\"b"), Ok(()));
    assert_eq!(response.block(b"xy"), Ok(()));
    assert_eq!(response.finish(), Ok(()));
    assert_eq!(response.as_slice(), b"ACME,12,-3,1,0,\"a\"\"b\",#12xy");
    assert_eq!(response.begin_unit(), Ok(()));
    assert_eq!(response.finish(), Ok(()));
    assert_eq!(response.begin_unit(), Ok(()));
    assert_eq!(response.unsigned(5), Ok(()));
    assert_eq!(response.finish(), Ok(()));
    assert_eq!(response.as_slice(), b"ACME,12,-3,1,0,\"a\"\"b\",#12xy;5");
    assert_eq!(response.end_message(), Ok(()));
    assert_eq!(response.as_slice(), b"ACME,12,-3,1,0,\"a\"\"b\",#12xy;5\n");
    assert!(!response.is_empty());
    response.clear();
    assert!(response.is_empty());
    assert_eq!(response.end_message(), Ok(()));
    assert_eq!(response.as_slice(), b"");
}

#[test]
fn failed_unit_is_taken_back() {
    let mut response = Response::new(100);
    response.begin_unit().unwrap();
    response.unsigned(1).unwrap();
    response.finish().unwrap();
    response.begin_unit().unwrap();
    response.unsigned(2).unwrap();
    response.unsigned(3).unwrap();
    response.rollback();
    assert_eq!(response.as_slice(), b"1;");
    response.begin_unit().unwrap();
    response.unsigned(4).unwrap();
    response.finish().unwrap();
    assert_eq!(response.as_slice(), b"1;4");
    response.rollback();
    assert_eq!(response.as_slice(), b"1;");
}

#[test]
fn value_that_does_not_fit_is_not_written() {
    let mut response = Response::new(4);
    response.begin_unit().unwrap();
    assert_eq!(response.unsigned(12), Ok(()));
    assert_eq!(
        response.unsigned(34),
        Err(Error::new(ErrorCode::OutOfMemory))
    );
    assert_eq!(response.as_slice(), b"12");
    assert_eq!(response.unsigned(3), Ok(()));
    assert_eq!(response.as_slice(), b"12,3");
    assert_eq!(response.finish(), Ok(()));
    assert_eq!(
        response.begin_unit(),
        Err(Error::new(ErrorCode::OutOfMemory))
    );
    assert_eq!(
        response.end_message(),
        Err(Error::new(ErrorCode::OutOfMemory))
    );
    assert_eq!(response.as_slice(), b"12,3");
    let mut response = Response::new(0);
    assert_eq!(response.begin_unit(), Ok(()));
    assert_eq!(
        response.character(b"a"),
        Err(Error::new(ErrorCode::OutOfMemory))
    );
    assert_eq!(response.character(b""), Ok(()));
    assert_eq!(response.end_message(), Ok(()));
}

use scpi::error::ErrorCode;
use scpi::expression::{ChannelList, ListToken, NumericList};
use scpi::token::Token;
use scpi::tokenizer::Tokenizer;

fn all(mut list: NumericList) -> Vec<Result<ListToken, ErrorCode>> {
    let mut out = Vec::new();
    while let Some(item) = list.next() {
        out.push(item);
    }
    out
}

#[test]
fn numbers_and_pairs_are_read() {
    assert_eq!(
        all(NumericList::new(b"1, -2 ,+3!4,5!-6")),
        vec![
            Ok(ListToken::Numeric(1)),
            Ok(ListToken::Separator),
            Ok(ListToken::Numeric(-2)),
            Ok(ListToken::Separator),
            Ok(ListToken::NumericPair(3, 4)),
            Ok(ListToken::Separator),
            Ok(ListToken::NumericPair(5, -6)),
        ]
    );
    assert_eq!(all(NumericList::new(b"")), vec![]);
    assert_eq!(all(NumericList::new(b"   ")), vec![]);
    assert_eq!(
        all(NumericList::new(b"9223372036854775807,-9223372036854775808")),
        vec![
            Ok(ListToken::Numeric(i64::MAX)),
            Ok(ListToken::Separator),
            Ok(ListToken::Numeric(i64::MIN)),
        ]
    );
}

#[test]
fn defects_of_a_list_are_errors() {
    assert_eq!(
        all(NumericList::new(b"1 2")),
        vec![Ok(ListToken::Numeric(1)), Err(ErrorCode::InvalidExpression)]
    );
    assert_eq!(
        all(NumericList::new(b",1")),
        vec![
            Err(ErrorCode::InvalidExpression),
            Err(ErrorCode::InvalidExpression)
        ]
    );
    assert_eq!(
        all(NumericList::new(b"1!")),
        vec![Err(ErrorCode::InvalidExpression)]
    );
    assert_eq!(
        all(NumericList::new(b"-")),
        vec![Err(ErrorCode::InvalidExpression)]
    );
    assert_eq!(
        all(NumericList::new(b"9223372036854775808")),
        vec![Err(ErrorCode::DataOutOfRange)]
    );
    assert_eq!(
        all(NumericList::new(b"1!9223372036854775808")),
        vec![Err(ErrorCode::DataOutOfRange)]
    );
    assert_eq!(
        all(NumericList::new(b"1,#,POTATO")),
        vec![
            Ok(ListToken::Numeric(1)),
            Ok(ListToken::Separator),
            Err(ErrorCode::InvalidExpression),
            Ok(ListToken::Separator),
            Err(ErrorCode::InvalidExpression),
            Err(ErrorCode::InvalidExpression),
            Err(ErrorCode::InvalidExpression),
            Err(ErrorCode::InvalidExpression),
            Err(ErrorCode::InvalidExpression),
            Err(ErrorCode::InvalidExpression),
        ]
    );
}

#[test]
fn channel_list_starts_with_an_at_sign() {
    let mut list = ChannelList::new(b"@1!2,3").unwrap();
    assert_eq!(list.next(), Some(Ok(ListToken::NumericPair(1, 2))));
    assert_eq!(list.next(), Some(Ok(ListToken::Separator)));
    assert_eq!(list.next(), Some(Ok(ListToken::Numeric(3))));
    assert_eq!(list.next(), None);
    assert!(ChannelList::new(b"1,2").is_none());
    assert!(ChannelList::new(b"").is_none());
    assert!(ChannelList::new(b"@").is_some());
}

#[test]
fn lists_are_taken_from_expression_data() {
    let token = Tokenizer::new(b"(@1!2,2,3)")
        .read_expression_data()
        .unwrap();
    let mut channels = token.channel_list().unwrap();
    assert_eq!(channels.next(), Some(Ok(ListToken::NumericPair(1, 2))));
    let mut numbers = Token::ExpressionProgramData(b"7,8").numeric_list().unwrap();
    assert_eq!(numbers.next(), Some(Ok(ListToken::Numeric(7))));
    assert_eq!(
        Token::ExpressionProgramData(b"7,8").channel_list().unwrap_err(),
        ErrorCode::ExecExpressionError
    );
    assert_eq!(
        Token::StringProgramData(b"7,8").numeric_list().unwrap_err(),
        ErrorCode::DataTypeError
    );
    assert_eq!(
        Token::StringProgramData(b"@7,8").channel_list().unwrap_err(),
        ErrorCode::DataTypeError
    );
}

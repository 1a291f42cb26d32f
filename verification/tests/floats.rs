use scpi::error::{Error, ErrorCode};
use scpi::response::Response;
use scpi::token::Token;
use scpi::tokenizer::Tokenizer;

fn written(value: f32) -> Vec<u8> {
    let mut buffer = [0u8; lexical_core::BUFFER_SIZE];
    let text = lexical_core::write(value, &mut buffer);
    let mut response = Response::new(64);
    response.begin_unit().unwrap();
    response.character(text).unwrap();
    response.finish().unwrap();
    response.as_slice().to_vec()
}

fn read_back(text: &[u8]) -> f32 {
    let mut message = b"VALUE ".to_vec();
    message.extend_from_slice(text);
    let mut tokenizer = Tokenizer::new(&message);
    assert_eq!(tokenizer.next(), Some(Ok(Token::ProgramMnemonic(b"VALUE"))));
    assert_eq!(tokenizer.next(), Some(Ok(Token::ProgramHeaderSeparator)));
    match tokenizer.next() {
        Some(Ok(Token::DecimalNumericProgramData(number))) => {
            assert_eq!(number, text);
            assert_eq!(tokenizer.next(), None);
            lexical_core::parse::<f32>(number).unwrap()
        }
        other => panic!("{:?} is not read as a number: {:?}", text, other),
    }
}

#[test]
fn finite_floats_survive_writing_and_reading() {
    let samples = [
        0.0f32,
        -0.0,
        1.0,
        -1.0,
        1.23,
        0.1,
        16777216.0,
        16777217.0,
        1e10,
        -1e10,
        1e-10,
        3.4028235e38,
        -3.4028235e38,
        1.17549435e-38,
        1e-45,
        123456.789,
        0.000123,
    ];
    for value in samples.iter() {
        let back = read_back(&written(*value));
        assert_eq!(back.to_bits(), value.to_bits());
    }
    let mut seed: u32 = 1;
    for _ in 0..5000 {
        seed = seed.wrapping_mul(1664525).wrapping_add(1013904223);
        let value = f32::from_bits(seed % 0x7f80_0000);
        assert_eq!(read_back(&written(value)), value);
        assert_eq!(read_back(&written(-value)), -value);
    }
}

#[test]
fn standard_messages() {
    assert_eq!(ErrorCode::NoError.get_message(), Some("No error"));
    assert_eq!(ErrorCode::UndefinedHeader.get_message(), Some("Undefined header"));
    assert_eq!(ErrorCode::QueueOverflow.get_message(), Some("Queue overflow"));
    assert_eq!(ErrorCode::Custom(-113).get_message(), None);
    assert_eq!(
        Error::new(ErrorCode::DataOutOfRange).get_message(),
        Some("Data out of range")
    );
}

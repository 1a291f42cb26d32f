//! Error codes of SCPI-1999 and the class of the event status register that
//! each belongs to.

use vstd::prelude::*;

verus! {

/// Event status register bit set by a command error.
pub const ESR_COMMAND_ERROR: u8 = 0x20;

/// Event status register bit set by an execution error.
pub const ESR_EXECUTION_ERROR: u8 = 0x10;

/// Event status register bit set by a device-dependent error.
pub const ESR_DEVICE_ERROR: u8 = 0x08;

/// Event status register bit set by a query error.
pub const ESR_QUERY_ERROR: u8 = 0x04;

/// The standard errors that the engine itself raises or hands on, and
/// `Custom` for every other number.
#[derive(Clone, Copy, Debug, PartialEq, Eq, Structural)]
pub enum ErrorCode {
    NoError,
    CommandError,
    InvalidCharacter,
    SyntaxError,
    InvalidSeparator,
    DataTypeError,
    GetNotAllowed,
    ParameterNotAllowed,
    MissingParameter,
    CommandHeaderError,
    HeaderSeparatorError,
    ProgramMnemonicTooLong,
    UndefinedHeader,
    HeaderSuffixOutOfRange,
    UnexpectedNumberOfParameters,
    NumericDataError,
    InvalidCharacterInNumber,
    ExponentTooLarge,
    TooManyDigits,
    NumericDataNotAllowed,
    SuffixError,
    InvalidSuffix,
    SuffixTooLong,
    SuffixNotAllowed,
    CharacterDataError,
    InvalidCharacterData,
    CharacterDataTooLong,
    CharacterDataNotAllowed,
    StringDataError,
    InvalidStringData,
    StringDataNotAllowed,
    BlockDataError,
    InvalidBlockData,
    BlockDataNotAllowed,
    ExpressionError,
    InvalidExpression,
    ExpressionDataNotAllowed,
    ExecutionError,
    ParameterError,
    SettingsConflict,
    DataOutOfRange,
    TooMuchData,
    IllegalParameterValue,
    OutOfMemory,
    ExecExpressionError,
    DeviceSpecificError,
    SystemError,
    SelfTestFailed,
    QueueOverflow,
    QueryError,
    QueryInterrupted,
    QueryUnterminated,
    QueryDeadlocked,
    QueryUnterminatedAfterIndefiniteResponse,
    /// A number that the list above does not name.
    Custom(i16),
}

impl ErrorCode {
    /// The number of the error.
    pub open spec fn code(self) -> int {
        match self {
            ErrorCode::NoError => 0,
            ErrorCode::CommandError => -100,
            ErrorCode::InvalidCharacter => -101,
            ErrorCode::SyntaxError => -102,
            ErrorCode::InvalidSeparator => -103,
            ErrorCode::DataTypeError => -104,
            ErrorCode::GetNotAllowed => -105,
            ErrorCode::ParameterNotAllowed => -108,
            ErrorCode::MissingParameter => -109,
            ErrorCode::CommandHeaderError => -110,
            ErrorCode::HeaderSeparatorError => -111,
            ErrorCode::ProgramMnemonicTooLong => -112,
            ErrorCode::UndefinedHeader => -113,
            ErrorCode::HeaderSuffixOutOfRange => -114,
            ErrorCode::UnexpectedNumberOfParameters => -115,
            ErrorCode::NumericDataError => -120,
            ErrorCode::InvalidCharacterInNumber => -121,
            ErrorCode::ExponentTooLarge => -123,
            ErrorCode::TooManyDigits => -124,
            ErrorCode::NumericDataNotAllowed => -128,
            ErrorCode::SuffixError => -130,
            ErrorCode::InvalidSuffix => -131,
            ErrorCode::SuffixTooLong => -134,
            ErrorCode::SuffixNotAllowed => -138,
            ErrorCode::CharacterDataError => -140,
            ErrorCode::InvalidCharacterData => -141,
            ErrorCode::CharacterDataTooLong => -144,
            ErrorCode::CharacterDataNotAllowed => -148,
            ErrorCode::StringDataError => -150,
            ErrorCode::InvalidStringData => -151,
            ErrorCode::StringDataNotAllowed => -158,
            ErrorCode::BlockDataError => -160,
            ErrorCode::InvalidBlockData => -161,
            ErrorCode::BlockDataNotAllowed => -168,
            ErrorCode::ExpressionError => -170,
            ErrorCode::InvalidExpression => -171,
            ErrorCode::ExpressionDataNotAllowed => -178,
            ErrorCode::ExecutionError => -200,
            ErrorCode::ParameterError => -220,
            ErrorCode::SettingsConflict => -221,
            ErrorCode::DataOutOfRange => -222,
            ErrorCode::TooMuchData => -223,
            ErrorCode::IllegalParameterValue => -224,
            ErrorCode::OutOfMemory => -225,
            ErrorCode::ExecExpressionError => -260,
            ErrorCode::DeviceSpecificError => -300,
            ErrorCode::SystemError => -310,
            ErrorCode::SelfTestFailed => -330,
            ErrorCode::QueueOverflow => -350,
            ErrorCode::QueryError => -400,
            ErrorCode::QueryInterrupted => -410,
            ErrorCode::QueryUnterminated => -420,
            ErrorCode::QueryDeadlocked => -430,
            ErrorCode::QueryUnterminatedAfterIndefiniteResponse => -440,
            ErrorCode::Custom(n) => n as int,
        }
    }

    /// The number of the error, as it is reported to the controller.
    pub fn get_code(self) -> (r: i16)
        ensures
            r == self.code(),
    {
        match self {
            ErrorCode::NoError => 0,
            ErrorCode::CommandError => -100,
            ErrorCode::InvalidCharacter => -101,
            ErrorCode::SyntaxError => -102,
            ErrorCode::InvalidSeparator => -103,
            ErrorCode::DataTypeError => -104,
            ErrorCode::GetNotAllowed => -105,
            ErrorCode::ParameterNotAllowed => -108,
            ErrorCode::MissingParameter => -109,
            ErrorCode::CommandHeaderError => -110,
            ErrorCode::HeaderSeparatorError => -111,
            ErrorCode::ProgramMnemonicTooLong => -112,
            ErrorCode::UndefinedHeader => -113,
            ErrorCode::HeaderSuffixOutOfRange => -114,
            ErrorCode::UnexpectedNumberOfParameters => -115,
            ErrorCode::NumericDataError => -120,
            ErrorCode::InvalidCharacterInNumber => -121,
            ErrorCode::ExponentTooLarge => -123,
            ErrorCode::TooManyDigits => -124,
            ErrorCode::NumericDataNotAllowed => -128,
            ErrorCode::SuffixError => -130,
            ErrorCode::InvalidSuffix => -131,
            ErrorCode::SuffixTooLong => -134,
            ErrorCode::SuffixNotAllowed => -138,
            ErrorCode::CharacterDataError => -140,
            ErrorCode::InvalidCharacterData => -141,
            ErrorCode::CharacterDataTooLong => -144,
            ErrorCode::CharacterDataNotAllowed => -148,
            ErrorCode::StringDataError => -150,
            ErrorCode::InvalidStringData => -151,
            ErrorCode::StringDataNotAllowed => -158,
            ErrorCode::BlockDataError => -160,
            ErrorCode::InvalidBlockData => -161,
            ErrorCode::BlockDataNotAllowed => -168,
            ErrorCode::ExpressionError => -170,
            ErrorCode::InvalidExpression => -171,
            ErrorCode::ExpressionDataNotAllowed => -178,
            ErrorCode::ExecutionError => -200,
            ErrorCode::ParameterError => -220,
            ErrorCode::SettingsConflict => -221,
            ErrorCode::DataOutOfRange => -222,
            ErrorCode::TooMuchData => -223,
            ErrorCode::IllegalParameterValue => -224,
            ErrorCode::OutOfMemory => -225,
            ErrorCode::ExecExpressionError => -260,
            ErrorCode::DeviceSpecificError => -300,
            ErrorCode::SystemError => -310,
            ErrorCode::SelfTestFailed => -330,
            ErrorCode::QueueOverflow => -350,
            ErrorCode::QueryError => -400,
            ErrorCode::QueryInterrupted => -410,
            ErrorCode::QueryUnterminated => -420,
            ErrorCode::QueryDeadlocked => -430,
            ErrorCode::QueryUnterminatedAfterIndefiniteResponse => -440,
            ErrorCode::Custom(n) => n,
        }
    }

    /// The standard message of the error; none for a number that the list
    /// does not name.
    pub open spec fn message(self) -> Option<Seq<char>> {
        match self {
            ErrorCode::NoError => Some("No error"@),
            ErrorCode::CommandError => Some("Command error"@),
            ErrorCode::InvalidCharacter => Some("Invalid character"@),
            ErrorCode::SyntaxError => Some("Syntax error"@),
            ErrorCode::InvalidSeparator => Some("Invalid separator"@),
            ErrorCode::DataTypeError => Some("Data type error"@),
            ErrorCode::GetNotAllowed => Some("GET not allowed"@),
            ErrorCode::ParameterNotAllowed => Some("Parameter not allowed"@),
            ErrorCode::MissingParameter => Some("Missing parameter"@),
            ErrorCode::CommandHeaderError => Some("Command header error"@),
            ErrorCode::HeaderSeparatorError => Some("Header separator error"@),
            ErrorCode::ProgramMnemonicTooLong => Some("Program mnemonic too long"@),
            ErrorCode::UndefinedHeader => Some("Undefined header"@),
            ErrorCode::HeaderSuffixOutOfRange => Some("Header suffix out of range"@),
            ErrorCode::UnexpectedNumberOfParameters => Some("Unexpected number of parameters"@),
            ErrorCode::NumericDataError => Some("Numeric data error"@),
            ErrorCode::InvalidCharacterInNumber => Some("Invalid character in number"@),
            ErrorCode::ExponentTooLarge => Some("Exponent too large"@),
            ErrorCode::TooManyDigits => Some("Too many digits"@),
            ErrorCode::NumericDataNotAllowed => Some("Numeric data not allowed"@),
            ErrorCode::SuffixError => Some("Suffix error"@),
            ErrorCode::InvalidSuffix => Some("Invalid suffix"@),
            ErrorCode::SuffixTooLong => Some("Suffix too long"@),
            ErrorCode::SuffixNotAllowed => Some("Suffix not allowed"@),
            ErrorCode::CharacterDataError => Some("Character data error"@),
            ErrorCode::InvalidCharacterData => Some("Invalid character data"@),
            ErrorCode::CharacterDataTooLong => Some("Character data too long"@),
            ErrorCode::CharacterDataNotAllowed => Some("Character data not allowed"@),
            ErrorCode::StringDataError => Some("String data error"@),
            ErrorCode::InvalidStringData => Some("Invalid string data"@),
            ErrorCode::StringDataNotAllowed => Some("String data not allowed"@),
            ErrorCode::BlockDataError => Some("Block data error"@),
            ErrorCode::InvalidBlockData => Some("Invalid block data"@),
            ErrorCode::BlockDataNotAllowed => Some("Block data not allowed"@),
            ErrorCode::ExpressionError => Some("Expression error"@),
            ErrorCode::InvalidExpression => Some("Invalid expression"@),
            ErrorCode::ExpressionDataNotAllowed => Some("Expression data not allowed"@),
            ErrorCode::ExecutionError => Some("Execution error"@),
            ErrorCode::ParameterError => Some("Parameter error"@),
            ErrorCode::SettingsConflict => Some("Settings conflict"@),
            ErrorCode::DataOutOfRange => Some("Data out of range"@),
            ErrorCode::TooMuchData => Some("Too much data"@),
            ErrorCode::IllegalParameterValue => Some("Illegal parameter value"@),
            ErrorCode::OutOfMemory => Some("Out of memory"@),
            ErrorCode::ExecExpressionError => Some("Expression error"@),
            ErrorCode::DeviceSpecificError => Some("Device-specific error"@),
            ErrorCode::SystemError => Some("System error"@),
            ErrorCode::SelfTestFailed => Some("Self-test failed"@),
            ErrorCode::QueueOverflow => Some("Queue overflow"@),
            ErrorCode::QueryError => Some("Query error"@),
            ErrorCode::QueryInterrupted => Some("Query INTERRUPTED"@),
            ErrorCode::QueryUnterminated => Some("Query UNTERMINATED"@),
            ErrorCode::QueryDeadlocked => Some("Query DEADLOCKED"@),
            ErrorCode::QueryUnterminatedAfterIndefiniteResponse => Some("Query UNTERMINATED after indefinite response"@),
            ErrorCode::Custom(_) => None,
        }
    }

    /// The standard message of the error, if it has one.
    pub fn get_message(self) -> (r: Option<&'static str>)
        ensures
            r is Some == self.message() is Some,
            r matches Some(text) ==> Some(text@) == self.message(),
    {
        match self {
            ErrorCode::NoError => Some("No error"),
            ErrorCode::CommandError => Some("Command error"),
            ErrorCode::InvalidCharacter => Some("Invalid character"),
            ErrorCode::SyntaxError => Some("Syntax error"),
            ErrorCode::InvalidSeparator => Some("Invalid separator"),
            ErrorCode::DataTypeError => Some("Data type error"),
            ErrorCode::GetNotAllowed => Some("GET not allowed"),
            ErrorCode::ParameterNotAllowed => Some("Parameter not allowed"),
            ErrorCode::MissingParameter => Some("Missing parameter"),
            ErrorCode::CommandHeaderError => Some("Command header error"),
            ErrorCode::HeaderSeparatorError => Some("Header separator error"),
            ErrorCode::ProgramMnemonicTooLong => Some("Program mnemonic too long"),
            ErrorCode::UndefinedHeader => Some("Undefined header"),
            ErrorCode::HeaderSuffixOutOfRange => Some("Header suffix out of range"),
            ErrorCode::UnexpectedNumberOfParameters => Some("Unexpected number of parameters"),
            ErrorCode::NumericDataError => Some("Numeric data error"),
            ErrorCode::InvalidCharacterInNumber => Some("Invalid character in number"),
            ErrorCode::ExponentTooLarge => Some("Exponent too large"),
            ErrorCode::TooManyDigits => Some("Too many digits"),
            ErrorCode::NumericDataNotAllowed => Some("Numeric data not allowed"),
            ErrorCode::SuffixError => Some("Suffix error"),
            ErrorCode::InvalidSuffix => Some("Invalid suffix"),
            ErrorCode::SuffixTooLong => Some("Suffix too long"),
            ErrorCode::SuffixNotAllowed => Some("Suffix not allowed"),
            ErrorCode::CharacterDataError => Some("Character data error"),
            ErrorCode::InvalidCharacterData => Some("Invalid character data"),
            ErrorCode::CharacterDataTooLong => Some("Character data too long"),
            ErrorCode::CharacterDataNotAllowed => Some("Character data not allowed"),
            ErrorCode::StringDataError => Some("String data error"),
            ErrorCode::InvalidStringData => Some("Invalid string data"),
            ErrorCode::StringDataNotAllowed => Some("String data not allowed"),
            ErrorCode::BlockDataError => Some("Block data error"),
            ErrorCode::InvalidBlockData => Some("Invalid block data"),
            ErrorCode::BlockDataNotAllowed => Some("Block data not allowed"),
            ErrorCode::ExpressionError => Some("Expression error"),
            ErrorCode::InvalidExpression => Some("Invalid expression"),
            ErrorCode::ExpressionDataNotAllowed => Some("Expression data not allowed"),
            ErrorCode::ExecutionError => Some("Execution error"),
            ErrorCode::ParameterError => Some("Parameter error"),
            ErrorCode::SettingsConflict => Some("Settings conflict"),
            ErrorCode::DataOutOfRange => Some("Data out of range"),
            ErrorCode::TooMuchData => Some("Too much data"),
            ErrorCode::IllegalParameterValue => Some("Illegal parameter value"),
            ErrorCode::OutOfMemory => Some("Out of memory"),
            ErrorCode::ExecExpressionError => Some("Expression error"),
            ErrorCode::DeviceSpecificError => Some("Device-specific error"),
            ErrorCode::SystemError => Some("System error"),
            ErrorCode::SelfTestFailed => Some("Self-test failed"),
            ErrorCode::QueueOverflow => Some("Queue overflow"),
            ErrorCode::QueryError => Some("Query error"),
            ErrorCode::QueryInterrupted => Some("Query INTERRUPTED"),
            ErrorCode::QueryUnterminated => Some("Query UNTERMINATED"),
            ErrorCode::QueryDeadlocked => Some("Query DEADLOCKED"),
            ErrorCode::QueryUnterminatedAfterIndefiniteResponse => Some("Query UNTERMINATED after indefinite response"),
            ErrorCode::Custom(_) => None,
        }
    }

    /// The event status register bit of the class that the error belongs to:
    /// none for number zero, the command, execution and query classes for
    /// their ranges of a hundred numbers, and the device-dependent class for
    /// every other number.
    pub open spec fn class_mask(self) -> u8 {
        let n = self.code();
        if n == 0 {
            0
        } else if -199 <= n <= -100 {
            ESR_COMMAND_ERROR
        } else if -299 <= n <= -200 {
            ESR_EXECUTION_ERROR
        } else if -499 <= n <= -400 {
            ESR_QUERY_ERROR
        } else {
            ESR_DEVICE_ERROR
        }
    }

    /// The bit that this error sets in the event status register: exactly
    /// one of the four class bits, unless the number of the error is zero.
    pub fn esr_mask(self) -> (r: u8)
        ensures
            r == self.class_mask(),
            self.code() != 0 ==> r == ESR_COMMAND_ERROR || r == ESR_EXECUTION_ERROR || r
                == ESR_DEVICE_ERROR || r == ESR_QUERY_ERROR,
            self.code() == 0 ==> r == 0,
    {
        let n: i16 = self.get_code();
        if n == 0 {
            0
        } else if -199 <= n && n <= -100 {
            ESR_COMMAND_ERROR
        } else if -299 <= n && n <= -200 {
            ESR_EXECUTION_ERROR
        } else if -499 <= n && n <= -400 {
            ESR_QUERY_ERROR
        } else {
            ESR_DEVICE_ERROR
        }
    }
}

/// An error as it is queued and reported.
#[derive(Clone, Copy, Debug, PartialEq, Eq, Structural)]
pub struct Error {
    pub code: ErrorCode,
}

impl Error {
    /// The error with the given code.
    pub fn new(code: ErrorCode) -> (r: Error)
        ensures
            r.code == code,
    {
        Error { code }
    }

    /// The number of the error.
    pub fn get_code(&self) -> (r: i16)
        ensures
            r == self.code.code(),
    {
        self.code.get_code()
    }

    /// The bit that this error sets in the event status register.
    pub fn esr_mask(&self) -> (r: u8)
        ensures
            r == self.code.class_mask(),
    {
        self.code.esr_mask()
    }

    /// The standard message of the error, if it has one.
    pub fn get_message(&self) -> (r: Option<&'static str>)
        ensures
            r is Some == self.code.message() is Some,
            r matches Some(text) ==> Some(text@) == self.code.message(),
    {
        self.code.get_message()
    }
}

impl From<ErrorCode> for Error {
    fn from(code: ErrorCode) -> (r: Error) {
        Error { code }
    }
}

impl vstd::std_specs::convert::FromSpecImpl<ErrorCode> for Error {
    open spec fn obeys_from_spec() -> bool {
        true
    }

    open spec fn from_spec(code: ErrorCode) -> Error {
        Error { code }
    }
}

} // verus!

//! The tokens of a program message.

use vstd::prelude::*;
use vstd::string::StringSliceAdditionalSpecFns;

verus! {

/// A token of a program message. Tokens that carry bytes borrow them from
/// the message.
#[derive(Debug, PartialEq, Clone, Copy)]
pub enum Token<'a> {
    /// The `:` between or before the mnemonics of a header.
    HeaderMnemonicSeparator,
    /// The `*` that starts a common command.
    HeaderCommonPrefix,
    /// The `?` that ends the header of a query.
    HeaderQuerySuffix,
    /// The `;` between two message units.
    ProgramMessageUnitSeparator,
    /// The line feed that ends a message.
    ProgramMessageTerminator,
    /// The white space between a header and its data.
    ProgramHeaderSeparator,
    /// The `,` between two data items.
    ProgramDataSeparator,
    /// One mnemonic of a header.
    ProgramMnemonic(&'a [u8]),
    /// A word in the place of data.
    CharacterProgramData(&'a [u8]),
    /// A decimal number, as it is written: sign, digits, point and exponent.
    DecimalNumericProgramData(&'a [u8]),
    /// The unit that follows a number.
    SuffixProgramData(&'a [u8]),
    /// The value of a hexadecimal, octal or binary number.
    NonDecimalNumericProgramData(u32),
    /// The bytes between the quotes of a string; a doubled quote is kept
    /// doubled.
    StringProgramData(&'a [u8]),
    /// The payload of an arbitrary block.
    ArbitraryBlockData(&'a [u8]),
    /// The bytes between the parentheses of an expression.
    ExpressionProgramData(&'a [u8]),
    /// The payload of a UTF-8 block.
    Utf8BlockData(&'a str),
}

/// The model of a token: its kind and the bytes or the value that it
/// carries.
pub enum TokenView {
    HeaderMnemonicSeparator,
    HeaderCommonPrefix,
    HeaderQuerySuffix,
    ProgramMessageUnitSeparator,
    ProgramMessageTerminator,
    ProgramHeaderSeparator,
    ProgramDataSeparator,
    ProgramMnemonic(Seq<u8>),
    CharacterProgramData(Seq<u8>),
    DecimalNumericProgramData(Seq<u8>),
    SuffixProgramData(Seq<u8>),
    NonDecimalNumericProgramData(u32),
    StringProgramData(Seq<u8>),
    ArbitraryBlockData(Seq<u8>),
    ExpressionProgramData(Seq<u8>),
    /// The UTF-8 encoding of the text.
    Utf8BlockData(Seq<u8>),
}

impl TokenView {
    /// Whether the token is data of any kind: a data object, an expression
    /// or a UTF-8 block.
    pub open spec fn is_data(self) -> bool {
        self.is_data_object() || self is ExpressionProgramData || self is Utf8BlockData
    }

    /// Whether the token is one of the six kinds that count as a data object.
    pub open spec fn is_data_object(self) -> bool {
        self is CharacterProgramData || self is DecimalNumericProgramData
            || self is SuffixProgramData || self is NonDecimalNumericProgramData
            || self is StringProgramData || self is ArbitraryBlockData
    }
}

impl<'a> View for Token<'a> {
    type V = TokenView;

    open spec fn view(&self) -> TokenView {
        match *self {
            Token::HeaderMnemonicSeparator => TokenView::HeaderMnemonicSeparator,
            Token::HeaderCommonPrefix => TokenView::HeaderCommonPrefix,
            Token::HeaderQuerySuffix => TokenView::HeaderQuerySuffix,
            Token::ProgramMessageUnitSeparator => TokenView::ProgramMessageUnitSeparator,
            Token::ProgramMessageTerminator => TokenView::ProgramMessageTerminator,
            Token::ProgramHeaderSeparator => TokenView::ProgramHeaderSeparator,
            Token::ProgramDataSeparator => TokenView::ProgramDataSeparator,
            Token::ProgramMnemonic(s) => TokenView::ProgramMnemonic(s@),
            Token::CharacterProgramData(s) => TokenView::CharacterProgramData(s@),
            Token::DecimalNumericProgramData(s) => TokenView::DecimalNumericProgramData(s@),
            Token::SuffixProgramData(s) => TokenView::SuffixProgramData(s@),
            Token::NonDecimalNumericProgramData(v) => TokenView::NonDecimalNumericProgramData(v),
            Token::StringProgramData(s) => TokenView::StringProgramData(s@),
            Token::ArbitraryBlockData(s) => TokenView::ArbitraryBlockData(s@),
            Token::ExpressionProgramData(s) => TokenView::ExpressionProgramData(s@),
            Token::Utf8BlockData(s) => TokenView::Utf8BlockData(s.spec_bytes()),
        }
    }
}

impl<'a> Token<'a> {
    /// Whether the token is character data, a number, a suffix, a string or
    /// an arbitrary block.
    pub fn is_data_object(&self) -> (r: bool)
        ensures
            r == self@.is_data_object(),
    {
        match self {
            Token::CharacterProgramData(_)
            | Token::DecimalNumericProgramData(_)
            | Token::SuffixProgramData(_)
            | Token::NonDecimalNumericProgramData(_)
            | Token::StringProgramData(_)
            | Token::ArbitraryBlockData(_) => true,
            _ => false,
        }
    }
}

} // verus!

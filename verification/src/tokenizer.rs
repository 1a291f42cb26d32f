//! The lexer: cuts a program message into tokens, one call at a time.

use vstd::prelude::*;
use vstd::slice::slice_subrange;
use crate::chars::{ascii_to_digit, is_alpha, is_ascii, is_blank, is_digit, is_space};
use crate::decimal::scan_decimal;
use crate::error::{Error, ErrorCode};
use crate::lexis::{
    decimal_usize, is_data_end, lemma_step_advances, lex_arbitrary, lex_character_data,
    lex_decimal, lex_expression, lex_mnemonic, lex_nondecimal, lex_string, lex_suffix, lex_utf8,
    lexemes, radix_scan, string_close, then_separator, LexState, Lexed, Lexeme, WORD_LIMIT,
};
use crate::scan::{run_end, scan_run, ByteClass};
use crate::token::{Token, TokenView};
use crate::value::utf8_text;

verus! {

/// A lexer over one program message.
#[derive(Clone, Copy, Debug)]
pub struct Tokenizer<'a> {
    buf: &'a [u8],
    pos: usize,
    in_header: bool,
    in_common: bool,
    named: bool,
    in_numeric: bool,
    utf8_blocks: bool,
}

/// The model of what a read returned.
pub open spec fn result_view<'a>(r: Result<Token<'a>, ErrorCode>) -> Result<TokenView, ErrorCode> {
    match r {
        Ok(token) => Ok(token@),
        Err(code) => Err(code),
    }
}

/// The model of what a step of the lexer returned.
pub open spec fn item_view<'a>(r: Option<Result<Token<'a>, ErrorCode>>) -> Option<
    Result<TokenView, ErrorCode>,
> {
    match r {
        Some(result) => Some(result_view(result)),
        None => None,
    }
}

/// The model of what a read of data returned.
pub open spec fn data_view<'a>(r: Result<Option<Token<'a>>, ErrorCode>) -> Result<
    Option<TokenView>,
    ErrorCode,
> {
    match r {
        Ok(Some(token)) => Ok(Some(token@)),
        Ok(None) => Ok(None),
        Err(code) => Err(code),
    }
}

/// A read that started in state `before` returned `r` and left the lexer in
/// state `after`, as `lexed` says.
pub open spec fn reads<'a>(
    before: LexState,
    lexed: Lexed,
    r: Result<Token<'a>, ErrorCode>,
    after: LexState,
) -> bool {
    &&& before.wf()
    &&& after.wf()
    &&& after == before.at(lexed.end)
    &&& result_view(r) == lexed.result
}

impl<'a> View for Tokenizer<'a> {
    type V = LexState;

    closed spec fn view(&self) -> LexState {
        LexState {
            input: self.buf@,
            pos: if self.pos <= self.buf@.len() {
                self.pos as int
            } else {
                self.buf@.len() as int
            },
            in_header: self.in_header,
            in_common: self.in_common,
            named: self.named,
            in_numeric: self.in_numeric,
            utf8_blocks: self.utf8_blocks,
        }
    }
}

/// Calls `lexical_core::parse::<usize>`, which reads the whole of `digits` as
/// a decimal number: an optional `+`, then digits only and at least one of
/// them. It fails on anything else and on a value that does not fit the
/// machine word.
#[verifier::external_body]
fn parse_block_length(digits: &[u8]) -> (r: Option<usize>)
    ensures
        r == decimal_usize(digits@),
{
    lexical_core::parse::<usize>(digits).ok()
}

/// Reads the digits of a number in the given radix from `pos` on.
fn scan_radix(buf: &[u8], pos: usize, radix: u8) -> (r: (Result<u32, ErrorCode>, usize))
    requires
        pos <= buf@.len(),
        radix == 2 || radix == 8 || radix == 16,
    ensures
        pos <= r.1 <= buf@.len(),
        r.1 == radix_scan(buf@, pos as int, radix, 0).1,
        match (r.0, radix_scan(buf@, pos as int, radix, 0).0) {
            (Ok(value), Ok(v)) => value == v,
            (Err(code), Err(c)) => code == c,
            _ => false,
        },
{
    let mut acc: u32 = 0;
    let mut i = pos;
    while i < buf.len() && ByteClass::Alnum.contains(buf[i])
        invariant
            pos <= i <= buf@.len(),
            radix == 2 || radix == 8 || radix == 16,
            radix_scan(buf@, pos as int, radix, 0) == radix_scan(buf@, i as int, radix, acc as nat),
        decreases buf@.len() - i,
    {
        match ascii_to_digit(buf[i], radix) {
            None => {
                return (Err(ErrorCode::InvalidCharacterInNumber), i + 1);
            },
            Some(d) => {
                assert(acc * radix <= 0xffff_ffff * 16) by (nonlinear_arith)
                    requires
                        acc <= 0xffff_ffff,
                        radix <= 16,
                ;
                let wide: u64 = acc as u64 * radix as u64 + d as u64;
                if wide > 0xffff_ffff {
                    return (Err(ErrorCode::ExponentTooLarge), i + 1);
                }
                acc = wide as u32;
            },
        }
        i += 1;
    }
    (Ok(acc), i)
}

/// Looks for the quote that closes a string whose content starts at `start`.
fn find_string_close(buf: &[u8], start: usize, quote: u8, ascii: bool) -> (r: Result<
    usize,
    (ErrorCode, usize),
>)
    requires
        start <= buf@.len(),
    ensures
        match (r, string_close(buf@, start as int, quote, ascii)) {
            (Ok(close), Ok(c)) => close == c && start <= close < buf@.len(),
            (Err((code, end)), Err((c, e))) => code == c && end == e && start <= end
                <= buf@.len(),
            _ => false,
        },
{
    let len = buf.len();
    let mut i = start;
    while i < len
        invariant
            start <= i <= len,
            len == buf@.len(),
            string_close(buf@, start as int, quote, ascii) == string_close(
                buf@,
                i as int,
                quote,
                ascii,
            ),
        decreases len - i,
    {
        let c = buf[i];
        if c == quote {
            if i + 1 < len && buf[i + 1] == quote {
                i += 2;
            } else {
                return Ok(i);
            }
        } else if ascii && !is_ascii(c) {
            return Err((ErrorCode::InvalidCharacter, i + 1));
        } else {
            i += 1;
        }
    }
    Err((ErrorCode::InvalidStringData, i))
}

impl<'a> Tokenizer<'a> {
    #[verifier::type_invariant]
    spec fn inv(self) -> bool {
        self.pos <= self.buf@.len()
    }

    /// A lexer at the start of `buf`, for which `#s` starts no UTF-8 block.
    pub fn new(buf: &'a [u8]) -> (r: Self)
        ensures
            r@ == LexState::start(buf@, false),
    {
        Tokenizer {
            buf,
            pos: 0,
            in_header: true,
            in_common: false,
            named: false,
            in_numeric: false,
            utf8_blocks: false,
        }
    }

    /// A lexer at the start of `buf` that reads `#s"..."` as a UTF-8 block.
    pub fn with_utf8_blocks(buf: &'a [u8]) -> (r: Self)
        ensures
            r@ == LexState::start(buf@, true),
    {
        Tokenizer {
            buf,
            pos: 0,
            in_header: true,
            in_common: false,
            named: false,
            in_numeric: false,
            utf8_blocks: true,
        }
    }

    /// A lexer over the empty message.
    pub fn empty() -> (r: Self)
        ensures
            r@ == LexState::start(Seq::empty(), false),
    {
        let none: &[u8] = &[];
        proof {
            assert(none@ =~= Seq::<u8>::empty());
        }
        Tokenizer::new(none)
    }

    /// The position of a lexer lies inside its message.
    pub proof fn lemma_wf(self)
        ensures
            self@.wf(),
    {
    }

    /// The number of bytes that have been read.
    pub fn position(&self) -> (r: usize)
        ensures
            r == self@.pos,
    {
        proof {
            use_type_invariant(self);
        }
        self.pos
    }

    /// The bytes from `from` to `to`.
    fn slice(&self, from: usize, to: usize) -> (r: &'a [u8])
        requires
            from <= to <= self@.input.len(),
        ensures
            r@ == self@.input.subrange(from as int, to as int),
    {
        slice_subrange(self.buf, from, to)
    }

    /// Skips white space, up to a line feed at most: the line feed ends the
    /// message and is read as a token.
    pub fn skip_ws(&mut self)
        ensures
            old(self)@.wf(),
            final(self)@.wf(),
            final(self)@ == old(self)@.at(
                run_end(old(self)@.input, old(self)@.pos, ByteClass::Blank),
            ),
    {
        proof {
            use_type_invariant(&*self);
        }
        let end = scan_run(self.buf, self.pos, ByteClass::Blank);
        self.pos = end;
    }

    /// Skips white space, up to a line feed at most, and checks that a `,`,
    /// a `;`, a line feed or the end of the message follows. Returns `error`
    /// where something else follows.
    pub fn skip_ws_to_separator(&mut self, error: ErrorCode) -> (r: Result<(), ErrorCode>)
        ensures
            old(self)@.wf(),
            final(self)@.wf(),
            final(self)@ == old(self)@.at(
                run_end(old(self)@.input, old(self)@.pos, ByteClass::Blank),
            ),
            r == if final(self)@.pos < final(self)@.input.len() && !is_data_end(
                final(self)@.input[final(self)@.pos],
            ) {
                Err::<(), ErrorCode>(error)
            } else {
                Ok::<(), ErrorCode>(())
            },
    {
        self.skip_ws();
        proof {
            use_type_invariant(&*self);
        }
        if self.pos < self.buf.len() {
            let c = self.buf[self.pos];
            if c != 0x2c && c != 0x3b && c != 0x0a {
                return Err(error);
            }
        }
        Ok(())
    }

    /// Ends the read of a data item: `token` stands if a separator or the
    /// end of the message follows the white space behind it.
    fn settle(&mut self, token: Token<'a>, error: ErrorCode) -> (r: Result<Token<'a>, ErrorCode>)
        ensures
            reads(
                old(self)@,
                then_separator(old(self)@.input, token@, old(self)@.pos, error),
                r,
                final(self)@,
            ),
    {
        match self.skip_ws_to_separator(error) {
            Ok(_) => Ok(token),
            Err(code) => Err(code),
        }
    }

    /// Reads a mnemonic of a header.
    pub fn read_mnemonic(&mut self) -> (r: Result<Token<'a>, ErrorCode>)
        ensures
            reads(old(self)@, lex_mnemonic(old(self)@.input, old(self)@.pos), r, final(self)@),
    {
        proof {
            use_type_invariant(&*self);
        }
        let start = self.pos;
        let end = scan_run(self.buf, start, ByteClass::Word);
        if end - start > WORD_LIMIT {
            self.pos = start + WORD_LIMIT + 1;
            return Err(ErrorCode::ProgramMnemonicTooLong);
        }
        self.pos = end;
        Ok(Token::ProgramMnemonic(self.slice(start, end)))
    }

    /// Reads character data and the separator behind it.
    pub fn read_character_data(&mut self) -> (r: Result<Token<'a>, ErrorCode>)
        ensures
            reads(
                old(self)@,
                lex_character_data(old(self)@.input, old(self)@.pos),
                r,
                final(self)@,
            ),
    {
        proof {
            use_type_invariant(&*self);
        }
        let start = self.pos;
        let end = scan_run(self.buf, start, ByteClass::Word);
        if end - start > WORD_LIMIT {
            self.pos = start + WORD_LIMIT + 1;
            return Err(ErrorCode::CharacterDataTooLong);
        }
        self.pos = end;
        let token = Token::CharacterProgramData(self.slice(start, end));
        self.settle(token, ErrorCode::InvalidCharacterData)
    }

    /// Reads a suffix and the separator behind it.
    pub fn read_suffix_data(&mut self) -> (r: Result<Token<'a>, ErrorCode>)
        ensures
            reads(old(self)@, lex_suffix(old(self)@.input, old(self)@.pos), r, final(self)@),
    {
        proof {
            use_type_invariant(&*self);
        }
        let start = self.pos;
        let end = scan_run(self.buf, start, ByteClass::Suffix);
        if end - start > WORD_LIMIT {
            self.pos = start + WORD_LIMIT + 1;
            return Err(ErrorCode::SuffixTooLong);
        }
        self.pos = end;
        let token = Token::SuffixProgramData(self.slice(start, end));
        self.settle(token, ErrorCode::InvalidSuffix)
    }

    /// Reads a decimal number and the white space behind it.
    pub fn read_numeric_data(&mut self) -> (r: Result<Token<'a>, ErrorCode>)
        ensures
            reads(old(self)@, lex_decimal(old(self)@.input, old(self)@.pos), r, final(self)@),
    {
        proof {
            use_type_invariant(&*self);
        }
        let start = self.pos;
        let (scanned, end) = scan_decimal(self.buf, start);
        self.pos = end;
        match scanned {
            Err(code) => Err(code),
            Ok(_) => {
                let token = Token::DecimalNumericProgramData(self.slice(start, end));
                self.skip_ws();
                Ok(token)
            },
        }
    }

    /// Reads a number in radix 16, 8 or 2, as the letter `radix` selects it,
    /// and the separator behind it.
    pub fn read_nondecimal_data(&mut self, radix: u8) -> (r: Result<Token<'a>, ErrorCode>)
        ensures
            reads(
                old(self)@,
                lex_nondecimal(old(self)@.input, old(self)@.pos, radix),
                r,
                final(self)@,
            ),
    {
        proof {
            use_type_invariant(&*self);
        }
        let base: u8 = if radix == 0x48 || radix == 0x68 {
            16
        } else if radix == 0x51 || radix == 0x71 {
            8
        } else if radix == 0x42 || radix == 0x62 {
            2
        } else {
            return Err(ErrorCode::NumericDataError);
        };
        let start = self.pos;
        let (scanned, end) = scan_radix(self.buf, start, base);
        self.pos = end;
        match scanned {
            Err(code) => Err(code),
            Ok(value) => {
                if end == start {
                    return Err(ErrorCode::NumericDataError);
                }
                self.settle(Token::NonDecimalNumericProgramData(value), ErrorCode::InvalidSeparator)
            },
        }
    }

    /// Reads a string in quotes `x`, from the opening quote on, and the
    /// separator behind it. With `ascii` set, a byte outside ASCII is an
    /// error.
    pub fn read_string_data(&mut self, x: u8, ascii: bool) -> (r: Result<Token<'a>, ErrorCode>)
        ensures
            reads(
                old(self)@,
                lex_string(old(self)@.input, old(self)@.pos, x, ascii),
                r,
                final(self)@,
            ),
    {
        proof {
            use_type_invariant(&*self);
        }
        let start = if self.pos < self.buf.len() {
            self.pos + 1
        } else {
            self.pos
        };
        match find_string_close(self.buf, start, x, ascii) {
            Err((code, end)) => {
                self.pos = end;
                Err(code)
            },
            Ok(close) => {
                self.pos = close + 1;
                let token = Token::StringProgramData(self.slice(start, close));
                self.settle(token, ErrorCode::InvalidSeparator)
            },
        }
    }

    /// Reads an arbitrary block from behind its format digit on.
    pub fn read_arbitrary_data(&mut self, format: u8) -> (r: Result<Token<'a>, ErrorCode>)
        ensures
            reads(
                old(self)@,
                lex_arbitrary(old(self)@.input, old(self)@.pos, format),
                r,
                final(self)@,
            ),
    {
        proof {
            use_type_invariant(&*self);
        }
        let len = self.buf.len();
        let start = self.pos;
        match ascii_to_digit(format, 10) {
            None => Err(ErrorCode::InvalidBlockData),
            Some(n) => {
                if n == 0 {
                    if start >= len {
                        return Err(ErrorCode::InvalidBlockData);
                    }
                    if self.buf[len - 1] != 0x0a {
                        self.pos = len;
                        return Err(ErrorCode::InvalidBlockData);
                    }
                    self.pos = len - 1;
                    Ok(Token::ArbitraryBlockData(self.slice(start, len - 1)))
                } else {
                    let n = n as usize;
                    if len - start < n {
                        return Err(ErrorCode::InvalidBlockData);
                    }
                    let body = start + n;
                    match parse_block_length(self.slice(start, body)) {
                        None => Err(ErrorCode::InvalidBlockData),
                        Some(size) => {
                            if len - body < size {
                                self.pos = body;
                                return Err(ErrorCode::InvalidBlockData);
                            }
                            self.pos = body + size;
                            let token = Token::ArbitraryBlockData(self.slice(body, body + size));
                            self.settle(token, ErrorCode::InvalidSeparator)
                        },
                    }
                }
            },
        }
    }

    /// Reads a UTF-8 block from behind `#s` on.
    pub fn read_utf8_data(&mut self, _format: u8) -> (r: Result<Token<'a>, ErrorCode>)
        ensures
            reads(old(self)@, lex_utf8(old(self)@.input, old(self)@.pos), r, final(self)@),
    {
        proof {
            use_type_invariant(&*self);
        }
        if self.pos >= self.buf.len() {
            return Err(ErrorCode::InvalidBlockData);
        }
        let x = self.buf[self.pos];
        if x != 0x22 && x != 0x27 {
            return Err(ErrorCode::InvalidBlockData);
        }
        match self.read_string_data(x, false) {
            Ok(Token::StringProgramData(bytes)) => match utf8_text(bytes) {
                Some(text) => Ok(Token::Utf8BlockData(text)),
                None => Err(ErrorCode::InvalidBlockData),
            },
            Ok(_) => Err(ErrorCode::InvalidBlockData),
            Err(code) => Err(code),
        }
    }

    /// Reads an expression, from the opening parenthesis on, and the
    /// separator behind it.
    pub fn read_expression_data(&mut self) -> (r: Result<Token<'a>, ErrorCode>)
        ensures
            reads(old(self)@, lex_expression(old(self)@.input, old(self)@.pos), r, final(self)@),
    {
        proof {
            use_type_invariant(&*self);
        }
        let len = self.buf.len();
        let start = if self.pos < len {
            self.pos + 1
        } else {
            self.pos
        };
        let end = scan_run(self.buf, start, ByteClass::Expression);
        if end >= len {
            self.pos = end;
            return Err(ErrorCode::InvalidExpression);
        }
        if self.buf[end] != 0x29 {
            self.pos = end + 1;
            return Err(ErrorCode::InvalidExpression);
        }
        self.pos = end + 1;
        let token = Token::ExpressionProgramData(self.slice(start, end));
        self.settle(token, ErrorCode::InvalidSuffix)
    }
}

impl<'a> Tokenizer<'a> {
    /// Moves past one byte and yields `result`.
    fn pass(&mut self, result: Result<Token<'a>, ErrorCode>) -> (r: Option<
        Result<Token<'a>, ErrorCode>,
    >)
        requires
            old(self)@.pos < old(self)@.input.len(),
        ensures
            final(self)@ == old(self)@.at(old(self)@.pos + 1),
            r == Some(result),
    {
        let len = self.buf.len();
        assert(self.pos < len);
        self.pos = self.pos + 1;
        Some(result)
    }

    /// What follows `#`, which was read already.
    fn next_hash(&mut self) -> (r: Result<Token<'a>, ErrorCode>)
        ensures
            (Some(result_view(r)), final(self)@) == old(self)@.step_hash(old(self)@.pos),
            old(self)@.wf(),
    {
        proof {
            use_type_invariant(&*self);
        }
        if self.in_header {
            return Err(ErrorCode::CommandHeaderError);
        }
        if self.pos >= self.buf.len() {
            return Err(ErrorCode::BlockDataError);
        }
        let x = self.buf[self.pos];
        self.pos = self.pos + 1;
        if self.utf8_blocks && x == 0x73 {
            self.read_utf8_data(x)
        } else if is_digit(x) {
            self.read_arbitrary_data(x)
        } else {
            self.read_nondecimal_data(x)
        }
    }

    /// Reads the next token. Returns `None` at the end of the message, and
    /// otherwise the token or the error found; each call that returns
    /// something moves forward by at least one byte.
    pub fn next(&mut self) -> (r: Option<Result<Token<'a>, ErrorCode>>)
        ensures
            (item_view(r), final(self)@) == old(self)@.step(),
            old(self)@.wf(),
            final(self)@.wf(),
            final(self)@.input == old(self)@.input,
            r is None <==> old(self)@.pos == old(self)@.input.len(),
            r is None ==> final(self)@ == old(self)@,
            r is Some ==> old(self)@.pos < final(self)@.pos,
    {
        proof {
            reveal(LexState::step);
            use_type_invariant(&*self);
            lemma_step_advances(self@);
        }
        let len = self.buf.len();
        if self.pos >= len {
            return None;
        }
        let c = self.buf[self.pos];
        let p = self.pos + 1;
        if c == 0x2a {
            let refused = !self.in_header || self.in_common || self.named || (p < len && !is_alpha(
                self.buf[p],
            ));
            self.in_common = true;
            if refused {
                self.pass(Err(ErrorCode::CommandHeaderError))
            } else {
                self.pass(Ok(Token::HeaderCommonPrefix))
            }
        } else if c == 0x3a {
            if (p < len && !is_alpha(self.buf[p])) || !self.in_header || self.in_common {
                self.pass(Err(ErrorCode::InvalidSeparator))
            } else {
                self.pass(Ok(Token::HeaderMnemonicSeparator))
            }
        } else if c == 0x3f {
            if (p < len && !is_space(self.buf[p]) && self.buf[p] != 0x3b) || !self.in_header {
                self.pass(Err(ErrorCode::InvalidSeparator))
            } else {
                self.in_header = false;
                self.pass(Ok(Token::HeaderQuerySuffix))
            }
        } else if c == 0x3b {
            self.pos = p;
            self.skip_ws();
            proof {
                use_type_invariant(&*self);
            }
            self.in_header = true;
            self.in_common = false;
            self.named = false;
            Some(Ok(Token::ProgramMessageUnitSeparator))
        } else if c == 0x0a {
            self.pass(Ok(Token::ProgramMessageTerminator))
        } else if c == 0x2c {
            if self.in_header {
                self.pass(Err(ErrorCode::HeaderSeparatorError))
            } else {
                self.in_numeric = false;
                self.pos = p;
                self.skip_ws();
                proof {
                    use_type_invariant(&*self);
                }
                if self.pos < len {
                    let d = self.buf[self.pos];
                    if d == 0x2c || d == 0x3b || d == 0x0a {
                        return Some(Err(ErrorCode::SyntaxError));
                    }
                }
                Some(Ok(Token::ProgramDataSeparator))
            }
        } else if is_blank(c) {
            self.skip_ws();
            proof {
                use_type_invariant(&*self);
            }
            self.in_header = false;
            Some(Ok(Token::ProgramHeaderSeparator))
        } else if is_alpha(c) {
            if self.in_header {
                self.named = true;
                Some(self.read_mnemonic())
            } else if self.in_numeric {
                Some(self.read_suffix_data())
            } else {
                Some(self.read_character_data())
            }
        } else if c == 0x2f {
            if self.in_header {
                self.pass(Err(ErrorCode::InvalidSeparator))
            } else {
                Some(self.read_suffix_data())
            }
        } else if is_digit(c) || c == 0x2d || c == 0x2b || c == 0x2e {
            if self.in_header {
                self.pass(Err(ErrorCode::CommandHeaderError))
            } else {
                self.in_numeric = true;
                Some(self.read_numeric_data())
            }
        } else if c == 0x23 {
            self.pos = p;
            Some(self.next_hash())
        } else if c == 0x27 || c == 0x22 {
            if self.in_header {
                self.pass(Err(ErrorCode::CommandHeaderError))
            } else {
                Some(self.read_string_data(c, true))
            }
        } else if c == 0x28 {
            Some(self.read_expression_data())
        } else if is_ascii(c) {
            self.pass(Err(ErrorCode::SyntaxError))
        } else {
            self.pass(Err(ErrorCode::InvalidCharacter))
        }
    }

    /// Consumes a data separator. A unit separator, a message terminator or
    /// the end of the message is accepted too, and is left unread. Anything
    /// else is an error, and nothing is consumed.
    pub fn next_separator(&mut self) -> (r: Result<(), ErrorCode>)
        ensures
            (r, final(self)@) == old(self)@.separator_step(),
            old(self)@.wf(),
            final(self)@.wf(),
    {
        let mut probe = *self;
        match probe.next() {
            None => Ok(()),
            Some(Err(code)) => Err(code),
            Some(Ok(token)) => match token {
                Token::ProgramDataSeparator => {
                    *self = probe;
                    Ok(())
                },
                Token::ProgramMessageUnitSeparator | Token::ProgramMessageTerminator => Ok(()),
                Token::SuffixProgramData(_) => Err(ErrorCode::SuffixNotAllowed),
                _ => Err(ErrorCode::InvalidSeparator),
            },
        }
    }

    /// Consumes the next data item, with the data separator before it if
    /// there is one. Where no data follows, nothing is consumed, and the
    /// result is `None` for optional data and an error otherwise.
    pub fn next_data(&mut self, optional: bool) -> (r: Result<Option<Token<'a>>, ErrorCode>)
        ensures
            (data_view(r), final(self)@) == old(self)@.data_step(optional),
            old(self)@.wf(),
            final(self)@.wf(),
            old(self)@.pos <= final(self)@.pos,
            final(self)@.input == old(self)@.input,
        decreases old(self)@.input.len() - old(self)@.pos,
    {
        let mut probe = *self;
        match probe.next() {
            None => if optional {
                Ok(None)
            } else {
                Err(ErrorCode::MissingParameter)
            },
            Some(Err(code)) => Err(code),
            Some(Ok(token)) => match token {
                Token::CharacterProgramData(_)
                | Token::DecimalNumericProgramData(_)
                | Token::SuffixProgramData(_)
                | Token::NonDecimalNumericProgramData(_)
                | Token::StringProgramData(_)
                | Token::ArbitraryBlockData(_)
                | Token::ExpressionProgramData(_)
                | Token::Utf8BlockData(_) => {
                    *self = probe;
                    Ok(Some(token))
                },
                Token::ProgramDataSeparator => {
                    *self = probe;
                    self.next_data(false)
                },
                _ => if optional {
                    Ok(None)
                } else {
                    Err(ErrorCode::MissingParameter)
                },
            },
        }
    }

    /// Consumes the next token, which must be an arbitrary block, and
    /// returns its payload.
    pub fn next_arb(&mut self) -> (r: Result<&'a [u8], Error>)
        ensures
            final(self)@ == old(self)@.step().1,
            match (r, old(self)@.arb_step().0) {
                (Ok(bytes), Ok(b)) => bytes@ == b,
                (Err(error), Err(code)) => error.code == code,
                _ => false,
            },
            old(self)@.wf(),
            final(self)@.wf(),
    {
        match self.next() {
            None => Err(Error::new(ErrorCode::MissingParameter)),
            Some(Err(code)) => Err(Error::new(code)),
            Some(Ok(token)) => match token {
                Token::ArbitraryBlockData(bytes) => Ok(bytes),
                Token::DecimalNumericProgramData(_)
                | Token::NonDecimalNumericProgramData(_)
                | Token::StringProgramData(_)
                | Token::CharacterProgramData(_)
                | Token::SuffixProgramData(_) => Err(Error::new(ErrorCode::DataTypeError)),
                _ => Err(Error::new(ErrorCode::MissingParameter)),
            },
        }
    }
}

/// The model of what a read of a number returned.
pub open spec fn decimal_view<'a>(r: Result<Option<(Token<'a>, Option<&'a [u8]>)>, Error>) -> Result<
    Option<(TokenView, Option<Seq<u8>>)>,
    ErrorCode,
> {
    match r {
        Ok(Some((token, Some(suffix)))) => Ok(Some((token@, Some(suffix@)))),
        Ok(Some((token, None))) => Ok(Some((token@, None))),
        Ok(None) => Ok(None),
        Err(error) => Err(error.code),
    }
}

impl<'a> Tokenizer<'a> {
    /// Consumes the next data item where it is a decimal number or
    /// character data, and the suffix behind a number. The suffix is
    /// returned beside the number, for the caller to apply.
    pub fn next_decimal(&mut self, optional: bool) -> (r: Result<
        Option<(Token<'a>, Option<&'a [u8]>)>,
        Error,
    >)
        ensures
            (decimal_view(r), final(self)@) == old(self)@.decimal_step(optional),
            old(self)@.wf(),
            final(self)@.wf(),
    {
        match self.next_data(optional) {
            Err(code) => Err(Error::new(code)),
            Ok(None) => Ok(None),
            Ok(Some(token)) => match token {
                Token::DecimalNumericProgramData(_) => {
                    let mut probe = *self;
                    match probe.next() {
                        Some(Ok(Token::SuffixProgramData(suffix))) => {
                            *self = probe;
                            Ok(Some((token, Some(suffix))))
                        },
                        Some(Err(code)) => Err(Error::new(code)),
                        _ => Ok(Some((token, None))),
                    }
                },
                Token::CharacterProgramData(_) => Ok(Some((token, None))),
                _ => Err(Error::new(ErrorCode::MissingParameter)),
            },
        }
    }
}

impl<'a> Tokenizer<'a> {
    /// Reads the rest of the message and returns everything that the lexer
    /// yields, in order.
    pub fn collect(&mut self) -> (r: Vec<Result<Token<'a>, ErrorCode>>)
        ensures
            r@.len() == lexemes(old(self)@).len(),
            forall|i: int|
                0 <= i < r@.len() ==> result_view(#[trigger] r@[i]) == lexemes(old(self)@)[i].result,
            final(self)@.input == old(self)@.input,
            final(self)@.pos == old(self)@.input.len(),
    {
        let mut out: Vec<Result<Token<'a>, ErrorCode>> = Vec::new();
        proof {
            self.lemma_wf();
        }
        loop
            invariant
                old(self)@.wf(),
                self@.wf(),
                self@.input == old(self)@.input,
                lexemes(old(self)@).len() == out@.len() + lexemes(self@).len(),
                forall|i: int|
                    0 <= i < out@.len() ==> result_view(#[trigger] out@[i]) == lexemes(
                        old(self)@,
                    )[i].result,
                forall|i: int|
                    0 <= i < lexemes(self@).len() ==> (#[trigger] lexemes(self@)[i]).result
                        == lexemes(old(self)@)[out@.len() + i].result,
            decreases self@.input.len() - self@.pos,
        {
            let ghost before = self@;
            let ghost done = out@.len() as int;
            proof {
                lemma_step_advances(before);
            }
            match self.next() {
                None => {
                    return out;
                },
                Some(item) => {
                    out.push(item);
                    proof {
                        let rest = lexemes(self@);
                        let all = lexemes(before);
                        assert(all == seq![
                            Lexeme { result: result_view(item), start: before.pos, end: self@.pos },
                        ] + rest);
                        assert(all[0].result == result_view(item));
                        assert forall|i: int| 0 <= i < rest.len() implies (#[trigger] rest[i]).result
                            == lexemes(old(self)@)[done + 1 + i].result by {
                            assert(all[i + 1] == rest[i]);
                        }
                    }
                },
            }
        }
    }
}

} // verus!

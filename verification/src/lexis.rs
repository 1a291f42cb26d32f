//! What the lexer reads, stated over the bytes of a message.
//!
//! Each function here takes the message and a position and says which token
//! stands there, or which error, and where reading stops. The executable
//! lexer is proved to agree with them.

use vstd::prelude::*;
use vstd::utf8::valid_utf8;
use crate::chars::{is_alpha, is_ascii, is_blank, is_digit, is_space, spec_digit_value};
use crate::decimal::{all_digits, decimal_scan, digits_value, lemma_decimal_scan_bounds};
use crate::error::ErrorCode;
use crate::scan::{lemma_run_end, run_end, ByteClass};
use crate::token::TokenView;

verus! {

/// The longest mnemonic, character data or suffix.
pub const WORD_LIMIT: usize = 12;

/// A token or an error, and the position behind what was read.
pub struct Lexed {
    pub result: Result<TokenView, ErrorCode>,
    pub end: int,
}

/// `,`, `;` or line feed: what may follow a data item.
pub open spec fn is_data_end(c: u8) -> bool {
    c == 0x2c || c == 0x3b || c == 0x0a
}

/// Skips white space after `token`, which ended at `from`, up to a line feed
/// at most. The token stands if the input ends there or a `,`, `;` or line
/// feed follows; otherwise it is replaced by `error`.
pub open spec fn then_separator(s: Seq<u8>, token: TokenView, from: int, error: ErrorCode) -> Lexed {
    let w = run_end(s, from, ByteClass::Blank);
    if w < s.len() && !is_data_end(s[w]) {
        Lexed { result: Err(error), end: w }
    } else {
        Lexed { result: Ok(token), end: w }
    }
}

/// A mnemonic: a run of letters, digits and underscores of at most twelve
/// bytes.
pub open spec fn lex_mnemonic(s: Seq<u8>, pos: int) -> Lexed {
    let e = run_end(s, pos, ByteClass::Word);
    if e - pos > WORD_LIMIT {
        Lexed { result: Err(ErrorCode::ProgramMnemonicTooLong), end: pos + WORD_LIMIT + 1 }
    } else {
        Lexed { result: Ok(TokenView::ProgramMnemonic(s.subrange(pos, e))), end: e }
    }
}

/// Character data: a word of at most twelve bytes, followed by a separator.
pub open spec fn lex_character_data(s: Seq<u8>, pos: int) -> Lexed {
    let e = run_end(s, pos, ByteClass::Word);
    if e - pos > WORD_LIMIT {
        Lexed { result: Err(ErrorCode::CharacterDataTooLong), end: pos + WORD_LIMIT + 1 }
    } else {
        then_separator(
            s,
            TokenView::CharacterProgramData(s.subrange(pos, e)),
            e,
            ErrorCode::InvalidCharacterData,
        )
    }
}

/// A suffix: a run of letters, digits, `-`, `/` and `.` of at most twelve
/// bytes, followed by a separator.
pub open spec fn lex_suffix(s: Seq<u8>, pos: int) -> Lexed {
    let e = run_end(s, pos, ByteClass::Suffix);
    if e - pos > WORD_LIMIT {
        Lexed { result: Err(ErrorCode::SuffixTooLong), end: pos + WORD_LIMIT + 1 }
    } else {
        then_separator(
            s,
            TokenView::SuffixProgramData(s.subrange(pos, e)),
            e,
            ErrorCode::InvalidSuffix,
        )
    }
}

/// A decimal number and the white space behind it, up to a line feed at
/// most. A suffix may follow, so no separator is asked for.
pub open spec fn lex_decimal(s: Seq<u8>, pos: int) -> Lexed {
    match decimal_scan(s, pos) {
        (Ok(_), e) => Lexed {
            result: Ok(TokenView::DecimalNumericProgramData(s.subrange(pos, e))),
            end: run_end(s, e, ByteClass::Blank),
        },
        (Err(code), e) => Lexed { result: Err(code), end: e },
    }
}

/// The radix that the letter behind `#` selects.
pub open spec fn radix_of(letter: u8) -> Option<u8> {
    if letter == 0x48 || letter == 0x68 {
        Some(16u8)
    } else if letter == 0x51 || letter == 0x71 {
        Some(8u8)
    } else if letter == 0x42 || letter == 0x62 {
        Some(2u8)
    } else {
        None
    }
}

/// Reads letters and digits from `pos` as digits of `radix`, starting from
/// the value `acc`. Reading fails at the first byte that is no digit of the
/// radix and at the first digit that takes the value above 32 bits.
pub open spec fn radix_scan(s: Seq<u8>, pos: int, radix: u8, acc: nat) -> (
    Result<nat, ErrorCode>,
    int,
)
    decreases s.len() - pos,
{
    if !(0 <= pos < s.len()) || !ByteClass::Alnum.holds(s[pos]) {
        (Ok(acc), pos)
    } else {
        match spec_digit_value(s[pos], radix) {
            None => (Err(ErrorCode::InvalidCharacterInNumber), pos + 1),
            Some(d) => if acc * radix + d > u32::MAX {
                (Err(ErrorCode::ExponentTooLarge), pos + 1)
            } else {
                radix_scan(s, pos + 1, radix, (acc * radix + d) as nat)
            },
        }
    }
}

/// A number in radix 16, 8 or 2; `pos` is behind the letter that selects the
/// radix. At least one digit is needed, and a separator must follow.
pub open spec fn lex_nondecimal(s: Seq<u8>, pos: int, letter: u8) -> Lexed {
    match radix_of(letter) {
        None => Lexed { result: Err(ErrorCode::NumericDataError), end: pos },
        Some(radix) => match radix_scan(s, pos, radix, 0) {
            (Err(code), e) => Lexed { result: Err(code), end: e },
            (Ok(value), e) => if e == pos {
                Lexed { result: Err(ErrorCode::NumericDataError), end: e }
            } else {
                then_separator(
                    s,
                    TokenView::NonDecimalNumericProgramData(value as u32),
                    e,
                    ErrorCode::InvalidSeparator,
                )
            },
        },
    }
}

/// Looks for the quote that closes a string whose content starts at `pos`.
/// A doubled quote does not close it. Gives the position of the closing
/// quote, or the error and the position at which it was found: the end of
/// the input, or a byte outside ASCII where only ASCII is allowed.
pub open spec fn string_close(s: Seq<u8>, pos: int, quote: u8, ascii: bool) -> Result<
    int,
    (ErrorCode, int),
>
    decreases s.len() - pos,
{
    if !(0 <= pos < s.len()) {
        Err((ErrorCode::InvalidStringData, pos))
    } else if s[pos] == quote {
        if pos + 1 < s.len() && s[pos + 1] == quote {
            string_close(s, pos + 2, quote, ascii)
        } else {
            Ok(pos)
        }
    } else if ascii && !is_ascii(s[pos]) {
        Err((ErrorCode::InvalidCharacter, pos + 1))
    } else {
        string_close(s, pos + 1, quote, ascii)
    }
}

/// Where the content of a quoted string starts: behind the opening quote at
/// `pos`.
pub open spec fn string_start(s: Seq<u8>, pos: int) -> int {
    if pos < s.len() {
        pos + 1
    } else {
        pos
    }
}

/// A quoted string; `pos` is at the opening quote. A separator must follow
/// the closing quote.
pub open spec fn lex_string(s: Seq<u8>, pos: int, quote: u8, ascii: bool) -> Lexed {
    let start = string_start(s, pos);
    match string_close(s, start, quote, ascii) {
        Err((code, e)) => Lexed { result: Err(code), end: e },
        Ok(close) => then_separator(
            s,
            TokenView::StringProgramData(s.subrange(start, close)),
            close + 1,
            ErrorCode::InvalidSeparator,
        ),
    }
}

/// The digits of `bytes` behind an optional `+`.
pub open spec fn unsigned_digits(bytes: Seq<u8>) -> Seq<u8> {
    if bytes.len() > 0 && bytes[0] == 0x2b {
        bytes.drop_first()
    } else {
        bytes
    }
}

/// The unsigned number that `bytes` spell in full: one or more decimal
/// digits, with an optional `+` before them, whose value fits the machine
/// word.
pub open spec fn decimal_usize(bytes: Seq<u8>) -> Option<usize> {
    let digits = unsigned_digits(bytes);
    if digits.len() > 0 && all_digits(digits) && digits_value(digits) <= usize::MAX {
        Some(digits_value(digits) as usize)
    } else {
        None
    }
}

/// An arbitrary block; `pos` is behind `#` and the format digit.
///
/// Format `0` takes the rest of the message, which must end in a line
/// feed. The line feed is not part of the payload and is left unread: it
/// ends the message as well. Formats `1` to `9` give the number of digits
/// that spell the length of the payload; a separator must follow the
/// payload.
pub open spec fn lex_arbitrary(s: Seq<u8>, pos: int, format: u8) -> Lexed {
    let invalid = Lexed { result: Err(ErrorCode::InvalidBlockData), end: pos };
    match spec_digit_value(format, 10) {
        None => invalid,
        Some(n) => if n == 0 {
            if pos >= s.len() {
                invalid
            } else if s.last() != 0x0a {
                Lexed { result: Err(ErrorCode::InvalidBlockData), end: s.len() as int }
            } else {
                Lexed {
                    result: Ok(TokenView::ArbitraryBlockData(s.subrange(pos, s.len() - 1))),
                    end: s.len() - 1,
                }
            }
        } else if s.len() - pos < n {
            invalid
        } else {
            match decimal_usize(s.subrange(pos, pos + n)) {
                None => invalid,
                Some(size) => if s.len() - (pos + n) < size {
                    Lexed { result: Err(ErrorCode::InvalidBlockData), end: pos + n }
                } else {
                    then_separator(
                        s,
                        TokenView::ArbitraryBlockData(s.subrange(pos + n, pos + n + size)),
                        pos + n + size,
                        ErrorCode::InvalidSeparator,
                    )
                },
            }
        },
    }
}

/// A UTF-8 block; `pos` is behind `#s`. It is a quoted string whose content
/// may hold any bytes that form valid UTF-8.
pub open spec fn lex_utf8(s: Seq<u8>, pos: int) -> Lexed {
    if pos >= s.len() || (s[pos] != 0x22 && s[pos] != 0x27) {
        Lexed { result: Err(ErrorCode::InvalidBlockData), end: pos }
    } else {
        let quoted = lex_string(s, pos, s[pos], false);
        match quoted.result {
            Ok(TokenView::StringProgramData(bytes)) => if valid_utf8(bytes) {
                Lexed { result: Ok(TokenView::Utf8BlockData(bytes)), end: quoted.end }
            } else {
                Lexed { result: Err(ErrorCode::InvalidBlockData), end: quoted.end }
            },
            Ok(_) => Lexed { result: Err(ErrorCode::InvalidBlockData), end: quoted.end },
            Err(code) => Lexed { result: Err(code), end: quoted.end },
        }
    }
}

/// An expression; `pos` is at the opening parenthesis. The content runs to
/// the first `)` and holds ASCII only, without quotes, `;` or `(`. A
/// separator must follow.
pub open spec fn lex_expression(s: Seq<u8>, pos: int) -> Lexed {
    let start = string_start(s, pos);
    let e = run_end(s, start, ByteClass::Expression);
    if e >= s.len() {
        Lexed { result: Err(ErrorCode::InvalidExpression), end: e }
    } else if s[e] != 0x29 {
        Lexed { result: Err(ErrorCode::InvalidExpression), end: e + 1 }
    } else {
        then_separator(
            s,
            TokenView::ExpressionProgramData(s.subrange(start, e)),
            e + 1,
            ErrorCode::InvalidSuffix,
        )
    }
}

/// The state of the lexer: the message, the position in it, and what was
/// seen of the current message unit.
pub struct LexState {
    /// The whole message.
    pub input: Seq<u8>,
    /// The position of the next byte to read.
    pub pos: int,
    /// No header separator or query suffix was read in this unit yet.
    pub in_header: bool,
    /// The header of this unit started with `*`.
    pub in_common: bool,
    /// A mnemonic was read in this unit.
    pub named: bool,
    /// A number was read since the last data separator.
    pub in_numeric: bool,
    /// Whether `#s` starts a UTF-8 block.
    pub utf8_blocks: bool,
}

impl LexState {
    /// The state before anything is read.
    pub open spec fn start(input: Seq<u8>, utf8_blocks: bool) -> LexState {
        LexState {
            input,
            pos: 0,
            in_header: true,
            in_common: false,
            named: false,
            in_numeric: false,
            utf8_blocks,
        }
    }

    /// The position lies inside the message or at its end.
    pub open spec fn wf(self) -> bool {
        0 <= self.pos <= self.input.len()
    }

    /// The same state at another position.
    pub open spec fn at(self, pos: int) -> LexState {
        LexState { pos, ..self }
    }

    /// The state after `lexed` was read.
    pub open spec fn after(self, lexed: Lexed) -> (Option<Result<TokenView, ErrorCode>>, LexState) {
        (Some(lexed.result), self.at(lexed.end))
    }

    /// The outcome `result` with the position moved to `pos`.
    pub open spec fn yields(self, result: Result<TokenView, ErrorCode>, pos: int) -> (
        Option<Result<TokenView, ErrorCode>>,
        LexState,
    ) {
        (Some(result), self.at(pos))
    }

    /// What follows `#` at `p`, outside a header.
    pub open spec fn step_hash(self, p: int) -> (Option<Result<TokenView, ErrorCode>>, LexState) {
        let s = self.input;
        if self.in_header {
            self.yields(Err(ErrorCode::CommandHeaderError), p)
        } else if p >= s.len() {
            self.yields(Err(ErrorCode::BlockDataError), p)
        } else if self.utf8_blocks && s[p] == 0x73 {
            self.after(lex_utf8(s, p + 1))
        } else if is_digit(s[p]) {
            self.after(lex_arbitrary(s, p + 1, s[p]))
        } else {
            self.after(lex_nondecimal(s, p + 1, s[p]))
        }
    }

    /// One step of the lexer: the token or the error that it yields, if the
    /// input has not ended, and the state after it.
    #[verifier::opaque]
    pub open spec fn step(self) -> (Option<Result<TokenView, ErrorCode>>, LexState) {
        let s = self.input;
        let pos = self.pos;
        let p = pos + 1;
        if !(0 <= pos < s.len()) {
            (None, self)
        } else {
            let c = s[pos];
            if c == 0x2a {
                let marked = LexState { in_common: true, ..self };
                if !self.in_header || self.in_common || self.named || (p < s.len() && !is_alpha(
                    s[p],
                )) {
                    marked.yields(Err(ErrorCode::CommandHeaderError), p)
                } else {
                    marked.yields(Ok(TokenView::HeaderCommonPrefix), p)
                }
            } else if c == 0x3a {
                if (p < s.len() && !is_alpha(s[p])) || !self.in_header || self.in_common {
                    self.yields(Err(ErrorCode::InvalidSeparator), p)
                } else {
                    self.yields(Ok(TokenView::HeaderMnemonicSeparator), p)
                }
            } else if c == 0x3f {
                if (p < s.len() && !is_space(s[p]) && s[p] != 0x3b) || !self.in_header {
                    self.yields(Err(ErrorCode::InvalidSeparator), p)
                } else {
                    (LexState { in_header: false, ..self }).yields(
                        Ok(TokenView::HeaderQuerySuffix),
                        p,
                    )
                }
            } else if c == 0x3b {
                (LexState { in_header: true, in_common: false, named: false, ..self }).yields(
                    Ok(TokenView::ProgramMessageUnitSeparator),
                    run_end(s, p, ByteClass::Blank),
                )
            } else if c == 0x0a {
                self.yields(Ok(TokenView::ProgramMessageTerminator), p)
            } else if c == 0x2c {
                if self.in_header {
                    self.yields(Err(ErrorCode::HeaderSeparatorError), p)
                } else {
                    let w = run_end(s, p, ByteClass::Blank);
                    let cleared = LexState { in_numeric: false, ..self };
                    if w < s.len() && is_data_end(s[w]) {
                        cleared.yields(Err(ErrorCode::SyntaxError), w)
                    } else {
                        cleared.yields(Ok(TokenView::ProgramDataSeparator), w)
                    }
                }
            } else if is_blank(c) {
                (LexState { in_header: false, ..self }).yields(
                    Ok(TokenView::ProgramHeaderSeparator),
                    run_end(s, pos, ByteClass::Blank),
                )
            } else if is_alpha(c) {
                if self.in_header {
                    (LexState { named: true, ..self }).after(lex_mnemonic(s, pos))
                } else if self.in_numeric {
                    self.after(lex_suffix(s, pos))
                } else {
                    self.after(lex_character_data(s, pos))
                }
            } else if c == 0x2f {
                if self.in_header {
                    self.yields(Err(ErrorCode::InvalidSeparator), p)
                } else {
                    self.after(lex_suffix(s, pos))
                }
            } else if is_digit(c) || c == 0x2d || c == 0x2b || c == 0x2e {
                if self.in_header {
                    self.yields(Err(ErrorCode::CommandHeaderError), p)
                } else {
                    (LexState { in_numeric: true, ..self }).after(lex_decimal(s, pos))
                }
            } else if c == 0x23 {
                self.step_hash(p)
            } else if c == 0x27 || c == 0x22 {
                if self.in_header {
                    self.yields(Err(ErrorCode::CommandHeaderError), p)
                } else {
                    self.after(lex_string(s, pos, c, true))
                }
            } else if c == 0x28 {
                self.after(lex_expression(s, pos))
            } else if is_ascii(c) {
                self.yields(Err(ErrorCode::SyntaxError), p)
            } else {
                self.yields(Err(ErrorCode::InvalidCharacter), p)
            }
        }
    }
}

/// Reading digits of a radix stops inside the message.
proof fn lemma_radix_scan_bounds(s: Seq<u8>, pos: int, radix: u8, acc: nat)
    requires
        0 <= pos <= s.len(),
    ensures
        pos <= radix_scan(s, pos, radix, acc).1 <= s.len(),
    decreases s.len() - pos,
{
    if pos < s.len() && ByteClass::Alnum.holds(s[pos]) {
        match spec_digit_value(s[pos], radix) {
            None => {},
            Some(d) => {
                if acc * radix + d <= u32::MAX {
                    lemma_radix_scan_bounds(s, pos + 1, radix, (acc * radix + d) as nat);
                }
            },
        }
    }
}

/// The search for a closing quote stops inside the message.
proof fn lemma_string_close_bounds(s: Seq<u8>, pos: int, quote: u8, ascii: bool)
    requires
        0 <= pos <= s.len(),
    ensures
        match string_close(s, pos, quote, ascii) {
            Ok(close) => pos <= close < s.len() && s[close] == quote,
            Err((_, end)) => pos <= end <= s.len(),
        },
    decreases s.len() - pos,
{
    if pos < s.len() {
        if s[pos] == quote {
            if pos + 1 < s.len() && s[pos + 1] == quote {
                lemma_string_close_bounds(s, pos + 2, quote, ascii);
            }
        } else if ascii && !is_ascii(s[pos]) {
        } else {
            lemma_string_close_bounds(s, pos + 1, quote, ascii);
        }
    }
}

/// Every step that starts before the end of the message yields a token or
/// an error and moves forward by at least one byte, staying inside the
/// message: the ranges that successive steps read lie side by side and
/// cover the message without a gap. At the end of the message a step
/// yields nothing and changes nothing.
pub proof fn lemma_step_advances(st: LexState)
    requires
        st.wf(),
    ensures
        st.step().1.wf(),
        st.step().1.input == st.input,
        st.step().1.utf8_blocks == st.utf8_blocks,
        st.pos < st.input.len() ==> st.step().0 is Some && st.pos < st.step().1.pos,
        st.pos == st.input.len() ==> st.step().0 is None && st.step().1 == st,
{
    reveal(LexState::step);
    let s = st.input;
    let pos = st.pos;
    let p = pos + 1;
    if pos < s.len() {
        let c = s[pos];
        lemma_run_end(s, p, ByteClass::Blank);
        lemma_run_end(s, pos, ByteClass::Blank);
        lemma_run_end(s, pos, ByteClass::Word);
        lemma_run_end(s, pos, ByteClass::Suffix);
        lemma_run_end(s, p, ByteClass::Expression);
        lemma_decimal_scan_bounds(s, pos);
        lemma_run_end(s, decimal_scan(s, pos).1, ByteClass::Blank);
        lemma_run_end(s, run_end(s, pos, ByteClass::Word), ByteClass::Blank);
        lemma_run_end(s, run_end(s, pos, ByteClass::Suffix), ByteClass::Blank);
        if c == 0x23 && !st.in_header && p < s.len() {
            let q = p + 1;
            if st.utf8_blocks && s[p] == 0x73 {
                if q < s.len() {
                    lemma_string_close_bounds(s, q + 1, s[q], false);
                    match string_close(s, q + 1, s[q], false) {
                        Ok(close) => {
                            lemma_run_end(s, close + 1, ByteClass::Blank);
                        },
                        Err(_) => {},
                    }
                }
            } else if is_digit(s[p]) {
                let n = spec_digit_value(s[p], 10).unwrap();
                if n != 0 && s.len() - q >= n {
                    match decimal_usize(s.subrange(q, q + n)) {
                        None => {},
                        Some(size) => {
                            if s.len() - (q + n) >= size {
                                lemma_run_end(s, q + n + size, ByteClass::Blank);
                            }
                        },
                    }
                }
            } else {
                match radix_of(s[p]) {
                    None => {},
                    Some(radix) => {
                        lemma_radix_scan_bounds(s, q, radix, 0);
                        lemma_run_end(s, radix_scan(s, q, radix, 0).1, ByteClass::Blank);
                    },
                }
            }
        } else if (c == 0x27 || c == 0x22) && !st.in_header {
            lemma_string_close_bounds(s, p, c, true);
            match string_close(s, p, c, true) {
                Ok(close) => {
                    lemma_run_end(s, close + 1, ByteClass::Blank);
                },
                Err(_) => {},
            }
        } else if c == 0x28 {
            let e = run_end(s, p, ByteClass::Expression);
            if e < s.len() {
                lemma_run_end(s, e + 1, ByteClass::Blank);
            }
        }
    }
}

impl LexState {
    /// What an attempt to read a data separator does. The separator is
    /// consumed. A `;`, a line feed or the end of the message is accepted
    /// and left unread. Anything else is an error, and nothing is consumed.
    pub open spec fn separator_step(self) -> (Result<(), ErrorCode>, LexState) {
        match self.step().0 {
            None => (Ok(()), self),
            Some(Err(code)) => (Err(code), self),
            Some(Ok(TokenView::ProgramDataSeparator)) => (Ok(()), self.step().1),
            Some(Ok(TokenView::ProgramMessageUnitSeparator)) => (Ok(()), self),
            Some(Ok(TokenView::ProgramMessageTerminator)) => (Ok(()), self),
            Some(Ok(TokenView::SuffixProgramData(_))) => (Err(ErrorCode::SuffixNotAllowed), self),
            Some(Ok(_)) => (Err(ErrorCode::InvalidSeparator), self),
        }
    }

    /// What missing data amounts to: nothing where the data is optional, an
    /// error where it is not.
    pub open spec fn absent(optional: bool) -> Result<Option<TokenView>, ErrorCode> {
        if optional {
            Ok(None)
        } else {
            Err(ErrorCode::MissingParameter)
        }
    }

    /// What an attempt to read a data item does. A data item is consumed and
    /// returned. A data separator is consumed, and then a data item must
    /// follow. At anything else the data is missing and nothing is consumed;
    /// an error of the lexer is handed on.
    pub open spec fn data_step(self, optional: bool) -> (
        Result<Option<TokenView>, ErrorCode>,
        LexState,
    )
        decreases self.input.len() - self.pos,
        when self.wf()
    {
        match self.step().0 {
            None => (Self::absent(optional), self),
            Some(Err(code)) => (Err(code), self),
            Some(Ok(token)) => if token is ProgramDataSeparator {
                proof {
                    lemma_step_advances(self);
                }
                self.step().1.data_step(false)
            } else if token.is_data() {
                (Ok(Some(token)), self.step().1)
            } else {
                (Self::absent(optional), self)
            },
        }
    }

    /// What taking an arbitrary block does: the next token is consumed
    /// whatever it is, and it must be an arbitrary block.
    pub open spec fn arb_step(self) -> (Result<Seq<u8>, ErrorCode>, LexState) {
        (
            match self.step().0 {
                None => Err(ErrorCode::MissingParameter),
                Some(Err(code)) => Err(code),
                Some(Ok(TokenView::ArbitraryBlockData(bytes))) => Ok(bytes),
                Some(Ok(token)) => if token is DecimalNumericProgramData
                    || token is NonDecimalNumericProgramData || token is StringProgramData
                    || token is CharacterProgramData || token is SuffixProgramData {
                    Err(ErrorCode::DataTypeError)
                } else {
                    Err(ErrorCode::MissingParameter)
                },
            },
            self.step().1,
        )
    }
}

impl LexState {
    /// What an attempt to read a number does. The next data item is read
    /// as `data_step` says. A decimal number is returned with the suffix
    /// that follows it, which is consumed too; character data, which may
    /// name a special value, is returned alone. Any other data is refused.
    pub open spec fn decimal_step(self, optional: bool) -> (
        Result<Option<(TokenView, Option<Seq<u8>>)>, ErrorCode>,
        LexState,
    ) {
        let st1 = self.data_step(optional).1;
        match self.data_step(optional).0 {
            Err(code) => (Err(code), st1),
            Ok(None) => (Ok(None), st1),
            Ok(Some(token)) => if token is DecimalNumericProgramData {
                match st1.step().0 {
                    Some(Ok(TokenView::SuffixProgramData(suffix))) => (
                        Ok(Some((token, Some(suffix)))),
                        st1.step().1,
                    ),
                    Some(Err(code)) => (Err(code), st1),
                    _ => (Ok(Some((token, None))), st1),
                }
            } else if token is CharacterProgramData {
                (Ok(Some((token, None))), st1)
            } else {
                (Err(ErrorCode::MissingParameter), st1)
            },
        }
    }
}

/// What one step of the lexer has read: the outcome, and the range of the
/// message that it covers.
pub struct Lexeme {
    pub result: Result<TokenView, ErrorCode>,
    pub start: int,
    pub end: int,
}

/// Everything that the lexer yields from `st` on, step by step, to the end
/// of the message.
pub open spec fn lexemes(st: LexState) -> Seq<Lexeme>
    decreases st.input.len() - st.pos,
    when st.wf()
{
    match st.step().0 {
        None => Seq::empty(),
        Some(result) => {
            proof {
                lemma_step_advances(st);
            }
            seq![Lexeme { result, start: st.pos, end: st.step().1.pos }] + lexemes(st.step().1)
        },
    }
}

/// The ranges that the lexer reads partition the rest of the message: none
/// is empty, the first starts where the lexer stands, each of the others
/// starts where the one before it ends, and the last ends where the message
/// ends.
pub proof fn lemma_lexemes_partition(st: LexState)
    requires
        st.wf(),
    ensures
        lexemes(st).len() == 0 <==> st.pos == st.input.len(),
        lexemes(st).len() > 0 ==> lexemes(st)[0].start == st.pos && lexemes(st).last().end
            == st.input.len(),
        forall|i: int|
            0 <= i < lexemes(st).len() ==> st.pos <= (#[trigger] lexemes(st)[i]).start < lexemes(
                st,
            )[i].end <= st.input.len(),
        forall|i: int|
            0 <= i < lexemes(st).len() - 1 ==> (#[trigger] lexemes(st)[i]).end == lexemes(st)[i
                + 1].start,
    decreases st.input.len() - st.pos,
{
    lemma_step_advances(st);
    match st.step().0 {
        None => {},
        Some(result) => {
            let next = st.step().1;
            let head = Lexeme { result, start: st.pos, end: next.pos };
            let rest = lexemes(next);
            lemma_lexemes_partition(next);
            let all = lexemes(st);
            assert(all == seq![head] + rest);
            assert(all[0] == head);
            assert forall|i: int| 1 <= i < all.len() implies all[i] == rest[i - 1] by {}
            assert forall|i: int| 0 <= i < all.len() - 1 implies (#[trigger] all[i]).end == all[i
                + 1].start by {
                if i == 0 {
                    assert(all[1] == rest[0]);
                } else {
                    assert(all[i] == rest[i - 1]);
                    assert(all[i + 1] == rest[i]);
                }
            }
            assert forall|i: int| 0 <= i < all.len() implies st.pos <= (#[trigger] all[i]).start
                < all[i].end <= st.input.len() by {
                if i > 0 {
                    assert(all[i] == rest[i - 1]);
                }
            }
            if rest.len() > 0 {
                assert(all.last() == rest.last());
            }
        },
    }
}

/// A message terminator is read exactly where a line feed stands at the
/// start of a step, and it covers that byte alone.
pub proof fn lemma_terminator_is_line_feed(st: LexState)
    requires
        st.wf(),
        st.pos < st.input.len(),
    ensures
        st.step().0 == Some(Ok::<TokenView, ErrorCode>(TokenView::ProgramMessageTerminator))
            <==> st.input[st.pos] == 0x0a,
        st.input[st.pos] == 0x0a ==> st.step().1 == st.at(st.pos + 1),
{
    reveal(LexState::step);
    lemma_step_advances(st);
    let s = st.input;
    let pos = st.pos;
    let c = s[pos];
    if c != 0x0a {
        if is_alpha(c) || c == 0x2f {
            assert(lex_mnemonic(s, pos).result != Ok::<TokenView, ErrorCode>(
                TokenView::ProgramMessageTerminator,
            ));
            assert(lex_suffix(s, pos).result != Ok::<TokenView, ErrorCode>(
                TokenView::ProgramMessageTerminator,
            ));
            assert(lex_character_data(s, pos).result != Ok::<TokenView, ErrorCode>(
                TokenView::ProgramMessageTerminator,
            ));
        } else if c == 0x23 {
            let p = pos + 1;
            if !st.in_header && p < s.len() {
                assert(lex_utf8(s, p + 1).result != Ok::<TokenView, ErrorCode>(
                    TokenView::ProgramMessageTerminator,
                ));
                assert(lex_arbitrary(s, p + 1, s[p]).result != Ok::<TokenView, ErrorCode>(
                    TokenView::ProgramMessageTerminator,
                ));
                assert(lex_nondecimal(s, p + 1, s[p]).result != Ok::<TokenView, ErrorCode>(
                    TokenView::ProgramMessageTerminator,
                ));
            }
        } else {
            assert(lex_decimal(s, pos).result != Ok::<TokenView, ErrorCode>(
                TokenView::ProgramMessageTerminator,
            ));
            assert(lex_string(s, pos, c, true).result != Ok::<TokenView, ErrorCode>(
                TokenView::ProgramMessageTerminator,
            ));
            assert(lex_expression(s, pos).result != Ok::<TokenView, ErrorCode>(
                TokenView::ProgramMessageTerminator,
            ));
        }
    }
}

/// In a message that holds no line feed before its last byte, a message
/// terminator can only be the last thing that the lexer yields, and it is
/// where the last step starts at a line feed.
pub proof fn lemma_terminator_is_last(st: LexState)
    requires
        st.wf(),
        forall|j: int| st.pos <= j < st.input.len() - 1 ==> st.input[j] != 0x0a,
    ensures
        forall|i: int|
            0 <= i < lexemes(st).len() && (#[trigger] lexemes(st)[i]).result == Ok::<
                TokenView,
                ErrorCode,
            >(TokenView::ProgramMessageTerminator) ==> i == lexemes(st).len() - 1 && lexemes(
                st,
            )[i].start == st.input.len() - 1,
        lexemes(st).len() > 0 && st.input[lexemes(st).last().start] == 0x0a ==> lexemes(
            st,
        ).last().result == Ok::<TokenView, ErrorCode>(TokenView::ProgramMessageTerminator),
    decreases st.input.len() - st.pos,
{
    lemma_step_advances(st);
    match st.step().0 {
        None => {},
        Some(result) => {
            let next = st.step().1;
            let head = Lexeme { result, start: st.pos, end: next.pos };
            let rest = lexemes(next);
            lemma_terminator_is_line_feed(st);
            lemma_terminator_is_last(next);
            lemma_lexemes_partition(next);
            let all = lexemes(st);
            assert(all == seq![head] + rest);
            assert(all[0] == head);
            assert forall|i: int|
                0 <= i < all.len() && (#[trigger] all[i]).result == Ok::<TokenView, ErrorCode>(
                    TokenView::ProgramMessageTerminator,
                ) implies i == all.len() - 1 && all[i].start == st.input.len() - 1 by {
                if i > 0 {
                    assert(all[i] == rest[i - 1]);
                }
            }
            if rest.len() > 0 {
                assert(all.last() == rest.last());
            }
        },
    }
}

/// Among everything that the lexer yields, the message terminators are
/// exactly the steps that start at a line feed.
pub proof fn lemma_terminators(st: LexState)
    requires
        st.wf(),
    ensures
        forall|i: int|
            0 <= i < lexemes(st).len() ==> ((#[trigger] lexemes(st)[i]).result == Ok::<
                TokenView,
                ErrorCode,
            >(TokenView::ProgramMessageTerminator) <==> st.input[lexemes(st)[i].start] == 0x0a),
    decreases st.input.len() - st.pos,
{
    lemma_step_advances(st);
    match st.step().0 {
        None => {},
        Some(result) => {
            let next = st.step().1;
            let head = Lexeme { result, start: st.pos, end: next.pos };
            let rest = lexemes(next);
            lemma_terminator_is_line_feed(st);
            lemma_terminators(next);
            let all = lexemes(st);
            assert(all == seq![head] + rest);
            assert(all[0] == head);
            assert forall|i: int| 0 <= i < all.len() implies ((#[trigger] all[i]).result == Ok::<
                TokenView,
                ErrorCode,
            >(TokenView::ProgramMessageTerminator) <==> st.input[all[i].start] == 0x0a) by {
                if i > 0 {
                    assert(all[i] == rest[i - 1]);
                }
            }
        },
    }
}

} // verus!

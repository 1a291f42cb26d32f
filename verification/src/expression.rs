//! Lists inside expression data: numbers separated by commas, where a
//! number may be followed by `!` and a second number. A channel list is
//! such a list behind an `@`.

use vstd::prelude::*;
use vstd::slice::slice_subrange;
use crate::chars::is_digit;
use crate::decimal::{
    digits_value, integer_digits, is_sign, lemma_integer_text, mantissa_start, round_decimal,
};
use crate::error::ErrorCode;
use crate::scan::{lemma_run_end, run_end, scan_run, ByteClass};
use crate::token::{Token, TokenView};

verus! {

/// A token of a list.
#[derive(Clone, Copy, Debug, PartialEq, Eq, Structural)]
pub enum ListToken {
    /// A single number.
    Numeric(i64),
    /// Two numbers joined by `!`.
    NumericPair(i64, i64),
    /// The `,` between two entries.
    Separator,
}

/// The state of a list reader.
pub struct ListState {
    /// The bytes of the list.
    pub input: Seq<u8>,
    /// The position of the next byte to read.
    pub pos: int,
    /// Whether a number is expected next, and not a separator.
    pub expect_num: bool,
}

/// Where the integer at `pos` ends: behind its sign and its digits.
pub open spec fn integer_end(s: Seq<u8>, pos: int) -> int {
    run_end(s, mantissa_start(s, pos), ByteClass::Digit)
}

/// The integer at `pos`: an optional sign and at least one digit. A value
/// outside 64 bits is out of range.
pub open spec fn integer_at(s: Seq<u8>, pos: int) -> Result<i64, ErrorCode> {
    let start = mantissa_start(s, pos);
    let end = integer_end(s, pos);
    if end == start {
        Err(ErrorCode::InvalidExpression)
    } else {
        let magnitude = digits_value(s.subrange(start, end));
        let value = if s[pos] == 0x2d {
            -magnitude
        } else {
            magnitude as int
        };
        if i64::MIN <= value <= i64::MAX {
            Ok(value as i64)
        } else {
            Err(ErrorCode::DataOutOfRange)
        }
    }
}

impl ListState {
    /// The position lies inside the list or at its end.
    pub open spec fn wf(self) -> bool {
        0 <= self.pos <= self.input.len()
    }

    /// The entry that starts at `p`, where a sign or a digit stands: a
    /// number, or two numbers joined by `!`.
    pub open spec fn entry(self, p: int) -> (Result<ListToken, ErrorCode>, int) {
        let s = self.input;
        let e = integer_end(s, p);
        match integer_at(s, p) {
            Err(code) => (Err(code), e),
            Ok(first) => if e < s.len() && s[e] == 0x21 {
                match integer_at(s, e + 1) {
                    Err(code) => (Err(code), integer_end(s, e + 1)),
                    Ok(second) => (Ok(ListToken::NumericPair(first, second)), integer_end(s, e + 1)),
                }
            } else {
                (Ok(ListToken::Numeric(first)), e)
            },
        }
    }

    /// One step of the reader. White space is skipped. Where a number is
    /// expected, an entry is read; where a separator is expected, a `,`.
    /// Anything else is an `InvalidExpression`, and one byte is passed. At
    /// the end of the list nothing is yielded.
    pub open spec fn step(self) -> (Option<Result<ListToken, ErrorCode>>, ListState) {
        let s = self.input;
        let p = run_end(s, self.pos, ByteClass::Space);
        if p >= s.len() {
            (None, ListState { pos: p, ..self })
        } else if self.expect_num {
            if is_sign(s[p]) || is_digit(s[p]) {
                (
                    Some(self.entry(p).0),
                    ListState { pos: self.entry(p).1, expect_num: false, ..self },
                )
            } else {
                (
                    Some(Err(ErrorCode::InvalidExpression)),
                    ListState { pos: p + 1, expect_num: false, ..self },
                )
            }
        } else if s[p] == 0x2c {
            (Some(Ok(ListToken::Separator)), ListState { pos: p + 1, expect_num: true, ..self })
        } else {
            (Some(Err(ErrorCode::InvalidExpression)), ListState { pos: p + 1, ..self })
        }
    }
}

/// Every step that yields something moves forward, and every step stays
/// inside the list.
pub proof fn lemma_list_step(st: ListState)
    requires
        st.wf(),
    ensures
        st.step().1.wf(),
        st.step().1.input == st.input,
        st.step().0 is Some ==> st.pos < st.step().1.pos,
        st.step().0 is None ==> st.step().1.pos == st.input.len(),
{
    let s = st.input;
    lemma_run_end(s, st.pos, ByteClass::Space);
    let p = run_end(s, st.pos, ByteClass::Space);
    if p < s.len() {
        lemma_run_end(s, mantissa_start(s, p), ByteClass::Digit);
        let e = integer_end(s, p);
        if e < s.len() {
            lemma_run_end(s, mantissa_start(s, e + 1), ByteClass::Digit);
        }
    }
}

/// Reads the integer at `pos`.
fn read_integer(buf: &[u8], pos: usize) -> (r: (Result<i64, ErrorCode>, usize))
    requires
        pos <= buf@.len(),
    ensures
        r.0 == integer_at(buf@, pos as int),
        r.1 == integer_end(buf@, pos as int),
        pos <= r.1 <= buf@.len(),
{
    let start = if pos < buf.len() && is_sign(buf[pos]) {
        pos + 1
    } else {
        pos
    };
    let end = scan_run(buf, start, ByteClass::Digit);
    if end == start {
        (Err(ErrorCode::InvalidExpression), end)
    } else {
        let text = slice_subrange(buf, pos, end);
        proof {
            lemma_run_end(buf@, start as int, ByteClass::Digit);
            assert(mantissa_start(text@, 0) == start - pos);
            assert(integer_digits(text@) =~= buf@.subrange(start as int, end as int));
            assert forall|i: int| mantissa_start(text@, 0) <= i < text@.len() implies is_digit(
                #[trigger] text@[i],
            ) by {
                assert(text@[i] == buf@[pos + i]);
            }
            lemma_integer_text(text@);
        }
        (round_decimal(text), end)
    }
}

/// A reader of the numbers in a list.
#[derive(Clone, Copy, Debug)]
pub struct NumericList<'a> {
    chars: &'a [u8],
    pos: usize,
    expect_num: bool,
}

impl<'a> View for NumericList<'a> {
    type V = ListState;

    closed spec fn view(&self) -> ListState {
        ListState { input: self.chars@, pos: self.pos as int, expect_num: self.expect_num }
    }
}

impl<'a> NumericList<'a> {
    #[verifier::type_invariant]
    spec fn inv(self) -> bool {
        self.pos <= self.chars@.len()
    }

    /// A reader at the start of `chars`, which expects a number.
    pub fn new(chars: &'a [u8]) -> (r: Self)
        ensures
            r@ == (ListState { input: chars@, pos: 0, expect_num: true }),
    {
        NumericList { chars, pos: 0, expect_num: true }
    }

    /// Reads the next token of the list.
    pub fn next(&mut self) -> (r: Option<Result<ListToken, ErrorCode>>)
        ensures
            (r, final(self)@) == old(self)@.step(),
            old(self)@.wf(),
            final(self)@.wf(),
            r is Some ==> old(self)@.pos < final(self)@.pos,
    {
        proof {
            use_type_invariant(&*self);
            lemma_list_step(self@);
        }
        let p = scan_run(self.chars, self.pos, ByteClass::Space);
        self.pos = p;
        if p >= self.chars.len() {
            return None;
        }
        let c = self.chars[p];
        if self.expect_num {
            self.expect_num = false;
            if is_sign(c) || is_digit(c) {
                let (first, end) = read_integer(self.chars, p);
                self.pos = end;
                match first {
                    Err(code) => Some(Err(code)),
                    Ok(a) => {
                        if end < self.chars.len() && self.chars[end] == 0x21 {
                            let (second, last) = read_integer(self.chars, end + 1);
                            self.pos = last;
                            match second {
                                Err(code) => Some(Err(code)),
                                Ok(b) => Some(Ok(ListToken::NumericPair(a, b))),
                            }
                        } else {
                            Some(Ok(ListToken::Numeric(a)))
                        }
                    },
                }
            } else {
                self.pos = p + 1;
                Some(Err(ErrorCode::InvalidExpression))
            }
        } else if c == 0x2c {
            self.pos = p + 1;
            self.expect_num = true;
            Some(Ok(ListToken::Separator))
        } else {
            self.pos = p + 1;
            Some(Err(ErrorCode::InvalidExpression))
        }
    }
}

/// A reader of the entries of a channel list.
#[derive(Clone, Copy, Debug)]
pub struct ChannelList<'a> {
    entries: NumericList<'a>,
}

impl<'a> View for ChannelList<'a> {
    type V = ListState;

    closed spec fn view(&self) -> ListState {
        self.entries@
    }
}

impl<'a> ChannelList<'a> {
    /// A reader of the entries behind the `@` that a channel list starts
    /// with; `None` where `chars` does not start with `@`.
    pub fn new(chars: &'a [u8]) -> (r: Option<Self>)
        ensures
            r is Some <==> chars@.len() > 0 && chars@[0] == 0x40,
            r matches Some(list) ==> list@ == (ListState {
                input: chars@.drop_first(),
                pos: 0,
                expect_num: true,
            }),
    {
        if chars.len() > 0 && chars[0] == 0x40 {
            let rest = slice_subrange(chars, 1, chars.len());
            proof {
                assert(rest@ =~= chars@.drop_first());
            }
            Some(ChannelList { entries: NumericList::new(rest) })
        } else {
            None
        }
    }

    /// Reads the next token of the list.
    pub fn next(&mut self) -> (r: Option<Result<ListToken, ErrorCode>>)
        ensures
            (r, final(self)@) == old(self)@.step(),
            old(self)@.wf(),
            final(self)@.wf(),
            r is Some ==> old(self)@.pos < final(self)@.pos,
    {
        self.entries.next()
    }
}

/// What a token gives as a numeric list: the state of a reader at the
/// start of its expression.
pub open spec fn numeric_list_of(token: TokenView) -> Result<ListState, ErrorCode> {
    match token {
        TokenView::ExpressionProgramData(bytes) => Ok(
            ListState { input: bytes, pos: 0, expect_num: true },
        ),
        _ => Err(ErrorCode::DataTypeError),
    }
}

/// What a token gives as a channel list: the state of a reader behind the
/// `@` of its expression.
pub open spec fn channel_list_of(token: TokenView) -> Result<ListState, ErrorCode> {
    match token {
        TokenView::ExpressionProgramData(bytes) => if bytes.len() > 0 && bytes[0] == 0x40 {
            Ok(ListState { input: bytes.drop_first(), pos: 0, expect_num: true })
        } else {
            Err(ErrorCode::ExecExpressionError)
        },
        _ => Err(ErrorCode::DataTypeError),
    }
}

impl<'a> Token<'a> {
    /// A reader of the numeric list that the token holds, where it is
    /// expression data.
    pub fn numeric_list(&self) -> (r: Result<NumericList<'a>, ErrorCode>)
        ensures
            match (r, numeric_list_of(self@)) {
                (Ok(list), Ok(state)) => list@ == state,
                (Err(code), Err(c)) => code == c,
                _ => false,
            },
    {
        match self {
            Token::ExpressionProgramData(bytes) => Ok(NumericList::new(bytes)),
            _ => Err(ErrorCode::DataTypeError),
        }
    }

    /// A reader of the channel list that the token holds, where it is
    /// expression data that starts with `@`.
    pub fn channel_list(&self) -> (r: Result<ChannelList<'a>, ErrorCode>)
        ensures
            match (r, channel_list_of(self@)) {
                (Ok(list), Ok(state)) => list@ == state,
                (Err(code), Err(c)) => code == c,
                _ => false,
            },
    {
        match self {
            Token::ExpressionProgramData(bytes) => match ChannelList::new(bytes) {
                Some(list) => Ok(list),
                None => Err(ErrorCode::ExecExpressionError),
            },
            _ => Err(ErrorCode::DataTypeError),
        }
    }
}

} // verus!

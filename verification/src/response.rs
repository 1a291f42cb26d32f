//! The response message: values in their response formats, separated by
//! commas within a unit and by semicolons between units, in a buffer of
//! bounded size.

use vstd::prelude::*;
use crate::chars::spec_digit_value;
use crate::decimal::{all_digits, digits_value};
use crate::error::{Error, ErrorCode};
use crate::lexis::{decimal_usize, is_data_end, lex_arbitrary, unsigned_digits, LexState};
use crate::scan::{run_end, ByteClass};
use crate::token::TokenView;

verus! {

/// The decimal digits of `n`, without leading zeros.
pub open spec fn decimal_digits(n: nat) -> Seq<u8>
    decreases n,
{
    if n < 10 {
        seq![(0x30 + n) as u8]
    } else {
        decimal_digits(n / 10).push((0x30 + n % 10) as u8)
    }
}

/// An integer in the format NR1: its decimal digits, behind a `-` where it
/// is negative.
pub open spec fn signed_digits(v: int) -> Seq<u8> {
    if v < 0 {
        seq![0x2du8] + decimal_digits((-v) as nat)
    } else {
        decimal_digits(v as nat)
    }
}

/// The bytes of a string with every `"` doubled.
pub open spec fn doubled_quotes(bytes: Seq<u8>) -> Seq<u8>
    decreases bytes.len(),
{
    if bytes.len() == 0 {
        Seq::empty()
    } else if bytes.last() == 0x22 {
        doubled_quotes(bytes.drop_last()).push(0x22).push(0x22)
    } else {
        doubled_quotes(bytes.drop_last()).push(bytes.last())
    }
}

/// A string in quotes.
pub open spec fn quoted(bytes: Seq<u8>) -> Seq<u8> {
    seq![0x22u8] + doubled_quotes(bytes) + seq![0x22u8]
}

/// The largest payload of a definite block: its length is spelled with at
/// most nine digits.
pub const BLOCK_LIMIT: usize = 999_999_999;

/// An arbitrary block of definite length: `#`, the number of digits of the
/// length, the length, and the payload.
pub open spec fn definite_block(payload: Seq<u8>) -> Seq<u8> {
    let length = decimal_digits(payload.len());
    seq![0x23u8, (0x30 + length.len()) as u8] + length + payload
}

/// `0` or `1`.
pub open spec fn boolean_digit(value: bool) -> Seq<u8> {
    if value {
        seq![0x31u8]
    } else {
        seq![0x30u8]
    }
}

/// The digits of a number are digits, there is at least one of them, and
/// numbers below a thousand millions have nine at most.
pub proof fn lemma_decimal_digits(n: nat)
    ensures
        decimal_digits(n).len() >= 1,
        forall|i: int|
            0 <= i < decimal_digits(n).len() ==> 0x30 <= #[trigger] decimal_digits(n)[i] <= 0x39,
        n <= BLOCK_LIMIT ==> decimal_digits(n).len() <= 9,
        n < 10 ==> decimal_digits(n).len() == 1,
        n < 100 ==> decimal_digits(n).len() <= 2,
        n < 1000 ==> decimal_digits(n).len() <= 3,
        n < 10000 ==> decimal_digits(n).len() <= 4,
        n < 100000 ==> decimal_digits(n).len() <= 5,
        n < 1000000 ==> decimal_digits(n).len() <= 6,
        n < 10000000 ==> decimal_digits(n).len() <= 7,
        n < 100000000 ==> decimal_digits(n).len() <= 8,
    decreases n,
{
    if n >= 10 {
        lemma_decimal_digits(n / 10);
    }
}

/// Appends the decimal digits of `n`.
fn push_digits(out: &mut Vec<u8>, n: u64)
    ensures
        final(out)@ == old(out)@ + decimal_digits(n as nat),
    decreases n,
{
    if n >= 10 {
        push_digits(out, n / 10);
    }
    out.push(0x30 + (n % 10) as u8);
    proof {
        assert(final(out)@ =~= old(out)@ + decimal_digits(n as nat));
    }
}

/// Renders an unsigned integer in the format NR1.
pub fn render_unsigned(n: u64) -> (out: Vec<u8>)
    ensures
        out@ == decimal_digits(n as nat),
{
    let mut out = Vec::new();
    push_digits(&mut out, n);
    proof {
        assert(out@ =~= decimal_digits(n as nat));
    }
    out
}

/// Renders a signed integer in the format NR1.
pub fn render_signed(v: i64) -> (out: Vec<u8>)
    ensures
        out@ == signed_digits(v as int),
{
    let mut out = Vec::new();
    if v < 0 {
        out.push(0x2d);
        let magnitude: u64 = if v == i64::MIN {
            0x8000_0000_0000_0000
        } else {
            (-v) as u64
        };
        push_digits(&mut out, magnitude);
    } else {
        push_digits(&mut out, v as u64);
    }
    proof {
        assert(out@ =~= signed_digits(v as int));
    }
    out
}

/// Renders a string in quotes, with every `"` inside it doubled.
pub fn render_quoted(bytes: &[u8]) -> (out: Vec<u8>)
    ensures
        out@ == quoted(bytes@),
{
    let mut out = Vec::new();
    out.push(0x22);
    let mut i: usize = 0;
    while i < bytes.len()
        invariant
            i <= bytes.len(),
            out@ == seq![0x22u8] + doubled_quotes(bytes@.take(i as int)),
        decreases bytes.len() - i,
    {
        let c = bytes[i];
        proof {
            assert(bytes@.take(i + 1).drop_last() =~= bytes@.take(i as int));
            assert(bytes@.take(i + 1).last() == c);
        }
        if c == 0x22 {
            out.push(0x22);
            out.push(0x22);
        } else {
            out.push(c);
        }
        proof {
            assert(out@ =~= seq![0x22u8] + doubled_quotes(bytes@.take(i + 1)));
        }
        i += 1;
    }
    out.push(0x22);
    proof {
        assert(bytes@.take(bytes@.len() as int) =~= bytes@);
        assert(out@ =~= quoted(bytes@));
    }
    out
}

/// Renders an arbitrary block of definite length. A payload whose length
/// needs more than nine digits cannot be framed.
pub fn render_block(payload: &[u8]) -> (r: Option<Vec<u8>>)
    ensures
        payload@.len() <= BLOCK_LIMIT ==> r is Some && r->0@ == definite_block(payload@),
        payload@.len() > BLOCK_LIMIT ==> r is None,
{
    if payload.len() > BLOCK_LIMIT {
        return None;
    }
    let length = render_unsigned(payload.len() as u64);
    proof {
        lemma_decimal_digits(payload@.len());
    }
    let mut out = Vec::new();
    out.push(0x23);
    out.push(0x30 + length.len() as u8);
    out.extend_from_slice(length.as_slice());
    out.extend_from_slice(payload);
    proof {
        assert(out@ =~= definite_block(payload@));
    }
    Some(out)
}

/// The model of a response.
pub struct ResponseView {
    /// The bytes written so far.
    pub bytes: Seq<u8>,
    /// The most bytes that the response can hold.
    pub limit: nat,
    /// Where the current unit starts.
    pub unit_start: nat,
    /// Whether a unit has written data that no `;` follows yet, so that the
    /// next unit starts with a `;`.
    pub armed: bool,
    /// Whether the current unit has written data, so that the next value
    /// starts with a `,`.
    pub has_data: bool,
}

impl ResponseView {
    /// The start is inside the bytes, and the bytes are within the limit.
    pub open spec fn wf(self) -> bool {
        self.unit_start <= self.bytes.len() <= self.limit
    }

    /// The response is empty or ends in a line feed.
    pub open spec fn closed(self) -> bool {
        self.bytes.len() == 0 || self.bytes.last() == 0x0a
    }

    /// An empty response with the given limit.
    pub open spec fn empty(limit: nat) -> ResponseView {
        ResponseView { bytes: Seq::empty(), limit, unit_start: 0, armed: false, has_data: false }
    }

    /// What a value is written as: its rendering, behind a `,` where it is
    /// not the first of its unit.
    pub open spec fn item(self, rendering: Seq<u8>) -> Seq<u8> {
        if self.has_data {
            seq![0x2cu8] + rendering
        } else {
            rendering
        }
    }

    /// Writing a value. It is written whole where it fits; where it does
    /// not, nothing is written and the error is `OutOfMemory`.
    pub open spec fn write(self, rendering: Seq<u8>) -> (Result<(), Error>, ResponseView) {
        let item = self.item(rendering);
        if self.bytes.len() + item.len() <= self.limit {
            (Ok(()), ResponseView { bytes: self.bytes + item, has_data: true, ..self })
        } else {
            (Err(Error { code: ErrorCode::OutOfMemory }), self)
        }
    }

    /// Writing a further value, unless an earlier write has failed.
    pub open spec fn and_write(prev: (Result<(), Error>, ResponseView), rendering: Seq<u8>) -> (
        Result<(), Error>,
        ResponseView,
    ) {
        if prev.0 is Ok {
            prev.1.write(rendering)
        } else {
            prev
        }
    }

    /// Finishing the unit, unless a write has failed.
    pub open spec fn and_finish(prev: (Result<(), Error>, ResponseView)) -> (
        Result<(), Error>,
        ResponseView,
    ) {
        if prev.0 is Ok {
            (Ok(()), prev.1.finished())
        } else {
            prev
        }
    }

    /// A unit that consists of one value: the value is written and the unit
    /// is finished.
    pub open spec fn reply(self, rendering: Seq<u8>) -> (Result<(), Error>, ResponseView) {
        Self::and_finish(self.write(rendering))
    }

    /// Writing an arbitrary block: it is framed and written where its
    /// length can be spelled with nine digits, and refused as too much data
    /// where it cannot.
    pub open spec fn write_block(self, payload: Seq<u8>) -> (Result<(), Error>, ResponseView) {
        if payload.len() <= BLOCK_LIMIT {
            self.write(definite_block(payload))
        } else {
            (Err(Error { code: ErrorCode::TooMuchData }), self)
        }
    }

    /// Starting a unit: a `;` is written where an earlier unit has written
    /// data that no `;` follows yet, and the unit starts behind it.
    pub open spec fn begin(self) -> (Result<(), Error>, ResponseView) {
        if !self.armed {
            (
                Ok(()),
                ResponseView { unit_start: self.bytes.len(), has_data: false, ..self },
            )
        } else if self.bytes.len() < self.limit {
            (
                Ok(()),
                ResponseView {
                    bytes: self.bytes.push(0x3b),
                    unit_start: self.bytes.len() + 1,
                    armed: false,
                    has_data: false,
                    ..self
                },
            )
        } else {
            (Err(Error { code: ErrorCode::OutOfMemory }), self)
        }
    }

    /// Finishing a unit: if it has written anything, the next unit starts
    /// with a `;`.
    pub open spec fn finished(self) -> ResponseView {
        ResponseView { armed: self.armed || self.bytes.len() > self.unit_start, ..self }
    }

    /// Giving up a unit: what it wrote is taken back, and the next unit
    /// starts where this one started.
    pub open spec fn rolled_back(self) -> ResponseView {
        if self.unit_start <= self.bytes.len() {
            ResponseView {
                bytes: self.bytes.take(self.unit_start as int),
                armed: false,
                has_data: false,
                ..self
            }
        } else {
            ResponseView { armed: false, has_data: false, ..self }
        }
    }

    /// Ending the message: a response that is not empty is closed with a
    /// line feed.
    pub open spec fn ended(self) -> (Result<(), Error>, ResponseView) {
        if self.bytes.len() == 0 {
            (Ok(()), self)
        } else if self.bytes.len() < self.limit {
            (
                Ok(()),
                ResponseView {
                    bytes: self.bytes.push(0x0a),
                    unit_start: self.bytes.len() + 1,
                    armed: false,
                    has_data: false,
                    ..self
                },
            )
        } else {
            (Err(Error { code: ErrorCode::OutOfMemory }), self)
        }
    }
}

/// The response to one program message.
pub struct Response {
    buf: Vec<u8>,
    limit: usize,
    unit_start: usize,
    armed: bool,
    has_data: bool,
}

impl View for Response {
    type V = ResponseView;

    closed spec fn view(&self) -> ResponseView {
        ResponseView {
            bytes: self.buf@,
            limit: self.limit as nat,
            unit_start: self.unit_start as nat,
            armed: self.armed,
            has_data: self.has_data,
        }
    }
}

impl Response {
    /// An empty response that can hold `limit` bytes.
    pub fn new(limit: usize) -> (r: Self)
        ensures
            r@ == ResponseView::empty(limit as nat),
    {
        Response { buf: Vec::new(), limit, unit_start: 0, armed: false, has_data: false }
    }

    /// The bytes written so far.
    pub fn as_slice(&self) -> (r: &[u8])
        ensures
            r@ == self@.bytes,
    {
        self.buf.as_slice()
    }

    /// Whether nothing has been written.
    pub fn is_empty(&self) -> (r: bool)
        ensures
            r == (self@.bytes.len() == 0),
    {
        self.buf.len() == 0
    }

    /// Takes back everything and starts a new message.
    pub fn clear(&mut self)
        ensures
            final(self)@ == ResponseView::empty(old(self)@.limit),
    {
        self.unit_start = 0;
        self.buf.clear();
        self.armed = false;
        self.has_data = false;
    }

    /// Writes a value that is rendered already.
    fn write(&mut self, rendering: &[u8]) -> (r: Result<(), Error>)
        ensures
            (r, final(self)@) == old(self)@.write(rendering@),
            old(self)@.wf() ==> final(self)@.wf(),
    {
        if self.buf.len() > self.limit {
            return Err(Error::new(ErrorCode::OutOfMemory));
        }
        let room = self.limit - self.buf.len();
        let separator: usize = if self.has_data {
            1
        } else {
            0
        };
        if rendering.len() > room || room - rendering.len() < separator {
            return Err(Error::new(ErrorCode::OutOfMemory));
        }
        if self.has_data {
            self.buf.push(0x2c);
        }
        self.buf.extend_from_slice(rendering);
        self.has_data = true;
        proof {
            assert(self.buf@ =~= old(self)@.bytes + old(self)@.item(rendering@));
        }
        Ok(())
    }

    /// Starts the response of a unit. Where an earlier unit of the message
    /// has written data, a `;` is written first.
    pub fn begin_unit(&mut self) -> (r: Result<(), Error>)
        ensures
            (r, final(self)@) == old(self)@.begin(),
            old(self)@.wf() ==> final(self)@.wf(),
    {
        if self.armed {
            if self.buf.len() >= self.limit {
                return Err(Error::new(ErrorCode::OutOfMemory));
            }
            self.buf.push(0x3b);
            self.armed = false;
        }
        self.unit_start = self.buf.len();
        self.has_data = false;
        Ok(())
    }

    /// Writes bytes as they are, as character response data.
    pub fn character(&mut self, bytes: &[u8]) -> (r: Result<(), Error>)
        ensures
            (r, final(self)@) == old(self)@.write(bytes@),
            old(self)@.wf() ==> final(self)@.wf(),
    {
        self.write(bytes)
    }

    /// Writes an unsigned integer.
    pub fn unsigned(&mut self, value: u64) -> (r: Result<(), Error>)
        ensures
            (r, final(self)@) == old(self)@.write(decimal_digits(value as nat)),
            old(self)@.wf() ==> final(self)@.wf(),
    {
        let text = render_unsigned(value);
        self.write(text.as_slice())
    }

    /// Writes a signed integer.
    pub fn integer(&mut self, value: i64) -> (r: Result<(), Error>)
        ensures
            (r, final(self)@) == old(self)@.write(signed_digits(value as int)),
            old(self)@.wf() ==> final(self)@.wf(),
    {
        let text = render_signed(value);
        self.write(text.as_slice())
    }

    /// Writes a truth value as `0` or `1`.
    pub fn boolean(&mut self, value: bool) -> (r: Result<(), Error>)
        ensures
            (r, final(self)@) == old(self)@.write(boolean_digit(value)),
            old(self)@.wf() ==> final(self)@.wf(),
    {
        let mut text: Vec<u8> = Vec::new();
        if value {
            text.push(0x31);
        } else {
            text.push(0x30);
        }
        proof {
            assert(text@ =~= boolean_digit(value));
        }
        self.write(text.as_slice())
    }

    /// Writes a string in quotes.
    pub fn string(&mut self, bytes: &[u8]) -> (r: Result<(), Error>)
        ensures
            (r, final(self)@) == old(self)@.write(quoted(bytes@)),
            old(self)@.wf() ==> final(self)@.wf(),
    {
        let text = render_quoted(bytes);
        self.write(text.as_slice())
    }

    /// Writes an arbitrary block of definite length. A payload that is too
    /// long to be framed is refused as too much data, and nothing is
    /// written.
    pub fn block(&mut self, payload: &[u8]) -> (r: Result<(), Error>)
        ensures
            (r, final(self)@) == old(self)@.write_block(payload@),
    {
        match render_block(payload) {
            Some(text) => self.write(text.as_slice()),
            None => Err(Error::new(ErrorCode::TooMuchData)),
        }
    }

    /// Finishes the response of a unit.
    pub fn finish(&mut self) -> (r: Result<(), Error>)
        ensures
            r == Ok::<(), Error>(()),
            final(self)@ == old(self)@.finished(),
            old(self)@.wf() ==> final(self)@.wf(),
    {
        if self.buf.len() > self.unit_start {
            self.armed = true;
        }
        Ok(())
    }

    /// Takes back what the current unit has written.
    pub fn rollback(&mut self)
        ensures
            final(self)@ == old(self)@.rolled_back(),
            old(self)@.wf() ==> final(self)@.wf(),
    {
        if self.unit_start <= self.buf.len() {
            self.buf.truncate(self.unit_start);
        }
        self.armed = false;
        self.has_data = false;
        proof {
            assert(self@.bytes =~= old(self)@.rolled_back().bytes);
        }
    }

    /// Ends the response message: a line feed is written unless the
    /// response is empty.
    pub fn end_message(&mut self) -> (r: Result<(), Error>)
        ensures
            (r, final(self)@) == old(self)@.ended(),
            old(self)@.wf() ==> final(self)@.wf(),
    {
        if self.buf.len() == 0 {
            return Ok(());
        }
        if self.buf.len() >= self.limit {
            return Err(Error::new(ErrorCode::OutOfMemory));
        }
        self.buf.push(0x0a);
        self.unit_start = self.buf.len();
        self.armed = false;
        self.has_data = false;
        Ok(())
    }
}

/// The digits that a number is written with spell that number.
pub proof fn lemma_digits_round_trip(n: nat)
    ensures
        digits_value(decimal_digits(n)) == n,
        all_digits(decimal_digits(n)),
    decreases n,
{
    lemma_decimal_digits(n);
    if n < 10 {
        let d = decimal_digits(n);
        assert(d.drop_last() =~= Seq::<u8>::empty());
        assert(digits_value(d.drop_last()) == 0);
    } else {
        lemma_digits_round_trip(n / 10);
        let d = decimal_digits(n);
        assert(d.drop_last() =~= decimal_digits(n / 10));
    }
}

/// A block that the response writer has framed is read back by the lexer
/// as it was: where the bytes of a definite block stand at the position of
/// the lexer, outside a header, and the message ends behind them or goes on
/// with a `,`, a `;` or a line feed, the next token is an arbitrary block
/// with the same payload, and the lexer stops right behind it.
pub proof fn lemma_block_round_trip(st: LexState, payload: Seq<u8>)
    requires
        st.wf(),
        !st.in_header,
        payload.len() <= BLOCK_LIMIT,
        st.pos + definite_block(payload).len() <= st.input.len(),
        st.input.subrange(st.pos, st.pos + definite_block(payload).len()) == definite_block(
            payload,
        ),
        st.pos + definite_block(payload).len() == st.input.len() || is_data_end(
            st.input[st.pos + definite_block(payload).len()],
        ),
    ensures
        st.step().0 == Some(Ok::<TokenView, ErrorCode>(TokenView::ArbitraryBlockData(payload))),
        st.step().1 == st.at(st.pos + definite_block(payload).len()),
{
    reveal(LexState::step);
    let s = st.input;
    let pos = st.pos;
    let block = definite_block(payload);
    let length = decimal_digits(payload.len());
    let k = length.len() as int;
    lemma_decimal_digits(payload.len());
    lemma_digits_round_trip(payload.len());
    assert(block.len() == 2 + k + payload.len());
    assert forall|i: int| 0 <= i < block.len() implies s[pos + i] == block[i] by {
        assert(s.subrange(pos, pos + block.len())[i] == s[pos + i]);
    }
    assert(s[pos] == block[0]);
    assert(s[pos + 1] == block[1]);
    assert(s[pos] == 0x23);
    assert(s[pos + 1] == (0x30 + k) as u8);
    let q = pos + 2;
    assert(spec_digit_value(s[pos + 1], 10) == Some(k as u32));
    let spelled = s.subrange(q, q + k);
    assert(spelled =~= length) by {
        assert forall|i: int| 0 <= i < k implies spelled[i] == length[i] by {
            assert(s[pos + 2 + i] == block[2 + i]);
        }
    }
    assert(unsigned_digits(spelled) == spelled);
    assert(decimal_usize(spelled) == Some(payload.len() as usize));
    let body = q + k;
    assert(s.subrange(body, body + payload.len()) =~= payload) by {
        assert forall|i: int| 0 <= i < payload.len() implies s[body + i] == payload[i] by {
            assert(s[pos + (2 + k + i)] == block[2 + k + i]);
        }
    }
    let end = body + payload.len();
    assert(run_end(s, end, ByteClass::Blank) == end);
    assert(st.step() == st.after(lex_arbitrary(s, q, s[pos + 1])));
}

} // verus!

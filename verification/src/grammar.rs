//! Program messages as the standard writes them: units separated by `;`, a
//! line feed as the last byte, and in each unit a header and, behind white
//! space, data items separated by `,`. For these the outcome of lexing is
//! known without running the lexer: no error, and one message terminator,
//! which comes last.
//!
//! The UTF-8 block is an extension of the standard and is part of a
//! message only for a lexer that reads it.

use vstd::prelude::*;
use vstd::utf8::valid_utf8;
use crate::chars::{is_alpha, is_blank, is_digit, spec_digit_value};
use crate::decimal::{decimal_scan, lemma_decimal_scan_bounds};
use crate::error::ErrorCode;
use crate::lexis::{
    decimal_usize, is_data_end, lemma_step_advances, lex_arbitrary, lex_character_data,
    lex_decimal, lex_expression, lex_nondecimal, lex_string, lex_suffix, lex_utf8,
    lexemes, radix_of, radix_scan, string_close, LexState, Lexeme, WORD_LIMIT,
};
use crate::scan::{lemma_run_end, run_end, ByteClass};
use crate::token::TokenView;

verus! {

/// Where the mnemonic at `pos` ends: a letter followed by letters, digits
/// and underscores, twelve bytes at most.
pub open spec fn mnemonic_end(s: Seq<u8>, pos: int) -> Option<int> {
    if 0 <= pos < s.len() && is_alpha(s[pos]) && run_end(s, pos, ByteClass::Word) - pos
        <= WORD_LIMIT {
        Some(run_end(s, pos, ByteClass::Word))
    } else {
        None
    }
}

/// Where the chain of mnemonics at `pos` ends: mnemonics joined by `:`.
pub open spec fn chain_end(s: Seq<u8>, pos: int) -> Option<int>
    decreases s.len() - pos,
{
    match mnemonic_end(s, pos) {
        None => None,
        Some(e) => if pos < e < s.len() && s[e] == 0x3a {
            chain_end(s, e + 1)
        } else {
            Some(e)
        },
    }
}

/// Where the mnemonics of the header at `pos` end: `*` and a mnemonic, or a
/// chain of mnemonics with or without a `:` before it.
pub open spec fn names_end(s: Seq<u8>, pos: int) -> Option<int> {
    if 0 <= pos < s.len() && s[pos] == 0x2a {
        mnemonic_end(s, pos + 1)
    } else if 0 <= pos < s.len() && s[pos] == 0x3a {
        chain_end(s, pos + 1)
    } else {
        chain_end(s, pos)
    }
}

/// Where the header at `pos` ends: behind its mnemonics and the `?` that
/// may follow them.
pub open spec fn header_end(s: Seq<u8>, pos: int) -> Option<int> {
    match names_end(s, pos) {
        None => None,
        Some(e) => if e < s.len() && s[e] == 0x3f {
            Some(e + 1)
        } else {
            Some(e)
        },
    }
}

/// Where a word of the given class and the white space behind it end: one
/// to twelve bytes of the class.
pub open spec fn word_end(s: Seq<u8>, pos: int, class: ByteClass) -> Option<int> {
    let e = run_end(s, pos, class);
    if pos < e && e - pos <= WORD_LIMIT {
        Some(run_end(s, e, ByteClass::Blank))
    } else {
        None
    }
}

/// Where the number at `pos` ends, with the suffix that may follow it and
/// the white space behind both.
pub open spec fn number_end(s: Seq<u8>, pos: int) -> Option<int> {
    match decimal_scan(s, pos) {
        (Ok(_), e) => {
            let w = run_end(s, e, ByteClass::Blank);
            if w < s.len() && (is_alpha(s[w]) || s[w] == 0x2f) {
                word_end(s, w, ByteClass::Suffix)
            } else {
                Some(w)
            }
        },
        (Err(_), _) => None,
    }
}

/// Where the data item that starts with `#` at `pos` ends, with the white
/// space behind it: a block of definite length, a block of indefinite
/// length, which runs to the line feed that ends the message, a number in
/// radix 16, 8 or 2, or, with `utf8` set, a UTF-8 block.
pub open spec fn hash_end(s: Seq<u8>, pos: int, utf8: bool) -> Option<int> {
    let q = pos + 2;
    if q > s.len() {
        None
    } else if utf8 && s[pos + 1] == 0x73 {
        if q < s.len() && (s[q] == 0x22 || s[q] == 0x27) {
            match string_close(s, q + 1, s[q], false) {
                Ok(close) => if valid_utf8(s.subrange(q + 1, close)) {
                    Some(run_end(s, close + 1, ByteClass::Blank))
                } else {
                    None
                },
                Err(_) => None,
            }
        } else {
            None
        }
    } else if is_digit(s[pos + 1]) {
        let n = s[pos + 1] - 0x30;
        if n == 0 {
            if q < s.len() && s.last() == 0x0a {
                Some(s.len() - 1)
            } else {
                None
            }
        } else if s.len() - q < n {
            None
        } else {
            match decimal_usize(s.subrange(q, q + n)) {
                None => None,
                Some(size) => if s.len() - (q + n) < size {
                    None
                } else {
                    Some(run_end(s, q + n + size, ByteClass::Blank))
                },
            }
        }
    } else {
        match radix_of(s[pos + 1]) {
            None => None,
            Some(radix) => match radix_scan(s, q, radix, 0) {
                (Ok(_), e) => if e > q {
                    Some(run_end(s, e, ByteClass::Blank))
                } else {
                    None
                },
                (Err(_), _) => None,
            },
        }
    }
}

/// Where the data item at `pos` ends, with the white space behind it, and
/// whether a number has been read since the last `,`.
///
/// The items are a suffix, character data, a decimal number with or without
/// a suffix, a number in another radix, an arbitrary block, a string, an
/// expression and, with `utf8` set, a UTF-8 block. A word is a suffix where
/// a number has been read since the last `,`, and character data otherwise.
pub open spec fn item_end(s: Seq<u8>, pos: int, numeric: bool, utf8: bool) -> Option<(int, bool)> {
    if !(0 <= pos < s.len()) {
        None
    } else {
        let c = s[pos];
        if c == 0x2f || (is_alpha(c) && numeric) {
            match word_end(s, pos, ByteClass::Suffix) {
                Some(w) => Some((w, numeric)),
                None => None,
            }
        } else if is_alpha(c) {
            match word_end(s, pos, ByteClass::Word) {
                Some(w) => Some((w, numeric)),
                None => None,
            }
        } else if is_digit(c) || c == 0x2d || c == 0x2b || c == 0x2e {
            match number_end(s, pos) {
                Some(w) => Some((w, true)),
                None => None,
            }
        } else if c == 0x23 {
            match hash_end(s, pos, utf8) {
                Some(w) => Some((w, numeric)),
                None => None,
            }
        } else if c == 0x27 || c == 0x22 {
            match string_close(s, pos + 1, c, true) {
                Ok(close) => Some((run_end(s, close + 1, ByteClass::Blank), numeric)),
                Err(_) => None,
            }
        } else if c == 0x28 {
            let e = run_end(s, pos + 1, ByteClass::Expression);
            if e < s.len() && s[e] == 0x29 {
                Some((run_end(s, e + 1, ByteClass::Blank), numeric))
            } else {
                None
            }
        } else {
            None
        }
    }
}

/// Where the data items at `pos` end: items separated by `,`, with white
/// space behind each `,`, up to the `;` or the line feed behind the last.
pub open spec fn items_end(s: Seq<u8>, pos: int, numeric: bool, utf8: bool) -> Option<(int, bool)>
    decreases s.len() - pos,
{
    match item_end(s, pos, numeric, utf8) {
        None => None,
        Some((e, after)) => if !(pos < e < s.len()) {
            None
        } else if s[e] == 0x2c {
            if e < run_end(s, e + 1, ByteClass::Blank) <= s.len() {
                items_end(s, run_end(s, e + 1, ByteClass::Blank), false, utf8)
            } else {
                None
            }
        } else if s[e] == 0x3b || s[e] == 0x0a {
            Some((e, after))
        } else {
            None
        },
    }
}

/// Where the message unit at `pos` ends: behind its header, or behind the
/// white space and the data items that follow the header.
pub open spec fn unit_stop(s: Seq<u8>, pos: int, numeric: bool, utf8: bool) -> Option<(int, bool)> {
    match header_end(s, pos) {
        None => None,
        Some(h) => if h < s.len() && is_blank(s[h]) {
            let b = run_end(s, h, ByteClass::Blank);
            if b < s.len() && (s[b] == 0x3b || s[b] == 0x0a) {
                Some((b, numeric))
            } else {
                items_end(s, b, numeric, utf8)
            }
        } else {
            Some((h, numeric))
        },
    }
}

/// Whether a program message stands at `pos`: units separated by `;`, with
/// white space behind each `;`, and a line feed as the last byte.
pub open spec fn is_message(s: Seq<u8>, pos: int, numeric: bool, utf8: bool) -> bool
    decreases s.len() - pos,
{
    match unit_stop(s, pos, numeric, utf8) {
        None => false,
        Some((e, after)) => pos < e < s.len() && ((s[e] == 0x0a && e == s.len() - 1) || (s[e]
            == 0x3b && e < run_end(s, e + 1, ByteClass::Blank) <= s.len() && is_message(
            s,
            run_end(s, e + 1, ByteClass::Blank),
            after,
            utf8,
        ))),
    }
}

/// Whether lexing from `st` on goes without error and ends in the one
/// message terminator that it yields.
pub open spec fn lexes_cleanly(st: LexState) -> bool {
    let all = lexemes(st);
    &&& all.len() > 0
    &&& forall|i: int| 0 <= i < all.len() ==> (#[trigger] all[i]).result is Ok
    &&& all.last().result == Ok::<TokenView, ErrorCode>(TokenView::ProgramMessageTerminator)
    &&& forall|i: int|
        0 <= i < all.len() - 1 ==> (#[trigger] all[i]).result != Ok::<TokenView, ErrorCode>(
            TokenView::ProgramMessageTerminator,
        )
}

/// The state at position `e` with the given marks.
pub open spec fn placed(
    st: LexState,
    e: int,
    in_header: bool,
    in_common: bool,
    named: bool,
    in_numeric: bool,
) -> LexState {
    LexState { pos: e, in_header, in_common, named, in_numeric, ..st }
}

/// The state at position `e` behind a data item.
pub open spec fn behind(st: LexState, e: int, in_numeric: bool) -> LexState {
    placed(st, e, false, st.in_common, st.named, in_numeric)
}

/// A token other than the terminator, followed by clean lexing, is clean
/// lexing.
proof fn lemma_clean_step(st: LexState, token: TokenView, next: LexState)
    requires
        st.wf(),
        st.step() == (Some(Ok::<TokenView, ErrorCode>(token)), next),
        token != TokenView::ProgramMessageTerminator,
        lexes_cleanly(next),
    ensures
        lexes_cleanly(st),
{
    lemma_step_advances(st);
    let head = Lexeme { result: Ok(token), start: st.pos, end: next.pos };
    let rest = lexemes(next);
    let all = lexemes(st);
    assert(all == seq![head] + rest);
    assert(all[0] == head);
    assert forall|i: int| 1 <= i < all.len() implies all[i] == rest[i - 1] by {}
    assert(all.last() == rest.last());
    assert forall|i: int| 0 <= i < all.len() implies (#[trigger] all[i]).result is Ok by {
        if i > 0 {
            assert(all[i] == rest[i - 1]);
        }
    }
    assert forall|i: int| 0 <= i < all.len() - 1 implies (#[trigger] all[i]).result != Ok::<
        TokenView,
        ErrorCode,
    >(TokenView::ProgramMessageTerminator) by {
        if i > 0 {
            assert(all[i] == rest[i - 1]);
        }
    }
}

/// A terminator that ends the message is clean lexing.
proof fn lemma_clean_end(st: LexState)
    requires
        st.wf(),
        st.step().0 == Some(
            Ok::<TokenView, ErrorCode>(TokenView::ProgramMessageTerminator),
        ),
        st.step().1.pos == st.input.len(),
    ensures
        lexes_cleanly(st),
{
    lemma_step_advances(st);
    let next = st.step().1;
    lemma_step_advances(next);
    let head = Lexeme {
        result: Ok(TokenView::ProgramMessageTerminator),
        start: st.pos,
        end: next.pos,
    };
    assert(lexemes(next) =~= Seq::<Lexeme>::empty());
    let all = lexemes(st);
    assert(all =~= seq![head]);
    assert(all[0] == head);
}

/// A mnemonic is read as one token, which marks the unit as named.
proof fn lemma_mnemonic_step(st: LexState, e: int)
    requires
        st.wf(),
        st.in_header,
        mnemonic_end(st.input, st.pos) == Some(e),
    ensures
        st.step() == (
            Some(
                Ok::<TokenView, ErrorCode>(
                    TokenView::ProgramMnemonic(st.input.subrange(st.pos, e)),
                ),
            ),
            placed(st, e, true, st.in_common, true, st.in_numeric),
        ),
        st.pos < e <= st.input.len(),
{
    reveal(LexState::step);
    lemma_run_end(st.input, st.pos, ByteClass::Word);
    assert(ByteClass::Word.holds(st.input[st.pos]));
}

/// A chain of mnemonics, followed by clean lexing from its end on, is
/// clean lexing.
proof fn lemma_chain_clean(st: LexState, h: int)
    requires
        st.wf(),
        st.in_header,
        !st.in_common,
        chain_end(st.input, st.pos) == Some(h),
        lexes_cleanly(placed(st, h, true, false, true, st.in_numeric)),
    ensures
        lexes_cleanly(st),
        st.pos < h <= st.input.len(),
    decreases st.input.len() - st.pos,
{
    let s = st.input;
    let e = mnemonic_end(s, st.pos).unwrap();
    lemma_mnemonic_step(st, e);
    let st1 = placed(st, e, true, false, true, st.in_numeric);
    if e < s.len() && s[e] == 0x3a {
        let st2 = st1.at(e + 1);
        assert(chain_end(s, e + 1) == Some(h));
        assert(mnemonic_end(s, e + 1) is Some);
        assert(st1.step() == (
            Some(Ok::<TokenView, ErrorCode>(TokenView::HeaderMnemonicSeparator)),
            st2,
        )) by {
            reveal(LexState::step);
        }
        assert(placed(st2, h, true, false, true, st2.in_numeric) == placed(
            st,
            h,
            true,
            false,
            true,
            st.in_numeric,
        ));
        lemma_chain_clean(st2, h);
        lemma_clean_step(st1, TokenView::HeaderMnemonicSeparator, st2);
    }
    lemma_clean_step(st, TokenView::ProgramMnemonic(s.subrange(st.pos, e)), st1);
}

/// A chain of mnemonics ends behind where it starts, inside the message.
proof fn lemma_chain_bounds(s: Seq<u8>, pos: int)
    requires
        0 <= pos <= s.len(),
        chain_end(s, pos) is Some,
    ensures
        pos < chain_end(s, pos).unwrap() <= s.len(),
    decreases s.len() - pos,
{
    lemma_run_end(s, pos, ByteClass::Word);
    let e = mnemonic_end(s, pos).unwrap();
    assert(ByteClass::Word.holds(s[pos]));
    if pos < e < s.len() && s[e] == 0x3a {
        lemma_chain_bounds(s, e + 1);
    }
}

/// The mnemonics of a header, followed by clean lexing from their end on,
/// are clean lexing.
proof fn lemma_names_clean(st: LexState, h: int)
    requires
        st.wf(),
        st.in_header,
        !st.in_common,
        !st.named,
        names_end(st.input, st.pos) == Some(h),
        forall|b: bool| lexes_cleanly(#[trigger] placed(st, h, true, b, true, st.in_numeric)),
    ensures
        lexes_cleanly(st),
        st.pos < h <= st.input.len(),
{
    let s = st.input;
    let pos = st.pos;
    if s[pos] == 0x2a {
        let st1 = placed(st, pos + 1, true, true, false, st.in_numeric);
        assert(st.step() == (Some(Ok::<TokenView, ErrorCode>(TokenView::HeaderCommonPrefix)), st1))
            by {
            reveal(LexState::step);
        }
        lemma_mnemonic_step(st1, h);
        let st2 = placed(st1, h, true, true, true, st.in_numeric);
        assert(st2 == placed(st, h, true, true, true, st.in_numeric));
        lemma_clean_step(st1, TokenView::ProgramMnemonic(s.subrange(pos + 1, h)), st2);
        lemma_clean_step(st, TokenView::HeaderCommonPrefix, st1);
    } else if s[pos] == 0x3a {
        let st1 = st.at(pos + 1);
        assert(mnemonic_end(s, pos + 1) is Some);
        assert(st.step() == (
            Some(Ok::<TokenView, ErrorCode>(TokenView::HeaderMnemonicSeparator)),
            st1,
        )) by {
            reveal(LexState::step);
        }
        assert(placed(st1, h, true, false, true, st1.in_numeric) == placed(
            st,
            h,
            true,
            false,
            true,
            st.in_numeric,
        ));
        lemma_chain_clean(st1, h);
        lemma_clean_step(st, TokenView::HeaderMnemonicSeparator, st1);
    } else {
        lemma_chain_clean(st, h);
    }
}

/// A header, followed by clean lexing from its end on, is clean lexing.
proof fn lemma_header_clean(st: LexState, h: int)
    requires
        st.wf(),
        st.in_header,
        !st.in_common,
        !st.named,
        header_end(st.input, st.pos) == Some(h),
        h < st.input.len(),
        is_blank(st.input[h]) || st.input[h] == 0x3b || st.input[h] == 0x0a,
        forall|a: bool, b: bool|
            lexes_cleanly(#[trigger] placed(st, h, a, b, true, st.in_numeric)),
    ensures
        lexes_cleanly(st),
        st.pos < h,
{
    let s = st.input;
    let n = names_end(s, st.pos).unwrap();
    lemma_names_bounds(s, st.pos);
    if n < s.len() && s[n] == 0x3f {
        assert forall|b: bool|
            lexes_cleanly(#[trigger] placed(st, n, true, b, true, st.in_numeric)) by {
            let at = placed(st, n, true, b, true, st.in_numeric);
            let next = placed(st, h, false, b, true, st.in_numeric);
            assert(at.step() == (
                Some(Ok::<TokenView, ErrorCode>(TokenView::HeaderQuerySuffix)),
                next,
            )) by {
                reveal(LexState::step);
            }
            lemma_clean_step(at, TokenView::HeaderQuerySuffix, next);
        }
        lemma_names_clean(st, n);
    } else {
        assert forall|b: bool|
            lexes_cleanly(#[trigger] placed(st, n, true, b, true, st.in_numeric)) by {}
        lemma_names_clean(st, n);
    }
}

/// The mnemonics of a header end behind where they start, inside the
/// message.
proof fn lemma_names_bounds(s: Seq<u8>, pos: int)
    requires
        0 <= pos <= s.len(),
        names_end(s, pos) is Some,
    ensures
        pos < names_end(s, pos).unwrap() <= s.len(),
{
    if pos < s.len() && s[pos] == 0x2a {
        lemma_run_end(s, pos + 1, ByteClass::Word);
    } else if pos < s.len() && s[pos] == 0x3a {
        lemma_chain_bounds(s, pos + 1);
    } else {
        lemma_chain_bounds(s, pos);
    }
}

/// A word, which is a suffix or character data, is read as one token.
proof fn lemma_word_clean(st: LexState, w: int)
    requires
        st.wf(),
        !st.in_header,
        st.pos < st.input.len(),
        is_alpha(st.input[st.pos]) || st.input[st.pos] == 0x2f,
        word_end(
            st.input,
            st.pos,
            if st.input[st.pos] == 0x2f || st.in_numeric {
                ByteClass::Suffix
            } else {
                ByteClass::Word
            },
        ) == Some(w),
        w < st.input.len(),
        is_data_end(st.input[w]),
        lexes_cleanly(st.at(w)),
    ensures
        lexes_cleanly(st),
{
    let s = st.input;
    let pos = st.pos;
    if s[pos] == 0x2f || st.in_numeric {
        let e = run_end(s, pos, ByteClass::Suffix);
        let token = TokenView::SuffixProgramData(s.subrange(pos, e));
        assert(lex_suffix(s, pos).result == Ok::<TokenView, ErrorCode>(token));
        assert(st.step() == (Some(Ok::<TokenView, ErrorCode>(token)), st.at(w))) by {
            reveal(LexState::step);
        }
        lemma_clean_step(st, token, st.at(w));
    } else {
        let e = run_end(s, pos, ByteClass::Word);
        let token = TokenView::CharacterProgramData(s.subrange(pos, e));
        assert(lex_character_data(s, pos).result == Ok::<TokenView, ErrorCode>(token));
        assert(st.step() == (Some(Ok::<TokenView, ErrorCode>(token)), st.at(w))) by {
            reveal(LexState::step);
        }
        lemma_clean_step(st, token, st.at(w));
    }
}

/// A number, with the suffix that may follow it, is read as one token or
/// two.
proof fn lemma_number_clean(st: LexState, w: int)
    requires
        st.wf(),
        !st.in_header,
        st.pos < st.input.len(),
        is_digit(st.input[st.pos]) || st.input[st.pos] == 0x2d || st.input[st.pos] == 0x2b
            || st.input[st.pos] == 0x2e,
        number_end(st.input, st.pos) == Some(w),
        w < st.input.len(),
        is_data_end(st.input[w]),
        lexes_cleanly(behind(st, w, true)),
    ensures
        lexes_cleanly(st),
{
    let s = st.input;
    let pos = st.pos;
    let e = decimal_scan(s, pos).1;
    let b = run_end(s, e, ByteClass::Blank);
    lemma_decimal_scan_bounds(s, pos);
    lemma_run_end(s, e, ByteClass::Blank);
    let token = TokenView::DecimalNumericProgramData(s.subrange(pos, e));
    let st1 = behind(st, b, true);
    assert(lex_decimal(s, pos).result == Ok::<TokenView, ErrorCode>(token));
    assert(st.step() == (Some(Ok::<TokenView, ErrorCode>(token)), st1)) by {
        reveal(LexState::step);
    }
    if b < s.len() && (is_alpha(s[b]) || s[b] == 0x2f) {
        assert(st1.at(w) == behind(st, w, true));
        lemma_word_clean(st1, w);
    }
    lemma_clean_step(st, token, st1);
}

/// A block or a number in radix 16, 8 or 2 is read as one token.
proof fn lemma_hash_clean(st: LexState, w: int)
    requires
        st.wf(),
        !st.in_header,
        st.pos < st.input.len(),
        st.input[st.pos] == 0x23,
        hash_end(st.input, st.pos, st.utf8_blocks) == Some(w),
        w < st.input.len(),
        is_data_end(st.input[w]),
        lexes_cleanly(st.at(w)),
    ensures
        lexes_cleanly(st),
{
    let s = st.input;
    let pos = st.pos;
    let q = pos + 2;
    let x = s[pos + 1];
    if st.utf8_blocks && x == 0x73 {
        let close = string_close(s, q + 1, s[q], false)->Ok_0;
        let token = TokenView::Utf8BlockData(s.subrange(q + 1, close));
        assert(lex_string(s, q, s[q], false).result == Ok::<TokenView, ErrorCode>(
            TokenView::StringProgramData(s.subrange(q + 1, close)),
        ));
        assert(lex_utf8(s, q).result == Ok::<TokenView, ErrorCode>(token));
        assert(lex_utf8(s, q).end == w);
        assert(st.step() == (Some(Ok::<TokenView, ErrorCode>(token)), st.at(w))) by {
            reveal(LexState::step);
        }
        lemma_clean_step(st, token, st.at(w));
    } else if is_digit(x) {
        let n = (x - 0x30) as int;
        assert(spec_digit_value(x, 10) == Some(n as u32));
        let token = if n == 0 {
            TokenView::ArbitraryBlockData(s.subrange(q, s.len() - 1))
        } else {
            let size = decimal_usize(s.subrange(q, q + n)).unwrap();
            TokenView::ArbitraryBlockData(s.subrange(q + n, q + n + size))
        };
        assert(lex_arbitrary(s, q, x).result == Ok::<TokenView, ErrorCode>(token));
        assert(lex_arbitrary(s, q, x).end == w);
        assert(st.step() == (Some(Ok::<TokenView, ErrorCode>(token)), st.at(w))) by {
            reveal(LexState::step);
        }
        lemma_clean_step(st, token, st.at(w));
    } else {
        let radix = radix_of(x).unwrap();
        let value = radix_scan(s, q, radix, 0).0.unwrap();
        let token = TokenView::NonDecimalNumericProgramData(value as u32);
        assert(x != 0x73);
        assert(lex_nondecimal(s, q, x).result == Ok::<TokenView, ErrorCode>(token));
        assert(lex_nondecimal(s, q, x).end == w);
        assert(st.step() == (Some(Ok::<TokenView, ErrorCode>(token)), st.at(w))) by {
            reveal(LexState::step);
        }
        lemma_clean_step(st, token, st.at(w));
    }
}

/// A string or an expression is read as one token.
proof fn lemma_bracketed_clean(st: LexState, w: int)
    requires
        st.wf(),
        !st.in_header,
        st.pos < st.input.len(),
        st.input[st.pos] == 0x27 || st.input[st.pos] == 0x22 || st.input[st.pos] == 0x28,
        item_end(st.input, st.pos, st.in_numeric, st.utf8_blocks) == Some((w, st.in_numeric)),
        w < st.input.len(),
        is_data_end(st.input[w]),
        lexes_cleanly(st.at(w)),
    ensures
        lexes_cleanly(st),
{
    let s = st.input;
    let pos = st.pos;
    let c = s[pos];
    if c == 0x28 {
        let e = run_end(s, pos + 1, ByteClass::Expression);
        let token = TokenView::ExpressionProgramData(s.subrange(pos + 1, e));
        assert(lex_expression(s, pos).result == Ok::<TokenView, ErrorCode>(token));
        assert(st.step() == (Some(Ok::<TokenView, ErrorCode>(token)), st.at(w))) by {
            reveal(LexState::step);
        }
        lemma_clean_step(st, token, st.at(w));
    } else {
        let close = string_close(s, pos + 1, c, true)->Ok_0;
        let token = TokenView::StringProgramData(s.subrange(pos + 1, close));
        assert(lex_string(s, pos, c, true).result == Ok::<TokenView, ErrorCode>(token));
        assert(st.step() == (Some(Ok::<TokenView, ErrorCode>(token)), st.at(w))) by {
            reveal(LexState::step);
        }
        lemma_clean_step(st, token, st.at(w));
    }
}

/// A data item, followed by clean lexing from its end on, is clean lexing.
proof fn lemma_item_clean(st: LexState, w: int, after: bool)
    requires
        st.wf(),
        !st.in_header,
        item_end(st.input, st.pos, st.in_numeric, st.utf8_blocks) == Some((w, after)),
        w < st.input.len(),
        is_data_end(st.input[w]),
        lexes_cleanly(behind(st, w, after)),
    ensures
        lexes_cleanly(st),
{
    let s = st.input;
    let c = s[st.pos];
    if c == 0x2f || is_alpha(c) {
        assert(st.at(w) == behind(st, w, after));
        lemma_word_clean(st, w);
    } else if is_digit(c) || c == 0x2d || c == 0x2b || c == 0x2e {
        lemma_number_clean(st, w);
    } else if c == 0x23 {
        assert(st.at(w) == behind(st, w, after));
        lemma_hash_clean(st, w);
    } else {
        assert(st.at(w) == behind(st, w, after));
        lemma_bracketed_clean(st, w);
    }
}

/// Data items, followed by clean lexing from their end on, are clean
/// lexing.
proof fn lemma_items_clean(st: LexState, e: int, after: bool)
    requires
        st.wf(),
        !st.in_header,
        items_end(st.input, st.pos, st.in_numeric, st.utf8_blocks) == Some((e, after)),
        lexes_cleanly(behind(st, e, after)),
    ensures
        lexes_cleanly(st),
        st.pos < e < st.input.len(),
        st.input[e] == 0x3b || st.input[e] == 0x0a,
    decreases st.input.len() - st.pos,
{
    let s = st.input;
    let (w, marked) = item_end(s, st.pos, st.in_numeric, st.utf8_blocks).unwrap();
    if s[w] == 0x2c {
        let next = run_end(s, w + 1, ByteClass::Blank);
        lemma_run_end(s, w + 1, ByteClass::Blank);
        let at = behind(st, w, marked);
        let st2 = behind(st, next, false);
        assert(items_end(s, next, false, st.utf8_blocks) == Some((e, after)));
        assert(item_end(s, next, false, st.utf8_blocks) is Some);
        assert(next < s.len() && !is_data_end(s[next]));
        assert(at.step() == (
            Some(Ok::<TokenView, ErrorCode>(TokenView::ProgramDataSeparator)),
            st2,
        )) by {
            reveal(LexState::step);
        }
        assert(behind(st2, e, after) == behind(st, e, after));
        lemma_items_clean(st2, e, after);
        lemma_clean_step(at, TokenView::ProgramDataSeparator, st2);
    }
    lemma_item_clean(st, w, marked);
}

/// What follows a unit in a message, which is a `;` and the rest of the
/// message or the line feed that ends it, is lexed cleanly whatever the
/// marks of the unit are.
proof fn lemma_tail_clean(st: LexState)
    requires
        st.wf(),
        st.pos < st.input.len(),
        (st.input[st.pos] == 0x0a && st.pos == st.input.len() - 1) || (st.input[st.pos] == 0x3b
            && st.pos < run_end(st.input, st.pos + 1, ByteClass::Blank) <= st.input.len()
            && is_message(
            st.input,
            run_end(st.input, st.pos + 1, ByteClass::Blank),
            st.in_numeric,
            st.utf8_blocks,
        )),
    ensures
        lexes_cleanly(st),
    decreases st.input.len() - st.pos, 0int,
{
    let s = st.input;
    if s[st.pos] == 0x0a {
        assert(st.step() == (
            Some(Ok::<TokenView, ErrorCode>(TokenView::ProgramMessageTerminator)),
            st.at(st.pos + 1),
        )) by {
            reveal(LexState::step);
        }
        lemma_clean_end(st);
    } else {
        let p = run_end(s, st.pos + 1, ByteClass::Blank);
        lemma_run_end(s, st.pos + 1, ByteClass::Blank);
        let next = placed(st, p, true, false, false, st.in_numeric);
        assert(st.step() == (
            Some(Ok::<TokenView, ErrorCode>(TokenView::ProgramMessageUnitSeparator)),
            next,
        )) by {
            reveal(LexState::step);
        }
        lemma_message(next);
        lemma_clean_step(st, TokenView::ProgramMessageUnitSeparator, next);
    }
}

/// The data of a unit, followed by clean lexing from the end of the unit
/// on, is clean lexing from the end of the header on.
proof fn lemma_data_clean(st: LexState, e: int, after: bool)
    requires
        st.wf(),
        st.pos < st.input.len(),
        is_blank(st.input[st.pos]),
        ({
            let b = run_end(st.input, st.pos, ByteClass::Blank);
            if b < st.input.len() && (st.input[b] == 0x3b || st.input[b] == 0x0a) {
                e == b && after == st.in_numeric
            } else {
                items_end(st.input, b, st.in_numeric, st.utf8_blocks) == Some((e, after))
            }
        }),
        lexes_cleanly(behind(st, e, after)),
    ensures
        lexes_cleanly(st),
{
    let s = st.input;
    let b = run_end(s, st.pos, ByteClass::Blank);
    lemma_run_end(s, st.pos, ByteClass::Blank);
    let st1 = behind(st, b, st.in_numeric);
    assert(st.step() == (
        Some(Ok::<TokenView, ErrorCode>(TokenView::ProgramHeaderSeparator)),
        st1,
    )) by {
        reveal(LexState::step);
    }
    if !(b < s.len() && (s[b] == 0x3b || s[b] == 0x0a)) {
        assert(behind(st1, e, after) == behind(st, e, after));
        lemma_items_clean(st1, e, after);
    }
    lemma_clean_step(st, TokenView::ProgramHeaderSeparator, st1);
}

/// A program message is lexed without error, and the lexer yields one
/// message terminator, as the last of its tokens.
pub proof fn lemma_message(st: LexState)
    requires
        st.wf(),
        st.in_header,
        !st.in_common,
        !st.named,
        is_message(st.input, st.pos, st.in_numeric, st.utf8_blocks),
    ensures
        lexes_cleanly(st),
    decreases st.input.len() - st.pos, 1int,
{
    let s = st.input;
    let pos = st.pos;
    let (e, after) = unit_stop(s, pos, st.in_numeric, st.utf8_blocks).unwrap();
    let h = header_end(s, pos).unwrap();
    lemma_names_bounds(s, pos);
    // Lexing is clean from the end of the unit on, whatever its marks.
    assert forall|a: bool, b: bool, c: bool|
        lexes_cleanly(#[trigger] placed(st, e, a, b, c, after)) by {
        lemma_tail_clean(placed(st, e, a, b, c, after));
    }
    assert forall|a: bool, b: bool|
        lexes_cleanly(#[trigger] placed(st, h, a, b, true, st.in_numeric)) by {
        let at = placed(st, h, a, b, true, st.in_numeric);
        if h < s.len() && is_blank(s[h]) {
            assert(behind(at, e, after) == placed(st, e, false, b, true, after));
            lemma_data_clean(at, e, after);
        } else {
            assert(at == placed(st, e, a, b, true, after));
        }
    }
    lemma_header_clean(st, h);
}

} // verus!

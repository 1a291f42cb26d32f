//! Runs of bytes of one class.

use vstd::prelude::*;
use crate::chars::{is_alnum, is_blank, is_digit, is_space};

verus! {

/// The classes of bytes that the lexer reads in runs.
#[derive(Clone, Copy, Debug, PartialEq, Eq, Structural)]
pub enum ByteClass {
    /// ASCII white space.
    Space,
    /// White space other than the line feed.
    Blank,
    /// Decimal digits.
    Digit,
    /// Letters and digits.
    Alnum,
    /// Letters, digits and the underscore: the bytes of a mnemonic.
    Word,
    /// Letters, digits, `-`, `/` and `.`: the bytes of a suffix.
    Suffix,
    /// What may stand inside an expression: ASCII without the quotes, `;`
    /// and the parentheses.
    Expression,
}

impl ByteClass {
    /// Whether `c` belongs to the class.
    pub open spec fn holds(self, c: u8) -> bool {
        match self {
            ByteClass::Space => is_space(c),
            ByteClass::Blank => is_blank(c),
            ByteClass::Digit => is_digit(c),
            ByteClass::Alnum => is_alnum(c),
            ByteClass::Word => is_alnum(c) || c == 0x5f,
            ByteClass::Suffix => is_alnum(c) || c == 0x2d || c == 0x2f || c == 0x2e,
            ByteClass::Expression => c < 0x80 && c != 0x29 && c != 0x22 && c != 0x27 && c != 0x3b
                && c != 0x28,
        }
    }

    /// Whether `c` belongs to the class.
    pub fn contains(self, c: u8) -> (r: bool)
        ensures
            r == self.holds(c),
    {
        match self {
            ByteClass::Space => is_space(c),
            ByteClass::Blank => is_blank(c),
            ByteClass::Digit => is_digit(c),
            ByteClass::Alnum => is_alnum(c),
            ByteClass::Word => is_alnum(c) || c == 0x5f,
            ByteClass::Suffix => is_alnum(c) || c == 0x2d || c == 0x2f || c == 0x2e,
            ByteClass::Expression => c < 0x80 && c != 0x29 && c != 0x22 && c != 0x27 && c != 0x3b
                && c != 0x28,
        }
    }
}

/// The end of the longest run of bytes of `class` that starts at `from`.
pub open spec fn run_end(s: Seq<u8>, from: int, class: ByteClass) -> int
    decreases s.len() - from,
{
    if 0 <= from < s.len() && class.holds(s[from]) {
        run_end(s, from + 1, class)
    } else {
        from
    }
}

/// The run ends inside the input, holds bytes of the class only, and is
/// followed by a byte of another class or by the end.
pub proof fn lemma_run_end(s: Seq<u8>, from: int, class: ByteClass)
    requires
        0 <= from <= s.len(),
    ensures
        from <= run_end(s, from, class) <= s.len(),
        forall|i: int| from <= i < run_end(s, from, class) ==> class.holds(#[trigger] s[i]),
        run_end(s, from, class) < s.len() ==> !class.holds(s[run_end(s, from, class)]),
    decreases s.len() - from,
{
    if from < s.len() && class.holds(s[from]) {
        lemma_run_end(s, from + 1, class);
    }
}

/// A position that the run reaches and cannot pass is its end.
pub proof fn lemma_run_end_is(s: Seq<u8>, from: int, class: ByteClass, end: int)
    requires
        0 <= from <= end <= s.len(),
        forall|i: int| from <= i < end ==> class.holds(#[trigger] s[i]),
        end < s.len() ==> !class.holds(s[end]),
    ensures
        run_end(s, from, class) == end,
    decreases end - from,
{
    if from < end {
        assert(class.holds(s[from]));
        lemma_run_end_is(s, from + 1, class, end);
    }
}

/// Finds the end of the run of bytes of `class` that starts at `from`.
pub(crate) fn scan_run(buf: &[u8], from: usize, class: ByteClass) -> (end: usize)
    requires
        from <= buf@.len(),
    ensures
        end == run_end(buf@, from as int, class),
        from <= end <= buf@.len(),
{
    let mut end = from;
    while end < buf.len() && class.contains(buf[end])
        invariant
            from <= end <= buf@.len(),
            forall|i: int| from <= i < end ==> class.holds(#[trigger] buf@[i]),
        decreases buf@.len() - end,
    {
        end += 1;
    }
    proof {
        lemma_run_end_is(buf@, from as int, class, end as int);
    }
    end
}

} // verus!

//! Comparison of a received mnemonic with the short and long form of a
//! canonical one, and the numeric suffix that names an instance.

use vstd::prelude::*;
use crate::chars::{is_digit, is_lower, is_upper, same_letter};
use crate::token::{Token, TokenView};

verus! {

/// Whether `received` is an accepted spelling of `canonical`.
///
/// It is no longer than the canonical form and agrees with it byte for byte
/// where the case of letters is ignored. Where it is shorter, it has taken no
/// lower-case letter of the canonical form, and what it leaves out holds
/// neither an upper-case letter nor a digit: the spelling stops at the short
/// form or goes on to the very end.
pub open spec fn mnemonic_matches(canonical: Seq<u8>, received: Seq<u8>) -> bool {
    &&& received.len() <= canonical.len()
    &&& forall|i: int| 0 <= i < received.len() ==> same_letter(canonical[i], #[trigger] received[i])
    &&& (received.len() == canonical.len() || {
        &&& forall|j: int| 0 <= j < received.len() ==> !is_lower(#[trigger] canonical[j])
        &&& forall|k: int|
            received.len() <= k < canonical.len() ==> !is_upper(#[trigger] canonical[k])
                && !is_digit(canonical[k])
    })
}

/// The length of the short form: the number of bytes before the first
/// lower-case letter.
pub open spec fn short_form_len(canonical: Seq<u8>) -> nat
    decreases canonical.len(),
{
    if canonical.len() == 0 || is_lower(canonical[0]) {
        0
    } else {
        1 + short_form_len(canonical.drop_first())
    }
}

/// Whether everything after the short form may be left out: it holds neither
/// an upper-case letter nor a digit.
pub open spec fn long_tail_is_optional(canonical: Seq<u8>) -> bool {
    forall|k: int|
        short_form_len(canonical) <= k < canonical.len() ==> !is_upper(#[trigger] canonical[k])
            && !is_digit(canonical[k])
}

/// The number of digits that `m` ends in.
pub open spec fn trailing_digits(m: Seq<u8>) -> nat
    decreases m.len(),
{
    if m.len() == 0 || !is_digit(m.last()) {
        0
    } else {
        1 + trailing_digits(m.drop_last())
    }
}

/// The stem and the numeric suffix of `m`, where `m` ends in digits and does
/// not consist of digits alone.
pub open spec fn split_index(m: Seq<u8>) -> Option<(Seq<u8>, Seq<u8>)> {
    let k = trailing_digits(m);
    if 0 < k < m.len() {
        Some((m.subrange(0, m.len() - k), m.subrange(m.len() - k, m.len() as int)))
    } else {
        None
    }
}

/// The byte string `1`, the suffix that a mnemonic without suffix stands for.
pub open spec fn index_one() -> Seq<u8> {
    seq![0x31u8]
}

/// Whether `received` names the same node as `canonical`: it is an accepted
/// spelling as it stands, or the stems agree and the suffixes are equal,
/// where a missing suffix counts as `1`.
pub open spec fn mnemonic_equivalent(canonical: Seq<u8>, received: Seq<u8>) -> bool {
    mnemonic_matches(canonical, received) || match (split_index(canonical), split_index(received)) {
        (None, None) => false,
        (Some((m, index)), None) => mnemonic_matches(m, received) && index == index_one(),
        (None, Some((x, index))) => mnemonic_matches(canonical, x) && index == index_one(),
        (Some((m, index1)), Some((x, index2))) => mnemonic_matches(m, x) && index1 == index2,
    }
}

/// Counting digits from the end: where the `k` last bytes are digits and the
/// one before them is not, or there is none before them, `k` is the count.
proof fn lemma_trailing_digits_is(m: Seq<u8>, k: nat)
    requires
        k <= m.len(),
        forall|i: int| m.len() - k <= i < m.len() ==> is_digit(#[trigger] m[i]),
        k < m.len() ==> !is_digit(m[m.len() - k - 1]),
    ensures
        trailing_digits(m) == k,
    decreases m.len(),
{
    if m.len() == 0 {
    } else if k == 0 {
        assert(!is_digit(m.last()));
    } else {
        assert(is_digit(m[m.len() - 1]));
        let rest = m.drop_last();
        assert forall|i: int| rest.len() - (k - 1) <= i < rest.len() implies is_digit(
            #[trigger] rest[i],
        ) by {
            assert(rest[i] == m[i]);
        }
        if k - 1 < rest.len() {
            assert(rest[rest.len() - (k - 1) - 1] == m[m.len() - k - 1]);
        }
        lemma_trailing_digits_is(rest, (k - 1) as nat);
    }
}

impl<'a> Token<'a> {
    /// Compares a received mnemonic with a canonical one, such as `trig` with
    /// `TRIGger`.
    pub fn mnemonic_compare(mnemonic: &[u8], s: &[u8]) -> (r: bool)
        ensures
            r == mnemonic_matches(mnemonic@, s@),
    {
        if mnemonic.len() < s.len() {
            return false;
        }
        let mut optional = true;
        let mut i: usize = 0;
        while i < s.len()
            invariant
                i <= s.len() <= mnemonic.len(),
                forall|j: int| 0 <= j < i ==> same_letter(mnemonic@[j], #[trigger] s@[j]),
                optional == (forall|j: int| 0 <= j < i ==> !is_lower(#[trigger] mnemonic@[j])),
            decreases s.len() - i,
        {
            if !same_letter(mnemonic[i], s[i]) {
                return false;
            }
            if is_lower(mnemonic[i]) {
                optional = false;
            }
            i += 1;
        }
        if s.len() == mnemonic.len() {
            return true;
        }
        if !optional {
            return false;
        }
        while i < mnemonic.len()
            invariant
                s.len() <= i <= mnemonic.len(),
                forall|k: int|
                    s.len() <= k < i ==> !is_upper(#[trigger] mnemonic@[k]) && !is_digit(mnemonic@[k]),
            decreases mnemonic.len() - i,
        {
            if is_upper(mnemonic[i]) || is_digit(mnemonic[i]) {
                return false;
            }
            i += 1;
        }
        true
    }

    /// Splits a mnemonic such as `TRIGger54` into its stem and its numeric
    /// suffix. A mnemonic without digits at its end, or of digits alone, has no
    /// suffix.
    pub fn mnemonic_split_index(mnemonic: &'a [u8]) -> (r: Option<(&'a [u8], &'a [u8])>)
        ensures
            match (r, split_index(mnemonic@)) {
                (Some((stem, index)), Some((s, i))) => stem@ == s && index@ == i,
                (None, None) => true,
                _ => false,
            },
    {
        let len = mnemonic.len();
        let mut k: usize = 0;
        while k < len && is_digit(mnemonic[len - k - 1])
            invariant
                k <= len,
                len == mnemonic@.len(),
                forall|i: int| len - k <= i < len ==> is_digit(#[trigger] mnemonic@[i]),
            decreases len - k,
        {
            k += 1;
        }
        proof {
            lemma_trailing_digits_is(mnemonic@, k as nat);
        }
        if 0 < k && k < len {
            Some((
                vstd::slice::slice_subrange(mnemonic, 0, len - k),
                vstd::slice::slice_subrange(mnemonic, len - k, len),
            ))
        } else {
            None
        }
    }

    /// Whether the token is a mnemonic or character data that names the same
    /// node as the canonical `mnemonic`, the numeric suffix taken into account.
    pub fn eq_mnemonic(&self, mnemonic: &[u8]) -> (r: bool)
        ensures
            r == match self@ {
                TokenView::ProgramMnemonic(s) => mnemonic_equivalent(mnemonic@, s),
                TokenView::CharacterProgramData(s) => mnemonic_equivalent(mnemonic@, s),
                _ => false,
            },
    {
        match self {
            Token::ProgramMnemonic(s) => mnemonic_eq(mnemonic, s),
            Token::CharacterProgramData(s) => mnemonic_eq(mnemonic, s),
            _ => false,
        }
    }
}

/// Whether a byte string is the single digit `1`.
fn is_index_one(index: &[u8]) -> (r: bool)
    ensures
        r == (index@ == index_one()),
{
    let r = index.len() == 1 && index[0] == 0x31;
    proof {
        if r {
            assert(index@ =~= index_one());
        }
    }
    r
}

/// Whether two byte strings are equal.
pub fn bytes_equal(a: &[u8], b: &[u8]) -> (r: bool)
    ensures
        r == (a@ == b@),
{
    if a.len() != b.len() {
        return false;
    }
    let mut i: usize = 0;
    while i < a.len()
        invariant
            i <= a.len(),
            a.len() == b.len(),
            forall|j: int| 0 <= j < i ==> a@[j] == b@[j],
        decreases a.len() - i,
    {
        if a[i] != b[i] {
            return false;
        }
        i += 1;
    }
    proof {
        assert(a@ =~= b@);
    }
    true
}

/// Compares a received mnemonic with a canonical one, taking the numeric
/// suffix into account: `TRIGger` and `trig1` name the same node, `TRIGger2`
/// and `trig` do not.
pub fn mnemonic_eq(mnemonic: &[u8], s: &[u8]) -> (r: bool)
    ensures
        r == mnemonic_equivalent(mnemonic@, s@),
{
    if Token::mnemonic_compare(mnemonic, s) {
        return true;
    }
    match (Token::mnemonic_split_index(mnemonic), Token::mnemonic_split_index(s)) {
        (None, None) => false,
        (Some((m, index)), None) => Token::mnemonic_compare(m, s) && is_index_one(index),
        (None, Some((x, index))) => Token::mnemonic_compare(mnemonic, x) && is_index_one(index),
        (Some((m, index1)), Some((x, index2))) => Token::mnemonic_compare(m, x) && bytes_equal(
            index1,
            index2,
        ),
    }
}

/// A spelling that is accepted stays accepted when the case of its letters
/// is changed.
pub proof fn lemma_match_ignores_case(canonical: Seq<u8>, s: Seq<u8>, t: Seq<u8>)
    requires
        mnemonic_matches(canonical, s),
        t.len() == s.len(),
        forall|i: int| 0 <= i < s.len() ==> same_letter(s[i], t[i]),
    ensures
        mnemonic_matches(canonical, t),
{
    assert forall|i: int| 0 <= i < t.len() implies same_letter(canonical[i], #[trigger] t[i]) by {
        assert(same_letter(canonical[i], s[i]));
        assert(same_letter(s[i], t[i]));
    }
}

proof fn lemma_short_form_len(canonical: Seq<u8>)
    ensures
        short_form_len(canonical) <= canonical.len(),
        forall|j: int| 0 <= j < short_form_len(canonical) ==> !is_lower(#[trigger] canonical[j]),
        short_form_len(canonical) < canonical.len() ==> is_lower(
            canonical[short_form_len(canonical) as int],
        ),
    decreases canonical.len(),
{
    if canonical.len() == 0 || is_lower(canonical[0]) {
    } else {
        let rest = canonical.drop_first();
        lemma_short_form_len(rest);
        assert forall|j: int| 0 <= j < short_form_len(canonical) implies !is_lower(
            #[trigger] canonical[j],
        ) by {
            if j > 0 {
                assert(canonical[j] == rest[j - 1]);
            }
        }
        if short_form_len(canonical) < canonical.len() {
            assert(canonical[short_form_len(canonical) as int] == rest[short_form_len(rest) as int]);
        }
    }
}

/// A prefix of an accepted spelling is accepted where it is the whole
/// canonical form, or where it is exactly the short form and the rest of the
/// canonical form may be left out. A prefix that stops inside the long form
/// is not accepted.
pub proof fn lemma_match_prefix(canonical: Seq<u8>, s: Seq<u8>, prefix: Seq<u8>)
    requires
        mnemonic_matches(canonical, s),
        prefix.len() <= s.len(),
        prefix == s.subrange(0, prefix.len() as int),
        prefix.len() >= short_form_len(canonical),
        prefix.len() == canonical.len() || (prefix.len() == short_form_len(canonical)
            && long_tail_is_optional(canonical)),
    ensures
        mnemonic_matches(canonical, prefix),
{
    lemma_short_form_len(canonical);
    assert forall|i: int| 0 <= i < prefix.len() implies same_letter(
        canonical[i],
        #[trigger] prefix[i],
    ) by {
        assert(prefix[i] == s[i]);
    }
}

/// A prefix of an accepted spelling that is at least as long as the short
/// form, but stops inside the long form, is rejected.
pub proof fn lemma_partial_long_form_rejected(canonical: Seq<u8>, prefix: Seq<u8>)
    requires
        short_form_len(canonical) < prefix.len() < canonical.len(),
    ensures
        !mnemonic_matches(canonical, prefix),
{
    lemma_short_form_len(canonical);
}

} // verus!

//! ASCII case folding, the comparison rule of the case-insensitive mode.
//!
//! Folding maps the ASCII uppercase letters to their lowercase forms and
//! leaves every other byte unchanged.  The case-insensitive mode compares
//! two bytes by comparing their folded forms; indices, line boundaries and
//! the skip table are never affected by folding.

use vstd::prelude::*;

verus! {

/// True for the ASCII uppercase letters `A`..=`Z`.
pub open spec fn is_ascii_upper(b: u8) -> bool {
    65 <= b <= 90
}

/// True for the ASCII lowercase letters `a`..=`z`.
pub open spec fn is_ascii_lower(b: u8) -> bool {
    97 <= b <= 122
}

/// True for the ASCII letters of either case.
pub open spec fn is_ascii_letter(b: u8) -> bool {
    is_ascii_upper(b) || is_ascii_lower(b)
}

/// ASCII case folding of one byte: an uppercase letter becomes the
/// corresponding lowercase letter, every other byte is unchanged.
pub open spec fn fold_byte(b: u8) -> u8 {
    if is_ascii_upper(b) {
        (b + 32) as u8
    } else {
        b
    }
}

/// Pointwise ASCII case folding of a byte sequence.
pub open spec fn fold_bytes(s: Seq<u8>) -> Seq<u8> {
    s.map(|_i: int, b: u8| fold_byte(b))
}

/// Byte comparison under a case mode: exact equality when sensitive,
/// equality of the folded bytes when insensitive.
pub open spec fn byte_eq(case_insensitive: bool, a: u8, b: u8) -> bool {
    if case_insensitive {
        fold_byte(a) == fold_byte(b)
    } else {
        a == b
    }
}

/// Case-insensitive comparison accepts a letter in either of its two cases:
/// an uppercase letter compares equal to its lowercase form.
pub proof fn lemma_letter_cases_eq(b: u8)
    requires
        is_ascii_upper(b),
    ensures
        byte_eq(true, b, (b + 32) as u8),
        byte_eq(true, (b + 32) as u8, b),
{
}

/// On bytes that are not ASCII letters the insensitive comparison agrees
/// with the sensitive one: folding moves only uppercase letters, and no
/// byte folds onto a byte that is not a lowercase letter.
pub proof fn lemma_non_letter_eq(a: u8, b: u8)
    requires
        !is_ascii_letter(a) || !is_ascii_letter(b),
    ensures
        byte_eq(true, a, b) == byte_eq(false, a, b),
{
}

/// Comparing two bytes insensitively is the same as comparing their folded
/// forms sensitively.
pub proof fn lemma_byte_eq_fold(a: u8, b: u8)
    ensures
        byte_eq(true, a, b) == byte_eq(false, fold_byte(a), fold_byte(b)),
{
}

/// Folding a byte sequence keeps its length and folds each byte.
pub proof fn lemma_fold_bytes_index(s: Seq<u8>)
    ensures
        fold_bytes(s).len() == s.len(),
        forall|i: int| 0 <= i < s.len() ==> #[trigger] fold_bytes(s)[i] == fold_byte(s[i]),
{
}

/// Executable ASCII case folding of one byte.
pub fn fold_byte_exec(b: u8) -> (r: u8)
    ensures
        r == fold_byte(b),
{
    if 65 <= b && b <= 90 {
        b + 32
    } else {
        b
    }
}

/// Executable byte comparison under a case mode.
pub fn byte_eq_exec(case_insensitive: bool, a: u8, b: u8) -> (r: bool)
    ensures
        r == byte_eq(case_insensitive, a, b),
{
    if case_insensitive {
        fold_byte_exec(a) == fold_byte_exec(b)
    } else {
        a == b
    }
}

} // verus!

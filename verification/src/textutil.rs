//! Bridging byte-level results back to strings.
//!
//! The matcher works on the UTF-8 bytes of a string and reports line spans
//! as byte indices.  Both ends of a line span sit next to a newline byte or
//! at an end of the text, so they fall on character boundaries; the lemmas
//! here establish that, which lets a line be cut back out of the string it
//! came from.

use vstd::prelude::*;
use vstd::string::StringSliceAdditionalSpecFns;
use vstd::utf8::*;

verus! {

/// The first byte of a non-empty valid UTF-8 sequence is a leading byte,
/// never a continuation byte.
pub proof fn lemma_valid_utf8_first_not_continuation(s: Seq<u8>)
    requires
        valid_utf8(s),
        s.len() > 0,
    ensures
        !is_continuation_byte(s[0]),
{
    assert(valid_first_scalar(s));
}

/// The position just after an ASCII byte of a valid UTF-8 sequence is a
/// character boundary: the byte is a whole one-byte scalar, and what
/// follows it starts a new scalar.
pub proof fn lemma_boundary_after_ascii(s: Seq<u8>, p: int)
    requires
        valid_utf8(s),
        0 <= p < s.len(),
        s[p] < 0x80,
    ensures
        is_char_boundary(s, p + 1),
{
    is_char_boundary_iff_not_is_continuation_byte(s, p);
    assert(is_char_boundary(s, p));
    valid_utf8_split(s, p);
    let suffix = s.subrange(p, s.len() as int);
    assert(valid_utf8(suffix));
    assert(suffix[0] == s[p]);
    assert(length_of_first_scalar(suffix) == 1);
    if p + 1 == s.len() {
        is_char_boundary_start_end_of_seq(s);
    } else {
        let rest = pop_first_scalar(suffix);
        assert(valid_utf8(rest));
        assert(rest.len() > 0);
        assert(rest[0] == s[p + 1]);
        lemma_valid_utf8_first_not_continuation(rest);
        is_char_boundary_iff_not_is_continuation_byte(s, p + 1);
        assert(is_char_boundary(s, p + 1));
    }
}

/// A character boundary of a text is also a character boundary of a prefix
/// of the text that is itself cut at a character boundary.
pub proof fn lemma_boundary_in_prefix(s: Seq<u8>, cut: int, p: int)
    requires
        valid_utf8(s),
        is_char_boundary(s, cut),
        is_char_boundary(s, p),
        0 <= p <= cut <= s.len(),
    ensures
        is_char_boundary(s.subrange(0, cut), p),
{
    valid_utf8_split(s, cut);
    let prefix = s.subrange(0, cut);
    assert(valid_utf8(prefix));
    if p == cut {
        is_char_boundary_start_end_of_seq(prefix);
        assert(is_char_boundary(prefix, prefix.len() as int));
    } else {
        is_char_boundary_iff_not_is_continuation_byte(s, p);
        assert(!is_continuation_byte(s[p]));
        assert(prefix[p] == s[p]);
        is_char_boundary_iff_not_is_continuation_byte(prefix, p);
        assert(is_char_boundary(prefix, p));
    }
}

/// Compares two byte slices for equality.
pub fn bytes_equal(a: &[u8], b: &[u8]) -> (r: bool)
    ensures
        r == (a@ == b@),
{
    if a.len() != b.len() {
        proof {
            assert(a@ != b@);
        }
        return false;
    }
    let mut k: usize = 0;
    while k < a.len()
        invariant
            a@.len() == b@.len(),
            k <= a@.len(),
            forall|j: int| 0 <= j < k ==> a@[j] == b@[j],
        decreases a@.len() - k,
    {
        if a[k] != b[k] {
            proof {
                assert(a@ != b@);
            }
            return false;
        }
        k = k + 1;
    }
    proof {
        assert(a@ =~= b@);
    }
    true
}

/// Compares two strings for equality, by their UTF-8 bytes; equal bytes
/// decode to equal characters.
pub fn str_eq(a: &str, b: &str) -> (r: bool)
    ensures
        r == (a@ == b@),
{
    let r = bytes_equal(a.as_bytes(), b.as_bytes());
    proof {
        if r {
            encode_utf8_decode_utf8(a@);
            encode_utf8_decode_utf8(b@);
        }
    }
    r
}

/// Copies the line span `[start, end)` of `contents` out as an owned
/// string, the span's ends being character boundaries.
pub fn extract_line(contents: &str, start: usize, end: usize) -> (r: String)
    requires
        start <= end <= contents.spec_bytes().len(),
        is_char_boundary(contents.spec_bytes(), start as int),
        is_char_boundary(contents.spec_bytes(), end as int),
    ensures
        encode_utf8(r@) == contents.spec_bytes().subrange(start as int, end as int),
{
    proof {
        broadcast use vstd::utf8::group_utf8_lib;

        assert(valid_utf8(contents.spec_bytes()));
        lemma_boundary_in_prefix(contents.spec_bytes(), end as int, start as int);
    }
    let (before, _) = contents.split_at(end);
    let (_, line) = before.split_at(start);
    proof {
        assert(line.spec_bytes() =~= contents.spec_bytes().subrange(start as int, end as int));
    }
    line.to_owned()
}

} // verus!

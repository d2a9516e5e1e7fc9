//! String-facing search: the public functions of the tool.
//!
//! [`search_with_mode`] runs the Horspool scan over the UTF-8 bytes of the
//! given strings and returns, for each occurrence found, the 0-based line
//! number and the full line containing it, copied out of the text
//! unchanged.  Case folding happens only while comparing bytes: offsets,
//! line boundaries and the returned line text always belong to the
//! original text.  [`search`] is the case-sensitive scan; it reports every
//! occurrence.  [`search_case_insensitive`] is the same scan with folded
//! comparison.

use crate::lines::{
    lemma_line_end_props, lemma_line_start_props, line_end_of, line_number_of, line_start_of,
    NEWLINE,
};
use crate::matcher::{
    hits_of, is_line_match_for, lemma_hits_exact, lemma_hits_sound, lemma_no_match_no_hits,
    match_at, search_bytes,
};
use crate::textutil::{extract_line, lemma_boundary_after_ascii};
use vstd::prelude::*;
use vstd::string::StringSliceAdditionalSpecFns;
use vstd::utf8::{
    encode_utf8, is_char_boundary, is_char_boundary_iff_not_is_continuation_byte,
    is_char_boundary_start_end_of_seq, encode_utf8_valid_utf8, encode_utf8_decode_utf8,
    valid_utf8,
};

verus! {

/// Full contract of the string-level search, over the UTF-8 bytes `q` and
/// `t` of the query and the text: one entry per offset of the scan's
/// trajectory, in discovery order, carrying the offset's 0-based line
/// number and a string whose bytes are exactly the offset's line span of
/// `t`.
pub open spec fn results_match(q: Seq<u8>, t: Seq<u8>, ci: bool, r: Seq<(usize, String)>) -> bool {
    let hits = hits_of(q, t, ci);
    &&& r.len() == hits.len()
    &&& forall|k: int|
        0 <= k < hits.len() ==> {
            &&& (#[trigger] r[k]).0 as int == line_number_of(t, hits[k])
            &&& encode_utf8(r[k].1@) == t.subrange(
                line_start_of(t, hits[k]),
                line_end_of(t, hits[k]),
            )
        }
}

/// A line span of a valid text sits between character boundaries: each end
/// is next to a newline byte or at an end of the text.
proof fn lemma_line_span_boundaries(t: Seq<u8>, off: int)
    requires
        valid_utf8(t),
        0 <= off <= t.len(),
    ensures
        is_char_boundary(t, line_start_of(t, off)),
        is_char_boundary(t, line_end_of(t, off)),
{
    lemma_line_start_props(t, off);
    lemma_line_end_props(t, off);
    let start = line_start_of(t, off);
    let end = line_end_of(t, off);
    if start == 0 {
        is_char_boundary_start_end_of_seq(t);
    } else {
        assert(t[start - 1] == NEWLINE);
        lemma_boundary_after_ascii(t, start - 1);
    }
    if end == t.len() {
        is_char_boundary_start_end_of_seq(t);
    } else {
        assert(t[end] == NEWLINE);
        is_char_boundary_iff_not_is_continuation_byte(t, end);
    }
}

/// Scans `contents` for `query` under the given case mode: compares bytes
/// folded when insensitive, but builds the skip table from and reports
/// lines out of the unchanged text.
pub fn search_with_mode(query: &str, contents: &str, case_insensitive: bool) -> (r: Vec<
    (usize, String),
>)
    requires
        query.spec_bytes().len() >= 1,
    ensures
        results_match(query.spec_bytes(), contents.spec_bytes(), case_insensitive, r@),
{
    let qb: &[u8] = query.as_bytes();
    let tb: &[u8] = contents.as_bytes();
    let found = search_bytes(qb, tb, case_insensitive);
    let ghost t = contents.spec_bytes();
    let ghost hits = hits_of(query.spec_bytes(), t, case_insensitive);
    proof {
        lemma_hits_sound(query.spec_bytes(), t, case_insensitive, 0);
    }
    let mut out: Vec<(usize, String)> = Vec::new();
    let mut k: usize = 0;
    while k < found.len()
        invariant
            t == contents.spec_bytes(),
            hits == hits_of(query.spec_bytes(), t, case_insensitive),
            found@.len() == hits.len(),
            forall|k2: int|
                0 <= k2 < hits.len() ==> is_line_match_for(t, hits[k2], #[trigger] found@[k2]),
            forall|k2: int| 0 <= k2 < hits.len() ==> match_at(
                query.spec_bytes(),
                t,
                case_insensitive,
                #[trigger] hits[k2],
            ),
            k <= found@.len(),
            out@.len() == k,
            forall|k2: int|
                0 <= k2 < k ==> {
                    &&& (#[trigger] out@[k2]).0 as int == line_number_of(t, hits[k2])
                    &&& encode_utf8(out@[k2].1@) == t.subrange(
                        line_start_of(t, hits[k2]),
                        line_end_of(t, hits[k2]),
                    )
                },
        decreases found@.len() - k,
    {
        let lm = found[k];
        proof {
            encode_utf8_valid_utf8(contents@);
            assert(match_at(query.spec_bytes(), t, case_insensitive, hits[k as int]));
            lemma_line_start_props(t, hits[k as int]);
            lemma_line_end_props(t, hits[k as int]);
            lemma_line_span_boundaries(t, hits[k as int]);
        }
        let line = extract_line(contents, lm.line_start, lm.line_end);
        out.push((lm.line_number, line));
        k = k + 1;
    }
    out
}

/// Case-sensitive search: reports, in text order, the 0-based line number
/// and full line of every occurrence of `query` in `contents` — the scan
/// provably finds them all.
pub fn search(query: &str, contents: &str) -> (r: Vec<(usize, String)>)
    requires
        query.spec_bytes().len() >= 1,
    ensures
        results_match(query.spec_bytes(), contents.spec_bytes(), false, r@),
{
    search_with_mode(query, contents, false)
}

/// Case-insensitive search: the scan of [`search_with_mode`] with folded
/// comparison.  Case folding happens only while comparing bytes — the skip
/// table, the offsets and the line boundaries are those of the unchanged
/// text, and every reported line is the original line verbatim.  Because
/// the skip table is built from the unfolded query bytes, an occurrence
/// visible only under folding may be stepped over; every reported offset
/// is a real occurrence up to ASCII letter case.
pub fn search_case_insensitive(query: &str, contents: &str) -> (r: Vec<(usize, String)>)
    requires
        query.spec_bytes().len() >= 1,
    ensures
        results_match(query.spec_bytes(), contents.spec_bytes(), true, r@),
{
    search_with_mode(query, contents, true)
}

/// Law: the search's outcome is a function of query, text and case mode
/// alone — two results for the same inputs agree entry for entry, in line
/// number and in line text.
pub proof fn lemma_search_deterministic(
    q: Seq<u8>,
    t: Seq<u8>,
    ci: bool,
    r1: Seq<(usize, String)>,
    r2: Seq<(usize, String)>,
)
    requires
        results_match(q, t, ci, r1),
        results_match(q, t, ci, r2),
    ensures
        r1.len() == r2.len(),
        forall|k: int|
            0 <= k < r1.len() ==> #[trigger] r1[k].0 == r2[k].0 && r1[k].1@ == r2[k].1@,
{
    assert forall|k: int|
        0 <= k < r1.len() implies #[trigger] r1[k].0 == r2[k].0 && r1[k].1@ == r2[k].1@ by {
        assert(encode_utf8(r1[k].1@) == encode_utf8(r2[k].1@));
        encode_utf8_decode_utf8(r1[k].1@);
        encode_utf8_decode_utf8(r2[k].1@);
    }
}

/// Law: the case-sensitive search reports every occurrence of the query:
/// an offset is in the scan's trajectory exactly when the query matches
/// there, and the result has one entry per occurrence, in text order.
pub proof fn lemma_search_finds_every_occurrence(q: Seq<u8>, t: Seq<u8>, r: Seq<(usize, String)>)
    requires
        q.len() >= 1,
        results_match(q, t, false, r),
    ensures
        forall|p: int| #[trigger] match_at(q, t, false, p) <==> hits_of(q, t, false).contains(p),
        r.len() == hits_of(q, t, false).len(),
{
    lemma_hits_exact(q, t);
}

/// Law: every reported entry stands for a real occurrence under the case
/// mode — the k-th entry carries the line of the k-th trajectory offset,
/// and the query matches there.  Under the insensitive mode this is all
/// that is owed: the case-exact skip table may step over an occurrence
/// visible only under folding.
pub proof fn lemma_results_offsets_match(q: Seq<u8>, t: Seq<u8>, ci: bool, r: Seq<(usize, String)>)
    requires
        results_match(q, t, ci, r),
    ensures
        forall|k: int| 0 <= k < r.len() ==> match_at(q, t, ci, #[trigger] hits_of(q, t, ci)[k]),
{
    lemma_hits_sound(q, t, ci, 0);
}

/// Law: when the query occurs nowhere in the text under the case mode, the
/// search returns the empty list.
pub proof fn lemma_no_occurrence_empty(
    q: Seq<u8>,
    t: Seq<u8>,
    ci: bool,
    r: Seq<(usize, String)>,
)
    requires
        results_match(q, t, ci, r),
        forall|p: int| !match_at(q, t, ci, p),
    ensures
        r.len() == 0,
{
    lemma_no_match_no_hits(q, t, ci, 0);
}

} // verus!

//! The Boyer-Moore-Horspool matcher.
//!
//! The scan keeps a cursor `i` and compares the query against
//! `text[i .. i + m)` from the last byte backward.  Whether or not the
//! window matches, the cursor then advances by the skip distance of the
//! byte under the window's last position.  [`hits_from`] is the exact
//! mathematical trajectory of that scan; [`search_bytes`] implements it and
//! reports, for every offset it discovers, the line containing it.
//!
//! With sensitive comparison the advance rule can be proved never to jump
//! over an occurrence, so the scan reports every match, overlapping ones
//! included ([`lemma_hits_exact`]).  With insensitive comparison the skip
//! table is still built from the unfolded query bytes, and an occurrence
//! that exists only under folding can be stepped over; every reported
//! offset is still a real folded match ([`lemma_hits_sound`]).

use crate::casefold::{byte_eq, byte_eq_exec, fold_bytes, lemma_fold_bytes_index};
use crate::lines::{
    line_end_of, line_for_offset, line_number_of, line_start_of, lemma_line_number_monotone,
};
use crate::skip::{build_skip_table, lemma_skip_of_bounds, lemma_skip_of_le, skip_of};
use vstd::prelude::*;

verus! {

/// True when the query matches the text at offset `i` under the given case
/// mode.
pub open spec fn match_at(q: Seq<u8>, t: Seq<u8>, ci: bool, i: int) -> bool {
    &&& 0 <= i
    &&& i + q.len() <= t.len()
    &&& forall|j: int| 0 <= j < q.len() ==> byte_eq(ci, q[j], t[i + j])
}

/// The offsets the scan reports, in discovery order, when its cursor
/// starts at `i`.
pub open spec fn hits_from(q: Seq<u8>, t: Seq<u8>, ci: bool, i: int) -> Seq<int>
    decreases t.len() - i,
        via hits_from_decreases
{
    if q.len() == 0 || i < 0 || i + q.len() > t.len() {
        Seq::empty()
    } else {
        let rest = hits_from(q, t, ci, i + skip_of(q, t[i + q.len() - 1]));
        if match_at(q, t, ci, i) {
            seq![i] + rest
        } else {
            rest
        }
    }
}

#[via_fn]
proof fn hits_from_decreases(q: Seq<u8>, t: Seq<u8>, ci: bool, i: int) {
    if !(q.len() == 0 || i < 0 || i + q.len() > t.len()) {
        lemma_skip_of_bounds(q, t[i + q.len() - 1]);
    }
}

/// The offsets of the full scan, cursor starting at 0.
pub open spec fn hits_of(q: Seq<u8>, t: Seq<u8>, ci: bool) -> Seq<int> {
    hits_from(q, t, ci, 0)
}

/// No reported offset lies before the cursor the scan started from.
proof fn lemma_hits_lower(q: Seq<u8>, t: Seq<u8>, ci: bool, i: int)
    ensures
        forall|k: int|
            0 <= k < hits_from(q, t, ci, i).len() ==> #[trigger] hits_from(q, t, ci, i)[k] >= i,
    decreases t.len() - i,
{
    if !(q.len() == 0 || i < 0 || i + q.len() > t.len()) {
        lemma_skip_of_bounds(q, t[i + q.len() - 1]);
        let next = i + skip_of(q, t[i + q.len() - 1]);
        lemma_hits_lower(q, t, ci, next);
        let whole = hits_from(q, t, ci, i);
        let rest = hits_from(q, t, ci, next);
        assert forall|k: int| 0 <= k < whole.len() implies whole[k] >= i by {
            if match_at(q, t, ci, i) {
                assert(whole == seq![i] + rest);
                if k > 0 {
                    assert(whole[k] == rest[k - 1]);
                }
            } else {
                assert(whole[k] == rest[k]);
            }
        }
    }
}

/// Law: every offset the scan reports is a real match under its case mode.
pub proof fn lemma_hits_sound(q: Seq<u8>, t: Seq<u8>, ci: bool, i: int)
    ensures
        forall|k: int|
            0 <= k < hits_from(q, t, ci, i).len() ==> match_at(
                q,
                t,
                ci,
                #[trigger] hits_from(q, t, ci, i)[k],
            ),
    decreases t.len() - i,
{
    if !(q.len() == 0 || i < 0 || i + q.len() > t.len()) {
        lemma_skip_of_bounds(q, t[i + q.len() - 1]);
        let next = i + skip_of(q, t[i + q.len() - 1]);
        lemma_hits_sound(q, t, ci, next);
        let whole = hits_from(q, t, ci, i);
        let rest = hits_from(q, t, ci, next);
        assert forall|k: int| 0 <= k < whole.len() implies match_at(q, t, ci, whole[k]) by {
            if match_at(q, t, ci, i) {
                assert(whole == seq![i] + rest);
                if k > 0 {
                    assert(whole[k] == rest[k - 1]);
                }
            } else {
                assert(whole[k] == rest[k]);
            }
        }
    }
}

/// Law: the scan reports offsets in strictly increasing order.
pub proof fn lemma_hits_increasing(q: Seq<u8>, t: Seq<u8>, ci: bool, i: int)
    ensures
        forall|k1: int, k2: int|
            0 <= k1 < k2 < hits_from(q, t, ci, i).len() ==> #[trigger] hits_from(q, t, ci, i)[k1]
                < #[trigger] hits_from(q, t, ci, i)[k2],
    decreases t.len() - i,
{
    if !(q.len() == 0 || i < 0 || i + q.len() > t.len()) {
        lemma_skip_of_bounds(q, t[i + q.len() - 1]);
        let next = i + skip_of(q, t[i + q.len() - 1]);
        lemma_hits_increasing(q, t, ci, next);
        lemma_hits_lower(q, t, ci, next);
        let whole = hits_from(q, t, ci, i);
        let rest = hits_from(q, t, ci, next);
        assert forall|k1: int, k2: int|
            0 <= k1 < k2 < whole.len() implies whole[k1] < whole[k2] by {
            if match_at(q, t, ci, i) {
                assert(whole == seq![i] + rest);
                assert(whole[k2] == rest[k2 - 1]);
                assert(rest[k2 - 1] >= next);
                if k1 > 0 {
                    assert(whole[k1] == rest[k1 - 1]);
                }
            } else {
                assert(whole[k1] == rest[k1]);
                assert(whole[k2] == rest[k2]);
            }
        }
    }
}

/// With sensitive comparison an advance never jumps past a match: the byte
/// under the window's last position occurs inside any occurrence that
/// starts within the skip distance, and the table reflects its rightmost
/// position in the query.
proof fn lemma_skip_safe(q: Seq<u8>, t: Seq<u8>, i: int, p: int)
    requires
        q.len() >= 1,
        0 <= i,
        i + q.len() <= t.len(),
        match_at(q, t, false, p),
        i < p,
    ensures
        p >= i + skip_of(q, t[i + q.len() - 1]),
{
    let m = q.len() as int;
    let c = t[i + m - 1];
    let s = skip_of(q, c);
    lemma_skip_of_bounds(q, c);
    if p < i + s {
        let d = p - i;
        let idx = m - 1 - d;
        assert(byte_eq(false, q[idx], t[p + idx]));
        assert(p + idx == i + m - 1);
        lemma_skip_of_le(q, c, idx);
        assert(false);
    }
}

/// Law: with sensitive comparison the scan reports every offset at or
/// after its cursor where the query matches.
pub proof fn lemma_hits_complete(q: Seq<u8>, t: Seq<u8>, i: int)
    requires
        q.len() >= 1,
        0 <= i,
    ensures
        forall|p: int|
            i <= p && match_at(q, t, false, p) ==> hits_from(q, t, false, i).contains(p),
    decreases t.len() - i,
{
    if i + q.len() > t.len() {
        // any match needs p + q.len() <= t.len(), so no match lies at or after i
    } else {
        let m = q.len() as int;
        let s = skip_of(q, t[i + m - 1]);
        lemma_skip_of_bounds(q, t[i + m - 1]);
        lemma_hits_complete(q, t, i + s);
        let rest = hits_from(q, t, false, i + s);
        assert forall|p: int|
            i <= p && match_at(q, t, false, p) implies hits_from(q, t, false, i).contains(p) by {
            if p == i {
                let whole = hits_from(q, t, false, i);
                assert(whole == seq![i] + rest);
                assert(whole[0] == i);
            } else {
                lemma_skip_safe(q, t, i, p);
                assert(rest.contains(p));
                let k = choose|k: int| 0 <= k < rest.len() && rest[k] == p;
                if match_at(q, t, false, i) {
                    assert(hits_from(q, t, false, i)[k + 1] == p);
                } else {
                    assert(hits_from(q, t, false, i)[k] == p);
                }
            }
        }
    }
}

/// Law: with sensitive comparison, an offset is reported exactly when the
/// query matches there — the advance rule skips no occurrence, overlapping
/// ones included.
pub proof fn lemma_hits_exact(q: Seq<u8>, t: Seq<u8>)
    requires
        q.len() >= 1,
    ensures
        forall|p: int| #[trigger] match_at(q, t, false, p) <==> hits_of(q, t, false).contains(p),
{
    lemma_hits_sound(q, t, false, 0);
    lemma_hits_complete(q, t, 0);
    assert forall|p: int| hits_of(q, t, false).contains(p) implies match_at(q, t, false, p) by {
        let k = choose|k: int|
            0 <= k < hits_of(q, t, false).len() && hits_of(q, t, false)[k] == p;
        assert(match_at(q, t, false, hits_from(q, t, false, 0)[k]));
    }
}

/// Law: when the query occurs nowhere in the text, the scan reports
/// nothing, whatever the case mode.
pub proof fn lemma_no_match_no_hits(q: Seq<u8>, t: Seq<u8>, ci: bool, i: int)
    requires
        forall|p: int| !match_at(q, t, ci, p),
    ensures
        hits_from(q, t, ci, i).len() == 0,
    decreases t.len() - i,
{
    if !(q.len() == 0 || i < 0 || i + q.len() > t.len()) {
        lemma_skip_of_bounds(q, t[i + q.len() - 1]);
        lemma_no_match_no_hits(q, t, ci, i + skip_of(q, t[i + q.len() - 1]));
    }
}

/// Law: matching insensitively is matching the folded query against the
/// folded text with sensitive comparison.
pub proof fn lemma_match_fold(q: Seq<u8>, t: Seq<u8>, i: int)
    ensures
        match_at(fold_bytes(q), fold_bytes(t), false, i) == match_at(q, t, true, i),
{
    let fq = fold_bytes(q);
    let ft = fold_bytes(t);
    lemma_fold_bytes_index(q);
    lemma_fold_bytes_index(t);
    if match_at(fq, ft, false, i) {
        assert forall|j: int| 0 <= j < q.len() implies byte_eq(true, q[j], t[i + j]) by {
            assert(byte_eq(false, fq[j], ft[i + j]));
        }
    }
    if match_at(q, t, true, i) {
        assert forall|j: int| 0 <= j < fq.len() implies byte_eq(false, fq[j], ft[i + j]) by {
            assert(byte_eq(true, q[j], t[i + j]));
        }
    }
}

/// One reported occurrence: the 0-based number of the line containing it
/// and the byte span of that full line within the text.
#[derive(Clone, Copy, Debug, PartialEq, Eq, Structural)]
pub struct LineMatch {
    /// Count of newline bytes before the occurrence.
    pub line_number: usize,
    /// Byte index at which the containing line starts.
    pub line_start: usize,
    /// Byte index just past the containing line.
    pub line_end: usize,
}

/// What `search_bytes` owes for one reported offset.
pub open spec fn is_line_match_for(t: Seq<u8>, off: int, lm: LineMatch) -> bool {
    &&& lm.line_number as int == line_number_of(t, off)
    &&& lm.line_start as int == line_start_of(t, off)
    &&& lm.line_end as int == line_end_of(t, off)
}

/// Full contract of the byte-level search: one entry per offset of the
/// scan's trajectory, in order, each resolving the line of its offset.
pub open spec fn byte_results_match(q: Seq<u8>, t: Seq<u8>, ci: bool, r: Seq<LineMatch>) -> bool {
    let hits = hits_of(q, t, ci);
    &&& r.len() == hits.len()
    &&& forall|k: int| 0 <= k < hits.len() ==> is_line_match_for(t, hits[k], #[trigger] r[k])
}

/// Law: within one result, line numbers never decrease, because offsets
/// are discovered left to right.
pub proof fn lemma_results_line_numbers_monotone(
    q: Seq<u8>,
    t: Seq<u8>,
    ci: bool,
    r: Seq<LineMatch>,
)
    requires
        byte_results_match(q, t, ci, r),
    ensures
        forall|k1: int, k2: int|
            0 <= k1 < k2 < r.len() ==> #[trigger] r[k1].line_number <= #[trigger] r[k2].line_number,
{
    let hits = hits_of(q, t, ci);
    lemma_hits_increasing(q, t, ci, 0);
    lemma_hits_sound(q, t, ci, 0);
    lemma_hits_lower(q, t, ci, 0);
    assert forall|k1: int, k2: int|
        0 <= k1 < k2 < r.len() implies #[trigger] r[k1].line_number
        <= #[trigger] r[k2].line_number by {
        assert(match_at(q, t, ci, hits[k1]));
        assert(match_at(q, t, ci, hits[k2]));
        lemma_line_number_monotone(t, hits[k1], hits[k2]);
    }
}

/// Scans `text` for a non-empty `query` and reports, in left-to-right
/// discovery order, the line containing each occurrence the scan finds.
/// A query longer than the text yields an empty result.
pub fn search_bytes(query: &[u8], text: &[u8], case_insensitive: bool) -> (r: Vec<LineMatch>)
    requires
        query@.len() >= 1,
    ensures
        byte_results_match(query@, text@, case_insensitive, r@),
{
    let m = query.len();
    let n = text.len();
    let mut out: Vec<LineMatch> = Vec::new();
    if n < m {
        return out;
    }
    let table = build_skip_table(query);
    let mut i: usize = 0;
    let ghost mut found: Seq<int> = Seq::empty();
    proof {
        assert(hits_of(query@, text@, case_insensitive) =~= found + hits_from(
            query@,
            text@,
            case_insensitive,
            0,
        ));
    }
    while i <= n - m
        invariant
            query@.len() == m,
            text@.len() == n,
            1 <= m <= n,
            table@.len() == 256,
            forall|b: int| 0 <= b < 256 ==> #[trigger] table@[b] as int == skip_of(query@, b as u8),
            i <= n,
            hits_of(query@, text@, case_insensitive) == found + hits_from(
                query@,
                text@,
                case_insensitive,
                i as int,
            ),
            out@.len() == found.len(),
            forall|k: int|
                0 <= k < found.len() ==> is_line_match_for(text@, found[k], #[trigger] out@[k]),
        decreases n - i,
    {
        let mut j: usize = m;
        while j > 0 && byte_eq_exec(case_insensitive, query[j - 1], text[i + j - 1])
            invariant
                query@.len() == m,
                text@.len() == n,
                1 <= m,
                i + m <= n,
                j <= m,
                forall|jj: int|
                    j <= jj < m ==> byte_eq(case_insensitive, query@[jj], text@[i + jj]),
            decreases j,
        {
            j = j - 1;
        }
        let ghost head: Seq<int> = if match_at(query@, text@, case_insensitive, i as int) {
            seq![i as int]
        } else {
            Seq::empty()
        };
        if j == 0 {
            proof {
                assert(match_at(query@, text@, case_insensitive, i as int));
            }
            let (num, st, en) = line_for_offset(text, i);
            out.push(
                LineMatch { line_number: num, line_start: st, line_end: en },
            );
        } else {
            proof {
                assert(!byte_eq(case_insensitive, query@[j - 1], text@[i + j - 1]));
                assert(!match_at(query@, text@, case_insensitive, i as int));
            }
        }
        let c = text[i + m - 1];
        let s = table[c as usize];
        proof {
            lemma_skip_of_bounds(query@, c);
            let rest = hits_from(query@, text@, case_insensitive, i + s);
            assert(hits_from(query@, text@, case_insensitive, i as int) =~= head + rest);
            assert((found + head) + rest =~= found + (head + rest));
            found = found + head;
        }
        i = i + s;
    }
    proof {
        assert(hits_from(query@, text@, case_insensitive, i as int) =~= Seq::empty());
        assert(found + Seq::<int>::empty() =~= found);
    }
    out
}

} // verus!

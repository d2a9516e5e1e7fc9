//! The line extractor: resolving the line that contains a byte offset.
//!
//! A line is delimited by the nearest newline byte before the offset (or
//! the start of the text) and the nearest newline byte at or after the
//! offset (or the end of the text); the newline bytes themselves belong to
//! no line.  The line number is the count of newline bytes strictly before
//! the offset, so the first line has number 0.

use vstd::prelude::*;

verus! {

/// The newline byte, `\n`.
pub const NEWLINE: u8 = 10;

/// Number of newline bytes strictly before `off` in `t`: the 0-based line
/// number of the line containing `off`.
pub open spec fn line_number_of(t: Seq<u8>, off: int) -> int
    recommends
        0 <= off <= t.len(),
    decreases off,
{
    if off <= 0 {
        0
    } else if t[off - 1] == NEWLINE {
        line_number_of(t, off - 1) + 1
    } else {
        line_number_of(t, off - 1)
    }
}

/// Start of the line containing `off`: the index just after the nearest
/// newline byte strictly before `off`, or 0 when there is none.
pub open spec fn line_start_of(t: Seq<u8>, off: int) -> int
    recommends
        0 <= off <= t.len(),
    decreases off,
{
    if off <= 0 {
        0
    } else if t[off - 1] == NEWLINE {
        off
    } else {
        line_start_of(t, off - 1)
    }
}

/// End of the line containing `off`: the index of the nearest newline byte
/// at or after `off`, or the length of the text when there is none.
pub open spec fn line_end_of(t: Seq<u8>, off: int) -> int
    recommends
        0 <= off <= t.len(),
    decreases t.len() - off,
{
    if off >= t.len() {
        t.len() as int
    } else if t[off] == NEWLINE {
        off
    } else {
        line_end_of(t, off + 1)
    }
}

/// The line start lies at or before the offset, sits just after a newline
/// byte or at the start of the text, and no newline byte stands between it
/// and the offset.
pub proof fn lemma_line_start_props(t: Seq<u8>, off: int)
    requires
        0 <= off <= t.len(),
    ensures
        0 <= line_start_of(t, off) <= off,
        line_start_of(t, off) == 0 || t[line_start_of(t, off) - 1] == NEWLINE,
        forall|k: int| line_start_of(t, off) <= k < off ==> t[k] != NEWLINE,
    decreases off,
{
    if off > 0 && t[off - 1] != NEWLINE {
        lemma_line_start_props(t, off - 1);
    }
}

/// The line end lies at or after the offset, sits on a newline byte or at
/// the end of the text, and no newline byte stands between the offset and
/// it.
pub proof fn lemma_line_end_props(t: Seq<u8>, off: int)
    requires
        0 <= off <= t.len(),
    ensures
        off <= line_end_of(t, off) <= t.len(),
        line_end_of(t, off) == t.len() || t[line_end_of(t, off)] == NEWLINE,
        forall|k: int| off <= k < line_end_of(t, off) ==> t[k] != NEWLINE,
    decreases t.len() - off,
{
    if off < t.len() && t[off] != NEWLINE {
        lemma_line_end_props(t, off + 1);
    }
}

/// A line span never contains a newline byte.
pub proof fn lemma_line_span_no_newline(t: Seq<u8>, off: int)
    requires
        0 <= off <= t.len(),
    ensures
        forall|k: int| line_start_of(t, off) <= k < line_end_of(t, off) ==> t[k] != NEWLINE,
{
    lemma_line_start_props(t, off);
    lemma_line_end_props(t, off);
}

/// Line numbers never decrease as the offset grows.
pub proof fn lemma_line_number_monotone(t: Seq<u8>, a: int, b: int)
    requires
        0 <= a <= b <= t.len(),
    ensures
        line_number_of(t, a) <= line_number_of(t, b),
    decreases b,
{
    if a < b {
        lemma_line_number_monotone(t, a, b - 1);
    }
}

/// Resolves the line containing byte `offset` of `text`: returns the
/// 0-based line number and the byte span `[start, end)` of the full line.
/// The span contains the offset (unless the offset sits on a newline byte
/// or at the end of the text) and never contains a newline byte.
pub fn line_for_offset(text: &[u8], offset: usize) -> (r: (usize, usize, usize))
    requires
        offset <= text@.len(),
    ensures
        r.0 as int == line_number_of(text@, offset as int),
        r.1 as int == line_start_of(text@, offset as int),
        r.2 as int == line_end_of(text@, offset as int),
        r.1 <= offset <= r.2 <= text@.len(),
        forall|k: int| r.1 <= k < r.2 ==> text@[k] != NEWLINE,
{
    let mut start: usize = offset;
    while start > 0 && text[start - 1] != NEWLINE
        invariant
            start <= offset <= text@.len(),
            line_start_of(text@, offset as int) == line_start_of(text@, start as int),
        decreases start,
    {
        start = start - 1;
    }
    let mut end: usize = offset;
    while end < text.len() && text[end] != NEWLINE
        invariant
            offset <= end <= text@.len(),
            line_end_of(text@, offset as int) == line_end_of(text@, end as int),
        decreases text@.len() - end,
    {
        end = end + 1;
    }
    let mut count: usize = 0;
    let mut k: usize = 0;
    while k < offset
        invariant
            k <= offset <= text@.len(),
            count <= k,
            count as int == line_number_of(text@, k as int),
        decreases offset - k,
    {
        if text[k] == NEWLINE {
            count = count + 1;
        }
        k = k + 1;
    }
    proof {
        lemma_line_span_no_newline(text@, offset as int);
        lemma_line_start_props(text@, offset as int);
        lemma_line_end_props(text@, offset as int);
    }
    (count, start, end)
}

} // verus!

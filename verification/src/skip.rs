//! The bad-character skip table of the Horspool scan.
//!
//! The table maps every byte value to a skip distance.  For a query of
//! length `m`, the entry of a byte is `m - 1 - i` for the rightmost index
//! `i` at which the byte occurs among the first `m - 1` query bytes, and
//! `m` when it does not occur there.  The last query byte is deliberately
//! left out of the filling pass (the classic Horspool rule), so a byte
//! occurring only there keeps the default skip of `m`.  Every entry is at
//! least 1, which is what makes the scan advance and terminate.

use vstd::prelude::*;

verus! {

/// The table entry of byte `b` after the filling pass has handled the first
/// `k` query bytes: `q.len() - 1 - i` for the rightmost `i < k` with
/// `q[i] == b`, and the default `q.len()` when there is none.
pub open spec fn skip_rec(q: Seq<u8>, k: int, b: u8) -> int
    decreases k,
{
    if k <= 0 {
        q.len() as int
    } else if q[k - 1] == b {
        q.len() - k
    } else {
        skip_rec(q, k - 1, b)
    }
}

/// The skip distance of byte `b` for query `q`: the table entry once the
/// filling pass has handled all but the last query byte.
pub open spec fn skip_of(q: Seq<u8>, b: u8) -> int {
    skip_rec(q, q.len() - 1, b)
}

proof fn lemma_skip_rec_bounds(q: Seq<u8>, k: int, b: u8)
    requires
        0 <= k < q.len(),
    ensures
        q.len() - k <= skip_rec(q, k, b) <= q.len(),
    decreases k,
{
    if k > 0 && q[k - 1] != b {
        lemma_skip_rec_bounds(q, k - 1, b);
    }
}

/// Every skip distance lies between 1 and the query length, so each advance
/// of the scan makes progress and never steps further than one whole query.
pub proof fn lemma_skip_of_bounds(q: Seq<u8>, b: u8)
    requires
        q.len() >= 1,
    ensures
        1 <= skip_of(q, b) <= q.len(),
{
    lemma_skip_rec_bounds(q, q.len() - 1, b);
}

proof fn lemma_skip_rec_le(q: Seq<u8>, k: int, b: u8, i: int)
    requires
        0 <= i < k <= q.len() - 1,
        q[i] == b,
    ensures
        skip_rec(q, k, b) <= q.len() - 1 - i,
    decreases k,
{
    if k - 1 > i && q[k - 1] != b {
        lemma_skip_rec_le(q, k - 1, b, i);
    }
}

/// The skip distance of a byte is no more than the distance from any of its
/// occurrences among the first `q.len() - 1` query bytes to the last query
/// byte: the table reflects the rightmost such occurrence.
pub proof fn lemma_skip_of_le(q: Seq<u8>, b: u8, i: int)
    requires
        0 <= i < q.len() - 1,
        q[i] == b,
    ensures
        skip_of(q, b) <= q.len() - 1 - i,
{
    lemma_skip_rec_le(q, q.len() - 1, b, i);
}

/// Builds the 256-entry skip table of a non-empty query.
pub fn build_skip_table(query: &[u8]) -> (table: Vec<usize>)
    requires
        query@.len() >= 1,
    ensures
        table@.len() == 256,
        forall|b: int| 0 <= b < 256 ==> #[trigger] table@[b] as int == skip_of(query@, b as u8),
{
    let m = query.len();
    let mut table: Vec<usize> = Vec::new();
    let mut t: usize = 0;
    while t < 256
        invariant
            m == query@.len(),
            t <= 256,
            table@.len() == t,
            forall|b: int| 0 <= b < t ==> #[trigger] table@[b] as int == query@.len(),
        decreases 256 - t,
    {
        table.push(m);
        t = t + 1;
    }
    let mut i: usize = 0;
    while i < m - 1
        invariant
            query@.len() == m,
            m >= 1,
            i <= m - 1,
            table@.len() == 256,
            forall|b: int|
                0 <= b < 256 ==> #[trigger] table@[b] as int == skip_rec(query@, i as int, b as u8),
        decreases m - i,
    {
        let c = query[i];
        table[c as usize] = m - 1 - i;
        i = i + 1;
    }
    table
}

} // verus!

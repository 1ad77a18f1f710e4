//! Partitioning of the node index range `[0, n)` into disjoint, contiguous,
//! near-equal chunks, one per worker.

use vstd::prelude::*;

verus! {

use core::ops::Range;
use vstd::arithmetic::div_mod::lemma_fundamental_div_mod;

/// The length of chunk `c` when `[0, n)` is split into `chunks` parts:
/// an even share, plus one of the `n % chunks` leftover indices for the
/// first `n % chunks` chunks.
pub open spec fn chunk_len(n: int, chunks: int, c: int) -> int {
    n / chunks + if c < n % chunks {
        1int
    } else {
        0int
    }
}

/// The first index of chunk `c`: all full shares before it, plus the
/// leftover indices already handed out.
pub open spec fn chunk_start(n: int, chunks: int, c: int) -> int {
    c * (n / chunks) + if c <= n % chunks {
        c
    } else {
        n % chunks
    }
}

/// Each chunk ends where the next begins, chunk starts never decrease, and
/// every chunk lies inside `[0, n)`.
pub proof fn lemma_chunk_bounds(n: int, chunks: int, k: int)
    requires
        0 <= n,
        1 <= chunks,
        0 <= k < chunks,
    ensures
        chunk_start(n, chunks, 0) == 0,
        chunk_start(n, chunks, k) + chunk_len(n, chunks, k) == chunk_start(n, chunks, k + 1),
        chunk_start(n, chunks, k) <= chunk_start(n, chunks, k + 1),
        chunk_start(n, chunks, k + 1) <= n,
        chunk_start(n, chunks, chunks) == n,
{
    let cs = n / chunks;
    let r0 = n % chunks;
    lemma_fundamental_div_mod(n, chunks);
    assert(n == chunks * cs + r0);
    assert(0 <= cs) by (nonlinear_arith)
        requires
            0 <= n,
            1 <= chunks,
            cs == n / chunks,
    ;
    assert((k + 1) * cs == k * cs + cs) by (nonlinear_arith);
    assert(chunks * cs == cs * chunks) by (nonlinear_arith);
    assert((k + 1) * cs <= chunks * cs) by (nonlinear_arith)
        requires
            0 <= cs,
            k + 1 <= chunks,
    ;
    assert(chunks * cs + (if chunks <= r0 {
        chunks
    } else {
        r0
    }) == n);
}

/// Splits `[0, n)` into `chunks` contiguous ranges: every range starts where
/// the previous one ended, the first starts at `0`, the last ends at `n`,
/// and range `c` holds exactly `chunk_len(n, chunks, c)` indices, so no two
/// range lengths differ by more than one.
pub fn gen_chunks(n: usize, chunks: usize) -> (borders: Vec<Range<usize>>)
    requires
        1 <= chunks,
    ensures
        borders@.len() == chunks,
        borders@[0].start == 0,
        borders@[chunks as int - 1].end == n,
        forall|c: int|
            0 <= c < chunks as int - 1 ==> #[trigger] borders@[c].end == borders@[c + 1].start,
        forall|c: int|
            0 <= c < chunks ==> #[trigger] borders@[c].end - borders@[c].start == chunk_len(
                n as int,
                chunks as int,
                c,
            ),
        forall|c: int|
            0 <= c < chunks ==> #[trigger] borders@[c].start <= borders@[c].end && borders@[c].end
                <= n,
{
    let chunk_size = n / chunks;
    let mut remainder = n % chunks;
    let mut start: usize = 0;
    let mut k: usize = 0;
    let mut borders: Vec<Range<usize>> = Vec::new();
    while k < chunks
        invariant
            1 <= chunks,
            k <= chunks,
            chunk_size == n as int / chunks as int,
            borders@.len() == k,
            start as int == chunk_start(n as int, chunks as int, k as int),
            start <= n,
            remainder as int == n as int % chunks as int - (if k as int <= n as int % chunks as int {
                k as int
            } else {
                n as int % chunks as int
            }),
            forall|c: int|
                0 <= c < k ==> #[trigger] borders@[c].start == chunk_start(
                    n as int,
                    chunks as int,
                    c,
                ) && borders@[c].end == chunk_start(n as int, chunks as int, c) + chunk_len(
                    n as int,
                    chunks as int,
                    c,
                ),
        decreases chunks - k,
    {
        proof {
            lemma_chunk_bounds(n as int, chunks as int, k as int);
        }
        let end = start + chunk_size;
        if remainder > 0 {
            remainder -= 1;
            borders.push(start..end + 1);
            start = end + 1;
        } else {
            borders.push(start..end);
            start = end;
        }
        k += 1;
    }
    proof {
        assert forall|c: int| 0 <= c < chunks as int - 1 implies #[trigger] borders@[c].end
            == borders@[c + 1].start by {
            lemma_chunk_bounds(n as int, chunks as int, c);
            assert(borders@[c].start == chunk_start(n as int, chunks as int, c));
            assert(borders@[c + 1].start == chunk_start(n as int, chunks as int, c + 1));
        }
        assert forall|c: int| 0 <= c < chunks implies #[trigger] borders@[c].start
            <= borders@[c].end && borders@[c].end <= n by {
            lemma_chunk_bounds(n as int, chunks as int, c);
            assert(borders@[c].start == chunk_start(n as int, chunks as int, c));
        }
        lemma_chunk_bounds(n as int, chunks as int, chunks as int - 1);
        assert(borders@[chunks as int - 1].start == chunk_start(
            n as int,
            chunks as int,
            chunks as int - 1,
        ));
    }
    borders
}

/// Chunks earlier in the list lie entirely before chunks later in the list.
proof fn lemma_chunks_ordered(borders: Seq<Range<usize>>, c1: int, c2: int)
    requires
        forall|c: int|
            0 <= c < borders.len() - 1 ==> #[trigger] borders[c].end == borders[c + 1].start,
        forall|c: int| 0 <= c < borders.len() ==> #[trigger] borders[c].start <= borders[c].end,
        0 <= c1 < c2 < borders.len(),
    ensures
        borders[c1].end <= borders[c2].start,
    decreases c2 - c1,
{
    if c2 == c1 + 1 {
    } else {
        lemma_chunks_ordered(borders, c1, c2 - 1);
    }
}

/// Index `idx` lies inside chunk `c`.
pub open spec fn in_chunk(borders: Seq<Range<usize>>, c: int, idx: int) -> bool {
    borders[c].start <= idx && idx < borders[c].end
}

/// Some chunk in the list contains the index.
pub open spec fn covered(borders: Seq<Range<usize>>, idx: int) -> bool {
    exists|c: int| 0 <= c < borders.len() && #[trigger] in_chunk(borders, c, idx)
}

/// Helper for the covering half of the partition law, peeling chunks from
/// the back.
proof fn lemma_chunks_cover(borders: Seq<Range<usize>>, n: int, idx: int)
    requires
        borders.len() >= 1,
        borders[0].start == 0,
        borders[borders.len() - 1].end == n,
        forall|c: int|
            0 <= c < borders.len() - 1 ==> #[trigger] borders[c].end == borders[c + 1].start,
        forall|c: int| 0 <= c < borders.len() ==> #[trigger] borders[c].start <= borders[c].end,
        0 <= idx < n,
    ensures
        covered(borders, idx),
    decreases borders.len(),
{
    let last = borders.len() - 1;
    if borders[last].start <= idx {
        assert(in_chunk(borders, last, idx));
    } else {
        let prefix = borders.drop_last();
        lemma_chunks_cover(prefix, borders[last].start as int, idx);
        let c = choose|c: int| 0 <= c < prefix.len() && #[trigger] in_chunk(prefix, c, idx);
        assert(in_chunk(borders, c, idx));
    }
}

/// The partition law: when the returned ranges are contiguous and span
/// `[0, n)` — as `gen_chunks` guarantees — every index below `n` lies in
/// exactly one of them.
pub proof fn lemma_chunks_partition(borders: Seq<Range<usize>>, n: int)
    requires
        borders.len() >= 1,
        borders[0].start == 0,
        borders[borders.len() - 1].end == n,
        forall|c: int|
            0 <= c < borders.len() - 1 ==> #[trigger] borders[c].end == borders[c + 1].start,
        forall|c: int| 0 <= c < borders.len() ==> #[trigger] borders[c].start <= borders[c].end,
    ensures
        forall|idx: int| 0 <= idx < n ==> #[trigger] covered(borders, idx),
        forall|c1: int, c2: int, idx: int|
            0 <= c1 < borders.len() && 0 <= c2 < borders.len() && c1 != c2 && #[trigger] in_chunk(
                borders,
                c1,
                idx,
            ) ==> !(#[trigger] in_chunk(borders, c2, idx)),
{
    assert forall|idx: int| 0 <= idx < n implies #[trigger] covered(borders, idx) by {
        lemma_chunks_cover(borders, n, idx);
    }
    assert forall|c1: int, c2: int, idx: int|
        0 <= c1 < borders.len() && 0 <= c2 < borders.len() && c1 != c2 && #[trigger] in_chunk(
            borders,
            c1,
            idx,
        ) implies !(#[trigger] in_chunk(borders, c2, idx)) by {
        if c1 < c2 {
            lemma_chunks_ordered(borders, c1, c2);
        } else {
            lemma_chunks_ordered(borders, c2, c1);
        }
    }
}

} // verus!

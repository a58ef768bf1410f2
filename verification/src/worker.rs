//! Splitting particle work into chunks for worker threads.
use vstd::prelude::*;

verus! {

/// Chunk size for worker batching: each worker processes 10K particles.
pub const CHUNK_SIZE: usize = 10000;

/// The length of each chunk when `total` items are split into `chunks`
/// chunks: `total / chunks`, rounded up.
pub open spec fn chunk_len(total: usize, chunks: usize) -> int {
    (total + chunks - 1) / (chunks as int)
}

/// The smaller of `a` and `b`.
pub open spec fn min_int(a: int, b: int) -> int {
    if a <= b {
        a
    } else {
        b
    }
}

/// The `i`-th candidate chunk: `i * len .. min((i + 1) * len, total)`.
pub open spec fn chunk_at(total: usize, chunks: usize, i: int) -> (usize, usize) {
    let cs = chunk_len(total, chunks);
    ((i * cs) as usize, min_int((i + 1) * cs, total as int) as usize)
}

/// The chunks `chunk_indices` returns: one candidate per chunk number,
/// keeping those that start before `total`.
pub open spec fn chunk_spans(total: usize, chunks: usize) -> Seq<(usize, usize)> {
    Seq::new(chunks as nat, |i: int| chunk_at(total, chunks, i)).filter(
        |p: (usize, usize)| p.0 < total,
    )
}

proof fn lemma_chunk_arith(total: usize, chunks: usize, i: int)
    requires
        chunks > 0,
        total + chunks - 1 <= usize::MAX,
        0 <= i < chunks,
    ensures
        0 <= chunk_len(total, chunks),
        i * chunk_len(total, chunks) <= (i + 1) * chunk_len(total, chunks),
        (i + 1) * chunk_len(total, chunks) <= total + chunks - 1,
        total <= chunks * chunk_len(total, chunks),
{
    let cs = chunk_len(total, chunks);
    let n = total + chunks - 1;
    vstd::arithmetic::div_mod::lemma_fundamental_div_mod(n, chunks as int);
    vstd::arithmetic::div_mod::lemma_mod_bound(n, chunks as int);
    vstd::arithmetic::div_mod::lemma_div_pos_is_pos(n, chunks as int);
    assert(i * cs <= (i + 1) * cs) by (nonlinear_arith)
        requires cs >= 0;
    assert((i + 1) * cs <= chunks * cs) by (nonlinear_arith)
        requires cs >= 0, i + 1 <= chunks;
    assert(chunks * cs == n - n % (chunks as int)) by (nonlinear_arith)
        requires n == chunks * cs + n % (chunks as int);
}

/// Splits `0..total` into at most `chunks` consecutive ranges of equal
/// length (the last may be shorter), as `(start, end)` pairs.
pub fn chunk_indices(total: usize, chunks: usize) -> (r: Vec<(usize, usize)>)
    requires
        chunks > 0,
        total + chunks - 1 <= usize::MAX,
    ensures
        r@ == chunk_spans(total, chunks),
{
    let chunk_size = (total + (chunks - 1)) / chunks;
    let ghost cands = Seq::new(chunks as nat, |i: int| chunk_at(total, chunks, i));
    let mut result: Vec<(usize, usize)> = Vec::new();
    let mut i: usize = 0;
    while i < chunks
        invariant
            chunks > 0,
            total + chunks - 1 <= usize::MAX,
            i <= chunks,
            chunk_size == chunk_len(total, chunks),
            cands == Seq::new(chunks as nat, |i: int| chunk_at(total, chunks, i)),
            result@ == cands.subrange(0, i as int).filter(|p: (usize, usize)| p.0 < total),
        decreases chunks - i,
    {
        proof {
            lemma_chunk_arith(total, chunks, i as int);
        }
        let start = i * chunk_size;
        let next = (i + 1) * chunk_size;
        let end = if next < total {
            next
        } else {
            total
        };
        proof {
            reveal(Seq::filter);
            assert(cands.subrange(0, i + 1).drop_last() =~= cands.subrange(0, i as int));
            assert(cands.subrange(0, i + 1).last() == (start, end));
        }
        if start < total {
            result.push((start, end));
        }
        i = i + 1;
    }
    assert(cands.subrange(0, chunks as int) =~= cands);
    result
}

/// For `total > 0` the chunks cover `0..total` without gaps or overlaps:
/// the first starts at 0, each ends where the next starts, the last ends at
/// `total`, none is empty, there are at most `chunks` of them, and each
/// holds `chunk_len` items, the last at most that many.
pub proof fn law_chunks_partition(total: usize, chunks: usize)
    requires
        chunks > 0,
        total > 0,
        total + chunks - 1 <= usize::MAX,
    ensures
        ({
            let s = chunk_spans(total, chunks);
            &&& 0 < s.len() <= chunks
            &&& s[0].0 == 0
            &&& s[s.len() - 1].1 == total
            &&& forall|k: int| 0 <= k < s.len() ==> (#[trigger] s[k]).0 < s[k].1
            &&& forall|k: int| 0 <= k < s.len() - 1 ==> (#[trigger] s[k]).1 == s[k + 1].0
            &&& forall|k: int| 0 <= k < s.len() ==> (#[trigger] s[k]).1 - s[k].0 <= chunk_len(total, chunks)
            &&& forall|k: int| 0 <= k < s.len() - 1 ==> (#[trigger] s[k]).1 - s[k].0 == chunk_len(total, chunks)
        }),
{
    let cs = chunk_len(total, chunks);
    lemma_chunk_arith(total, chunks, 0);
    assert(cs >= 1) by {
        if cs == 0 {
            assert(chunks * cs == 0) by (nonlinear_arith)
                requires cs == 0;
        }
    }
    // m: the number of chunks that start before `total`.
    let m = (total + cs - 1) / cs;
    vstd::arithmetic::div_mod::lemma_fundamental_div_mod(total + cs - 1, cs);
    vstd::arithmetic::div_mod::lemma_mod_bound(total + cs - 1, cs);
    assert(m * cs < total + cs && total <= m * cs) by (nonlinear_arith)
        requires
            total + cs - 1 == cs * m + (total + cs - 1) % cs,
            0 <= (total + cs - 1) % cs < cs;
    assert forall|i: int| 0 <= i implies (i < m <==> #[trigger] (i * cs) < total) by {
        if 0 <= i && i < m {
            assert(i * cs <= (m - 1) * cs) by (nonlinear_arith)
                requires i <= m - 1, cs >= 1;
            assert((m - 1) * cs == m * cs - cs) by (nonlinear_arith);
        }
        if 0 <= i && i >= m {
            assert(i * cs >= m * cs) by (nonlinear_arith)
                requires i >= m, cs >= 1;
        }
    }
    assert(m <= chunks) by {
        if m > chunks {
            assert(chunks * cs < total);
        }
    }
    assert(m >= 1) by {
        assert(0 * cs == 0);
    }
    let cands = Seq::new(chunks as nat, |i: int| chunk_at(total, chunks, i));
    let pred = |p: (usize, usize)| p.0 < total;
    // The filter keeps exactly the first m candidates.
    assert forall|n: int| 0 <= n <= chunks implies #[trigger] cands.subrange(0, n).filter(pred)
        =~= cands.subrange(0, min_int(n, m)) by {
        lemma_filter_prefix(total, chunks, cs, m, n);
    }
    assert(cands.subrange(0, chunks as int) =~= cands);
    let s = chunk_spans(total, chunks);
    assert(s =~= cands.subrange(0, m));
    assert forall|k: int| 0 <= k < s.len() implies (#[trigger] s[k]).0 < s[k].1 by {
        lemma_chunk_arith(total, chunks, k);
        assert(k * cs < (k + 1) * cs) by (nonlinear_arith)
            requires cs >= 1;
    }
    assert forall|k: int| 0 <= k < s.len() - 1 implies (#[trigger] s[k]).1 == s[k + 1].0 by {
        lemma_chunk_arith(total, chunks, k);
        lemma_chunk_arith(total, chunks, k + 1);
        assert((k + 1) * cs < total);
    }
    assert forall|k: int| 0 <= k < s.len() implies (#[trigger] s[k]).1 - s[k].0 <= cs by {
        lemma_chunk_arith(total, chunks, k);
        assert((k + 1) * cs == k * cs + cs) by (nonlinear_arith);
    }
    assert forall|k: int| 0 <= k < s.len() - 1 implies (#[trigger] s[k]).1 - s[k].0 == cs by {
        lemma_chunk_arith(total, chunks, k);
        lemma_chunk_arith(total, chunks, k + 1);
        assert((k + 1) * cs < total);
        assert((k + 1) * cs == k * cs + cs) by (nonlinear_arith);
    }
    lemma_chunk_arith(total, chunks, m - 1);
    assert((m - 1 + 1) * cs == m * cs);
}

proof fn lemma_filter_prefix(total: usize, chunks: usize, cs: int, m: int, n: int)
    requires
        chunks > 0,
        total + chunks - 1 <= usize::MAX,
        cs == chunk_len(total, chunks),
        cs >= 1,
        0 <= m <= chunks,
        forall|i: int| 0 <= i ==> (i < m <==> #[trigger] (i * cs) < total),
        0 <= n <= chunks,
    ensures
        Seq::new(chunks as nat, |i: int| chunk_at(total, chunks, i)).subrange(0, n).filter(
            |p: (usize, usize)| p.0 < total,
        ) =~= Seq::new(chunks as nat, |i: int| chunk_at(total, chunks, i)).subrange(0, min_int(n, m)),
    decreases n,
{
    reveal(Seq::filter);
    let cands = Seq::new(chunks as nat, |i: int| chunk_at(total, chunks, i));
    if n > 0 {
        lemma_filter_prefix(total, chunks, cs, m, n - 1);
        assert(cands.subrange(0, n).drop_last() =~= cands.subrange(0, n - 1));
        lemma_chunk_arith(total, chunks, n - 1);
        assert(cands.subrange(0, n).last() == chunk_at(total, chunks, n - 1));
        assert(((n - 1) * cs) as usize as int == (n - 1) * cs);
        if n - 1 < m {
            assert(cands.subrange(0, n - 1).push(cands[n - 1]) =~= cands.subrange(0, n));
        }
    }
}

/// Worker pool settings: how many workers to use and whether they are on.
pub struct WorkerPool {
    pub worker_count: usize,
    pub enabled: bool,
}

/// The worker count chosen for a reported core count: the count kept
/// between 2 and 8, or 4 when nothing was reported.
pub open spec fn worker_count_for(cores: Option<usize>) -> usize {
    match cores {
        Some(c) => if c < 2 {
            2
        } else if c > 8 {
            8
        } else {
            c
        },
        None => 4,
    }
}

impl WorkerPool {
    /// A pool of `worker_count` workers, disabled until workers exist.
    pub fn new(worker_count: usize) -> (r: Self)
        ensures
            r.worker_count == worker_count,
            !r.enabled,
    {
        WorkerPool { worker_count, enabled: false }
    }

    /// The worker count to use given the hardware concurrency that the
    /// host reported, if it reported one: between 2 and 8 workers, and 4
    /// by default.
    pub fn optimal_worker_count_for(cores: Option<usize>) -> (r: usize)
        ensures
            r == worker_count_for(cores),
            2 <= r <= 8,
    {
        match cores {
            Some(c) => {
                if c < 2 {
                    2
                } else if c > 8 {
                    8
                } else {
                    c
                }
            },
            None => 4,
        }
    }
}

} // verus!

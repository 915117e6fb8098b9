//! Splitting work into chunks, one per thread.
use vstd::prelude::*;

verus! {

/// `ceil(n / c)` for a positive `c`.
pub open spec fn per_chunk(n: nat, c: nat) -> nat {
    if c == 0 {
        0
    } else {
        ((n + c - 1) / (c as int)) as nat
    }
}

/// Start of chunk `i`: `min(i * q, n)` with `q = per_chunk(n, c)`.
pub open spec fn chunk_start(n: nat, c: nat, i: nat) -> nat {
    let s = i * per_chunk(n, c);
    if s < n {
        s
    } else {
        n
    }
}

/// Size of chunk `i`.
pub open spec fn chunk_len(n: nat, c: nat, i: nat) -> nat {
    (chunk_start(n, c, i + 1) - chunk_start(n, c, i)) as nat
}

proof fn lemma_chunk_step(n: nat, c: nat, i: nat)
    requires
        c > 0,
    ensures
        chunk_start(n, c, i + 1) == chunk_start(n, c, i) + (if n - chunk_start(n, c, i) < per_chunk(n, c) {
            n - chunk_start(n, c, i)
        } else {
            per_chunk(n, c) as int
        }),
        chunk_start(n, c, i) <= chunk_start(n, c, i + 1),
{
    let q = per_chunk(n, c);
    assert((i + 1) * q == i * q + q) by (nonlinear_arith);
}

/// With `c` chunks the last one ends at `n`.
pub proof fn lemma_last_chunk_ends(n: nat, c: nat)
    requires
        c > 0,
    ensures
        chunk_start(n, c, c) == n,
{
    let q = per_chunk(n, c);
    assert(c * q >= n) by (nonlinear_arith)
        requires
            c > 0,
            q == (n + c - 1) / (c as int),
    {
        assert((n + c - 1) == c * ((n + c - 1) / (c as int)) + (n + c - 1) % (c as int));
    }
}

/// Sizes of `num_chunks` near-equal chunks that add up to `n`: each takes
/// `ceil(n / num_chunks)` while enough is left, then what is left, then 0.
pub fn split_n_to_chunks(n: usize, num_chunks: usize) -> (r: Vec<usize>)
    ensures
        r@.len() == num_chunks,
        forall|i: int| 0 <= i < num_chunks ==> #[trigger] r@[i] == chunk_len(n as nat, num_chunks as nat, i as nat),
{
    let mut result: Vec<usize> = Vec::new();
    if num_chunks == 0 {
        return result;
    }
    let base = n / num_chunks;
    let rest = n % num_chunks;
    proof {
        let c = num_chunks as int;
        let nn = n as int;
        vstd::arithmetic::div_mod::lemma_fundamental_div_mod(nn, c);
        assert(0 <= rest < c);
        assert(nn == c * base + rest);
        assert(base * c == c * base) by (nonlinear_arith);
        assert((base + 1) * c == base * c + c) by (nonlinear_arith);
        if rest != 0 {
            assert(c >= 2);
            assert(base * c <= nn);
            assert(base < usize::MAX) by (nonlinear_arith)
                requires
                    c >= 2,
                    base * c <= nn,
                    nn <= usize::MAX,
                    base >= 0,
            ;
            vstd::arithmetic::div_mod::lemma_fundamental_div_mod_converse(
                nn + c - 1,
                c,
                base + 1,
                rest - 1,
            );
        } else {
            vstd::arithmetic::div_mod::lemma_fundamental_div_mod_converse(nn + c - 1, c, base as int, c - 1);
        }
    }
    let on_one_chunk: usize = if rest == 0 {
        base
    } else {
        base + 1
    };
    let mut remains = n;
    for i in 0..num_chunks
        invariant
            num_chunks > 0,
            on_one_chunk == per_chunk(n as nat, num_chunks as nat),
            result@.len() == i,
            remains == n - chunk_start(n as nat, num_chunks as nat, i as nat),
            chunk_start(n as nat, num_chunks as nat, i as nat) <= n,
            forall|j: int| 0 <= j < i ==> #[trigger] result@[j] == chunk_len(n as nat, num_chunks as nat, j as nat),
    {
        proof {
            lemma_chunk_step(n as nat, num_chunks as nat, i as nat);
        }
        if remains < on_one_chunk {
            result.push(remains);
            remains = 0;
        } else {
            result.push(on_one_chunk);
            remains -= on_one_chunk;
        }
    }
    result
}

/// Index ranges `[start, end)` of `num_chunks` chunks of `0..vec_size`, in order.
pub fn split_to_chunks_indexes(vec_size: usize, num_chunks: usize) -> (r: Vec<(usize, usize)>)
    ensures
        r@.len() == num_chunks,
        forall|i: int|
            0 <= i < num_chunks ==> (#[trigger] r@[i]).0 == chunk_start(vec_size as nat, num_chunks as nat, i as nat)
                && r@[i].1 == chunk_start(vec_size as nat, num_chunks as nat, (i + 1) as nat),
{
    let mut result: Vec<(usize, usize)> = Vec::new();
    let elems_in_chunk = split_n_to_chunks(vec_size, num_chunks);
    let mut iter: usize = 0;
    for i in 0..elems_in_chunk.len()
        invariant
            elems_in_chunk@.len() == num_chunks,
            forall|i: int| 0 <= i < num_chunks ==> #[trigger] elems_in_chunk@[i] == chunk_len(vec_size as nat, num_chunks as nat, i as nat),
            result@.len() == i,
            iter == chunk_start(vec_size as nat, num_chunks as nat, i as nat),
            iter <= vec_size,
            forall|j: int|
                0 <= j < i ==> (#[trigger] result@[j]).0 == chunk_start(vec_size as nat, num_chunks as nat, j as nat)
                    && result@[j].1 == chunk_start(vec_size as nat, num_chunks as nat, (j + 1) as nat),
    {
        let n_elem = elems_in_chunk[i];
        proof {
            lemma_chunk_step(vec_size as nat, num_chunks as nat, i as nat);
            if chunk_start(vec_size as nat, num_chunks as nat, (i + 1) as nat) > vec_size {
                assert(false);
            }
        }
        result.push((iter, iter + n_elem));
        iter += n_elem;
    }
    result
}

/// Whether index `k` lies in one of the `c` chunks of `0..n`.
pub open spec fn in_some_chunk(n: nat, c: nat, k: nat) -> bool {
    exists|i: nat| i < c && chunk_start(n, c, i) <= k < #[trigger] chunk_start(n, c, i + 1)
}

/// Chunks cover `0..n` without gaps or overlaps: they start at 0, each
/// starts where the one before ends, none runs backwards, and the last ends
/// at `n`; so each index lies in exactly one chunk.
pub proof fn lemma_chunks_partition(n: nat, c: nat)
    requires
        c > 0,
    ensures
        chunk_start(n, c, 0) == 0,
        chunk_start(n, c, c) == n,
        forall|i: nat| #[trigger] chunk_start(n, c, i) <= chunk_start(n, c, i + 1),
        forall|k: nat| k < n ==> #[trigger] in_some_chunk(n, c, k),
{
    lemma_last_chunk_ends(n, c);
    assert(0 * per_chunk(n, c) == 0) by (nonlinear_arith);
    assert forall|i: nat| #[trigger] chunk_start(n, c, i) <= chunk_start(n, c, i + 1) by {
        lemma_chunk_step(n, c, i);
    }
    assert forall|k: nat| k < n implies #[trigger] in_some_chunk(n, c, k) by {
        lemma_index_in_some_chunk(n, c, k, c);
    }
}

proof fn lemma_index_in_some_chunk(n: nat, c: nat, k: nat, m: nat)
    requires
        c > 0,
        k < chunk_start(n, c, m),
    ensures
        exists|i: nat| i < m && chunk_start(n, c, i) <= k < #[trigger] chunk_start(n, c, i + 1),
    decreases m,
{
    if m == 0 {
        assert(0 * per_chunk(n, c) == 0) by (nonlinear_arith);
    } else {
        let p = (m - 1) as nat;
        if k < chunk_start(n, c, p) {
            lemma_index_in_some_chunk(n, c, k, p);
        } else {
            assert(chunk_start(n, c, p) <= k < chunk_start(n, c, p + 1));
        }
    }
}

/// Whether `ranges` cut `0..n` into non-empty contiguous ranges, in order.
pub open spec fn is_partition(ranges: Seq<(usize, usize)>, n: nat) -> bool {
    &&& ranges.len() == 0 ==> n == 0
    &&& ranges.len() > 0 ==> ranges[0].0 == 0 && ranges.last().1 == n
    &&& forall|k: int| 0 <= k < ranges.len() ==> (#[trigger] ranges[k]).0 < ranges[k].1
    &&& forall|k: int| 0 < k < ranges.len() ==> (#[trigger] ranges[k]).0 == ranges[k - 1].1
}

/// The ranges of `0..len` that the threads get: at least one thread is
/// used, chunks are cut as `split_to_chunks_indexes` cuts them, and empty
/// chunks get no thread.
pub fn thread_ranges(len: usize, n_threads: usize) -> (r: Vec<(usize, usize)>)
    ensures
        is_partition(r@, len as nat),
        r@.len() <= if n_threads == 0 {
            1
        } else {
            n_threads as int
        },
{
    let t = if n_threads == 0 {
        1
    } else {
        n_threads
    };
    let chunks = split_to_chunks_indexes(len, t);
    proof {
        lemma_chunks_partition(len as nat, t as nat);
    }
    let mut result: Vec<(usize, usize)> = Vec::new();
    for i in 0..chunks.len()
        invariant
            chunks@.len() == t,
            t > 0,
            forall|i: int|
                0 <= i < t ==> (#[trigger] chunks@[i]).0 == chunk_start(len as nat, t as nat, i as nat)
                    && chunks@[i].1 == chunk_start(len as nat, t as nat, (i + 1) as nat),
            chunk_start(len as nat, t as nat, 0) == 0,
            forall|i: nat| #[trigger] chunk_start(len as nat, t as nat, i) <= chunk_start(len as nat, t as nat, i + 1),
            result@.len() <= i,
            result@.len() == 0 ==> chunk_start(len as nat, t as nat, i as nat) == 0,
            result@.len() > 0 ==> result@[0].0 == 0 && result@.last().1 == chunk_start(len as nat, t as nat, i as nat),
            forall|k: int| 0 <= k < result@.len() ==> (#[trigger] result@[k]).0 < result@[k].1,
            forall|k: int| 0 < k < result@.len() ==> (#[trigger] result@[k]).0 == result@[k - 1].1,
    {
        let (left, right) = chunks[i];
        if left != right {
            result.push((left, right));
        }
    }
    proof {
        lemma_last_chunk_ends(len as nat, t as nat);
    }
    result
}

/// The results of the ranges, one after another.
pub fn concat_results(parts: Vec<Vec<String>>) -> (r: Vec<String>)
    ensures
        r@ == parts@.map_values(|v: Vec<String>| v@).flatten(),
{
    let mut result: Vec<String> = Vec::new();
    let ghost pv = parts@;
    for part in it: parts
        invariant
            it.seq() == pv,
            result@ == pv.take(it.index() as int).map_values(|v: Vec<String>| v@).flatten(),
    {
        let ghost k = it.index();
        let mut part = part;
        let ghost before = result@;
        let ghost pre = pv.take(k as int).map_values(|v: Vec<String>| v@);
        result.append(&mut part);
        proof {
            assert(pv.take(k + 1).map_values(|v: Vec<String>| v@) =~= pre.push(pv[k as int]@));
            pre.lemma_flatten_push(pv[k as int]@);
        }
    }
    assert(pv.take(pv.len() as int) =~= pv);
    result
}

} // verus!

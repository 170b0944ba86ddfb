use vstd::prelude::*;
use vstd::arithmetic::div_mod::{
    lemma_fundamental_div_mod, lemma_fundamental_div_mod_converse_div,
    lemma_fundamental_div_mod_converse_mod, lemma_mod_division_less_than_divisor,
};
use vstd::arithmetic::mul::{
    lemma_mul_inequality, lemma_mul_is_distributive_add_other_way, lemma_mul_nonnegative,
};

verus! {

/// Number of rectangle slots that interleaved striping assigns to worker
/// `tid` when `n` slots are shared among workers spaced `threads` apart:
/// the number of values `k >= 0` with `tid + k * threads < n`.
pub open spec fn worker_slot_count(tid: int, threads: int, n: int) -> int
    recommends
        1 <= threads,
        0 <= tid,
{
    if tid >= n {
        0
    } else {
        (n - 1 - tid) / threads + 1
    }
}

/// The ordered sequence of slot indices assigned to worker `tid`:
/// `tid, tid + threads, tid + 2 * threads, ...`, clipped to `< n`.
pub open spec fn worker_slot_seq(tid: int, threads: int, n: int) -> Seq<int>
    recommends
        1 <= threads,
        0 <= tid,
{
    Seq::new(worker_slot_count(tid, threads, n) as nat, |k: int| tid + k * threads)
}

/// The slot indices that worker `tid` out of `threads` workers must
/// process when `n` slots are distributed by interleaved striping.
pub fn worker_slots(tid: usize, threads: usize, n: usize) -> (r: Vec<usize>)
    requires
        1 <= threads,
    ensures
        r@.len() == worker_slot_seq(tid as int, threads as int, n as int).len(),
        forall|k: int|
            0 <= k < r@.len() ==> r@[k] == worker_slot_seq(tid as int, threads as int, n as int)[k],
        forall|k: int| 0 <= k < r@.len() ==> r@[k] < n,
{
    let mut r: Vec<usize> = Vec::new();
    let mut slice: usize = tid;
    proof {
        assert(r@.len() * threads == 0) by {
            vstd::arithmetic::mul::lemma_mul_basics(threads as int);
        }
    }
    while slice < n
        invariant
            1 <= threads,
            forall|k: int| 0 <= k < r@.len() ==> r@[k] == tid + k * threads,
            forall|k: int| 0 <= k < r@.len() ==> r@[k] < n,
            slice as int == tid + r@.len() * threads || (slice == n && tid + r@.len() * threads
                >= n),
        decreases n - slice,
    {
        r.push(slice);
        proof {
            lemma_mul_is_distributive_add_other_way(threads as int, r@.len() - 1, 1);
        }
        if n - slice > threads {
            slice = slice + threads;
        } else {
            slice = n;
        }
    }
    proof {
        let ti = tid as int;
        let th = threads as int;
        let ni = n as int;
        let m = r@.len() as int;
        assert(ti + m * th >= ni);
        if m == 0 {
            assert(ti >= ni);
        } else {
            assert(r@[m - 1] == ti + (m - 1) * th);
            assert(ti + (m - 1) * th < ni);
            let rem = (ni - 1 - ti) - (m - 1) * th;
            assert(m * th == (m - 1) * th + th) by {
                lemma_mul_is_distributive_add_other_way(th, m - 1, 1);
            }
            assert(0 <= rem < th);
            lemma_fundamental_div_mod_converse_div(ni - 1 - ti, th, m - 1, rem);
            assert((ni - 1 - ti) / th == m - 1);
            assert(m == worker_slot_count(ti, th, ni));
        }
    }
    r
}

/// Every assigned slot lies in `[0, n)`: no worker is handed an index
/// outside the rectangle range.
pub proof fn lemma_worker_slots_in_range(tid: int, threads: int, n: int)
    requires
        1 <= threads,
        0 <= tid,
    ensures
        forall|k: int|
            0 <= k < worker_slot_seq(tid, threads, n).len() ==> 0 <= #[trigger] worker_slot_seq(
                tid,
                threads,
                n,
            )[k] < n,
{
    if tid < n {
        let q = (n - 1 - tid) / threads;
        lemma_fundamental_div_mod(n - 1 - tid, threads);
        vstd::arithmetic::div_mod::lemma_mod_bound(n - 1 - tid, threads);
        assert forall|k: int|
            0 <= k < worker_slot_seq(tid, threads, n).len() implies 0 <= #[trigger] worker_slot_seq(
            tid,
            threads,
            n,
        )[k] < n by {
            assert(worker_slot_seq(tid, threads, n)[k] == tid + k * threads);
            assert(k * threads >= 0) by {
                lemma_mul_nonnegative(k, threads);
            }
            assert(k <= q);
            assert(k * threads <= q * threads) by {
                lemma_mul_inequality(k, q, threads);
            }
            assert(q * threads == threads * q) by {
                vstd::arithmetic::mul::lemma_mul_is_commutative(q, threads);
            }
            assert(tid + q * threads <= n - 1);
        }
    }
}

/// Partition coverage: every slot `i` in `[0, n)` is assigned to exactly
/// one worker, namely worker `i % threads`, where it occupies position
/// `i / threads` of that worker's slot sequence and no other position of
/// any worker's sequence.
pub proof fn lemma_partition_coverage(threads: int, n: int, i: int)
    requires
        1 <= threads,
        0 <= i < n,
    ensures
        0 <= i % threads < threads,
        0 <= i / threads < worker_slot_seq(i % threads, threads, n).len(),
        worker_slot_seq(i % threads, threads, n)[i / threads] == i,
        forall|t: int, k: int|
            0 <= t < threads && 0 <= k < worker_slot_seq(t, threads, n).len()
                && worker_slot_seq(t, threads, n)[k] == i ==> t == i % threads && k == i
                / threads,
{
    let tid = i % threads;
    let q = i / threads;
    lemma_fundamental_div_mod(i, threads);
    lemma_mod_division_less_than_divisor(i, threads);
    assert(i == threads * q + tid);
    assert(q >= 0) by {
        if q < 0 {
            lemma_mul_inequality(q, -1, threads);
        }
    }
    assert(q * threads == threads * q) by {
        vstd::arithmetic::mul::lemma_mul_is_commutative(q, threads);
    }
    assert(tid <= i) by {
        lemma_mul_nonnegative(q, threads);
    }
    assert(tid < n);
    assert(q <= (n - 1 - tid) / threads) by {
        let qq = (n - 1 - tid) / threads;
        lemma_fundamental_div_mod(n - 1 - tid, threads);
        lemma_mod_division_less_than_divisor(n - 1 - tid, threads);
        assert(n - 1 - tid == threads * qq + (n - 1 - tid) % threads);
        if q > qq {
            assert(q >= qq + 1);
            lemma_mul_inequality(qq + 1, q, threads);
            assert((qq + 1) * threads <= q * threads);
            assert((qq + 1) * threads == qq * threads + threads) by {
                lemma_mul_is_distributive_add_other_way(threads, qq, 1);
            }
            assert(qq * threads == threads * qq) by {
                vstd::arithmetic::mul::lemma_mul_is_commutative(qq, threads);
            }
            assert(false);
        }
    }
    assert(worker_slot_seq(tid, threads, n)[q] == tid + q * threads);
    assert(tid + q * threads == i);
    assert forall|t: int, k: int|
        0 <= t < threads && 0 <= k < worker_slot_seq(t, threads, n).len() && worker_slot_seq(
            t,
            threads,
            n,
        )[k] == i implies t == i % threads && k == i / threads by {
        assert(i == t + k * threads);
        assert(i == k * threads + t);
        lemma_fundamental_div_mod_converse_mod(i, threads, k, t);
        lemma_fundamental_div_mod_converse_div(i, threads, k, t);
    }
}

/// Degenerate worker: when `tid >= n` (in particular whenever
/// `threads > n` and `tid` is one of the excess workers), the worker's
/// slot sequence is empty, so it contributes nothing to the total.
pub proof fn lemma_degenerate_worker(tid: int, threads: int, n: int)
    requires
        1 <= threads,
        tid >= n,
    ensures
        worker_slot_seq(tid, threads, n).len() == 0,
{
}

} // verus!

use vstd::prelude::*;
use vstd::arithmetic::div_mod::{
    lemma_fundamental_div_mod,
    lemma_fundamental_div_mod_converse,
    lemma_mod_pos_bound,
};

verus! {

/// How many of the sample indices `rank, rank + size, rank + 2 * size, ...`
/// lie below `n`: the share of process `rank` when `n` Monte Carlo samples
/// are dealt out to `size` processes round-robin.
pub open spec fn spec_sample_count(rank: int, size: int, n: int) -> int {
    if rank >= n {
        0
    } else {
        (n - rank + size - 1) / size
    }
}

/// Sum of the sample counts of the processes of rank `0 .. k`.
pub open spec fn total_samples(size: int, n: int, k: int) -> int
    decreases k,
{
    if k <= 0 {
        0
    } else {
        total_samples(size, n, k - 1) + spec_sample_count(k - 1, size, n)
    }
}

/// Number of samples that process `rank` of a group of `size` processes
/// draws out of `n`.
pub fn monte_carlo_sample_count(rank: i32, size: i32, n: i32) -> (c: i32)
    requires
        0 <= rank,
        0 < size,
    ensures
        c == spec_sample_count(rank as int, size as int, n as int),
        0 <= c,
{
    if rank >= n {
        0
    } else {
        let m: i64 = (n as i64 - rank as i64 + size as i64 - 1) / (size as i64);
        proof {
            let x: int = n - rank;
            let s: int = size as int;
            assert(0 <= (x + s - 1) / s <= x) by (nonlinear_arith)
                requires
                    1 <= x,
                    0 < s,
            ;
        }
        m as i32
    }
}

/// The interval of sub-intervals `lb ..= ub` (out of `0 .. n`) that process
/// `rank` of `size` evaluates in the midpoint rule: `n / size` of them each,
/// the last process also taking the ones left over.
pub open spec fn spec_midpoint_bounds(rank: int, size: int, n: int) -> (int, int) {
    let per_process = n / size;
    let lb = rank * per_process;
    (lb, if rank == size - 1 { n - 1 } else { lb + per_process - 1 })
}

/// Lower and upper (inclusive) index of the sub-intervals that process
/// `rank` of a group of `size` processes evaluates when the integration
/// range is cut into `n` sub-intervals.
pub fn midpoint_bounds(rank: i32, size: i32, n: i32) -> (res: (i32, i32))
    requires
        0 <= rank < size,
        0 <= n,
    ensures
        res.0 == spec_midpoint_bounds(rank as int, size as int, n as int).0,
        res.1 == spec_midpoint_bounds(rank as int, size as int, n as int).1,
{
    let per_process = n / size;
    proof {
        let p = per_process as int;
        lemma_fundamental_div_mod(n as int, size as int);
        lemma_mod_pos_bound(n as int, size as int);
        assert(0 <= rank * p && rank * p + p <= n) by (nonlinear_arith)
            requires
                0 <= rank < size,
                0 <= p,
                n == size * p + n % size,
                0 <= n % size,
        ;
    }
    let lb = rank * per_process;
    let ub = if rank == size - 1 {
        n - 1
    } else {
        lb + per_process - 1
    };
    (lb, ub)
}

/// The midpoint intervals of the processes are contiguous and cover
/// `0 .. n` in rank order: the first starts at 0, each next one starts right
/// after the previous one ends, none is of negative length, and the last
/// ends at `n - 1`. So every sub-interval is evaluated by exactly one
/// process.
pub proof fn lemma_midpoint_bounds_partition(size: int, n: int, r: int)
    requires
        0 < size,
        0 <= n,
        0 <= r < size,
    ensures
        spec_midpoint_bounds(0, size, n).0 == 0,
        spec_midpoint_bounds(size - 1, size, n).1 == n - 1,
        r < size - 1 ==> spec_midpoint_bounds(r, size, n).1 + 1 == spec_midpoint_bounds(
            r + 1,
            size,
            n,
        ).0,
        spec_midpoint_bounds(r, size, n).0 <= spec_midpoint_bounds(r, size, n).1 + 1,
{
    let p = n / size;
    lemma_fundamental_div_mod(n, size);
    lemma_mod_pos_bound(n, size);
    assert(0 * p == 0) by (nonlinear_arith);
    assert(r * p + p == (r + 1) * p) by (nonlinear_arith);
    assert(r * p + p <= n) by (nonlinear_arith)
        requires
            0 <= r < size,
            0 <= p,
            n == size * p + n % size,
            0 <= n % size,
    ;
}

proof fn lemma_div_step(m: int, s: int)
    requires
        0 <= m,
        0 < s,
    ensures
        (m + s) / s == (m + s - 1) / s + (if m % s == 0 { 1int } else { 0int }),
{
    let q = m / s;
    let t = m % s;
    lemma_fundamental_div_mod(m, s);
    lemma_mod_pos_bound(m, s);
    assert(m + s == (q + 1) * s + t) by (nonlinear_arith)
        requires
            m == s * q + t,
    ;
    lemma_fundamental_div_mod_converse(m + s, s, q + 1, t);
    if t == 0 {
        assert(m + s - 1 == q * s + (s - 1)) by (nonlinear_arith)
            requires
                m == s * q + t,
                t == 0,
        ;
        lemma_fundamental_div_mod_converse(m + s - 1, s, q, s - 1);
    } else {
        assert(m + s - 1 == (q + 1) * s + (t - 1)) by (nonlinear_arith)
            requires
                m == s * q + t,
        ;
        lemma_fundamental_div_mod_converse(m + s - 1, s, q + 1, t - 1);
    }
}

proof fn lemma_sample_count_step(r: int, s: int, n: int)
    requires
        0 <= r,
        0 < s,
        0 <= n,
    ensures
        spec_sample_count(r, s, n + 1) == spec_sample_count(r, s, n) + (if r <= n && (n - r) % s
            == 0 {
            1int
        } else {
            0int
        }),
{
    if r <= n {
        lemma_div_step(n - r, s);
        if r == n {
            lemma_fundamental_div_mod_converse(s - 1, s, 0, s - 1);
        }
    }
}

proof fn lemma_residue_match(k: int, s: int, n: int)
    requires
        0 <= k < s,
        0 <= n,
    ensures
        (k <= n && (n - k) % s == 0) <==> n % s == k,
{
    let q = n / s;
    lemma_fundamental_div_mod(n, s);
    lemma_mod_pos_bound(n, s);
    if n % s == k {
        assert(n - k == q * s + 0 && k <= n) by (nonlinear_arith)
            requires
                n == s * q + n % s,
                n % s == k,
                0 <= n,
                0 <= k,
                0 < s,
        ;
        lemma_fundamental_div_mod_converse(n - k, s, q, 0);
    }
    if k <= n && (n - k) % s == 0 {
        let q2 = (n - k) / s;
        lemma_fundamental_div_mod(n - k, s);
        assert(n == q2 * s + k) by (nonlinear_arith)
            requires
                n - k == s * q2 + (n - k) % s,
                (n - k) % s == 0,
        ;
        lemma_fundamental_div_mod_converse(n, s, q2, k);
    }
}

proof fn lemma_total_step(s: int, n: int, k: int)
    requires
        0 < s,
        0 <= n,
        0 <= k <= s,
    ensures
        total_samples(s, n + 1, k) == total_samples(s, n, k) + (if n % s < k {
            1int
        } else {
            0int
        }),
    decreases k,
{
    lemma_mod_pos_bound(n, s);
    if k > 0 {
        lemma_total_step(s, n, k - 1);
        lemma_sample_count_step(k - 1, s, n);
        lemma_residue_match(k - 1, s, n);
    }
}

proof fn lemma_total_empty(s: int, n: int, k: int)
    requires
        0 < s,
        n <= 0,
        0 <= k,
    ensures
        total_samples(s, n, k) == 0,
    decreases k,
{
    if k > 0 {
        lemma_total_empty(s, n, k - 1);
    }
}

/// Dealing `n` samples out round-robin gives every sample to exactly one
/// process: the sample counts of all `size` processes add up to `n` (to 0
/// where `n` is not positive).
pub proof fn lemma_samples_cover(size: int, n: int)
    requires
        0 < size,
    ensures
        total_samples(size, n, size) == (if n > 0 { n } else { 0 }),
    decreases
            if n > 0 {
                n
            } else {
                0
            },
{
    if n <= 0 {
        lemma_total_empty(size, n, size);
    } else {
        lemma_samples_cover(size, n - 1);
        lemma_total_step(size, n - 1, size);
        lemma_mod_pos_bound(n - 1, size);
    }
}

} // verus!

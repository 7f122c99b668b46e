//! Integer square root and summation helpers used by the fixed-point
//! statistics in this crate.

use vstd::prelude::*;

verus! {

/// `r` is the integer square root of `x` (the floor of the real square root).
pub open spec fn is_isqrt(x: int, r: int) -> bool {
    0 <= r && r * r <= x < (r + 1) * (r + 1)
}

/// The integer square root of `x`, as a spec-level value. Meaningful for
/// `x >= 0`; pinned down by [`lemma_isqrt_unique`].
pub open spec fn spec_isqrt(x: int) -> int {
    choose|r: int| is_isqrt(x, r)
}

/// Any integer satisfying [`is_isqrt`] is `spec_isqrt(x)`: the floor square
/// root is unique.
pub proof fn lemma_isqrt_unique(x: int, r: int)
    requires
        is_isqrt(x, r),
    ensures
        r == spec_isqrt(x),
{
    let s = spec_isqrt(x);
    assert(is_isqrt(x, s)) by {
        assert(exists|q: int| is_isqrt(x, q));
    }
    if r < s {
        assert((r + 1) * (r + 1) <= s * s) by (nonlinear_arith)
            requires
                0 <= r + 1 <= s,
        ;
    }
    if s < r {
        assert((s + 1) * (s + 1) <= r * r) by (nonlinear_arith)
            requires
                0 <= s + 1 <= r,
        ;
    }
}

/// Integer square root of a `u128`, by binary search.
pub fn isqrt_u128(x: u128) -> (r: u64)
    ensures
        is_isqrt(x as int, r as int),
        r == spec_isqrt(x as int),
{
    let mut lo: u64 = 0;
    let mut hi: u64 = u64::MAX;
    assert((hi as int + 1) * (hi as int + 1) > x as int) by (nonlinear_arith)
        requires
            hi == u64::MAX,
            x <= u128::MAX,
    ;
    while lo < hi
        invariant
            lo <= hi,
            (lo as int) * (lo as int) <= x as int,
            (x as int) < (hi as int + 1) * (hi as int + 1),
        decreases hi - lo,
    {
        let mid: u64 = lo + (hi - lo - 1) / 2 + 1;
        assert(lo < mid <= hi);
        proof {
            assert((mid as int) * (mid as int) <= u128::MAX) by (nonlinear_arith)
                requires
                    0 <= mid <= u64::MAX,
            ;
        }
        let sq: u128 = (mid as u128) * (mid as u128);
        if sq <= x {
            lo = mid;
        } else {
            hi = mid - 1;
        }
    }
    proof {
        lemma_isqrt_unique(x as int, lo as int);
    }
    lo
}

/// Sum of a sequence of integers.
pub open spec fn sum64(s: Seq<i64>) -> int
    decreases s.len(),
{
    if s.len() == 0 {
        0
    } else {
        sum64(s.drop_last()) + s.last()
    }
}

/// Sum of the pointwise products of two sequences (over the length of the
/// first; callers keep the lengths equal).
pub open spec fn sum_mul64(a: Seq<i64>, b: Seq<i64>) -> int
    decreases a.len(),
{
    if a.len() == 0 {
        0
    } else {
        sum_mul64(a.drop_last(), b.drop_last()) + (a.last() as int) * (b.last() as int)
    }
}

/// For every non-negative `x` an integer square root exists, so
/// [`spec_isqrt`] satisfies [`is_isqrt`].
pub proof fn lemma_isqrt_exists(x: int)
    requires
        0 <= x,
    ensures
        is_isqrt(x, spec_isqrt(x)),
    decreases x,
{
    if x == 0 {
        assert(is_isqrt(0, 0));
        lemma_isqrt_unique(0, 0);
    } else {
        lemma_isqrt_exists(x - 1);
        let r = spec_isqrt(x - 1);
        if x < (r + 1) * (r + 1) {
            assert(is_isqrt(x, r));
            lemma_isqrt_unique(x, r);
        } else {
            assert(x == (r + 1) * (r + 1));
            assert((r + 2) * (r + 2) > (r + 1) * (r + 1)) by (nonlinear_arith)
                requires
                    0 <= r,
            ;
            assert(is_isqrt(x, r + 1));
            lemma_isqrt_unique(x, r + 1);
        }
    }
}

/// If `x < (b + 1)^2` then the integer square root of `x` is at most `b`.
pub proof fn lemma_isqrt_le(x: int, b: int)
    requires
        0 <= x,
        0 <= b,
        x < (b + 1) * (b + 1),
    ensures
        spec_isqrt(x) <= b,
{
    lemma_isqrt_exists(x);
    let r = spec_isqrt(x);
    if r > b {
        assert((b + 1) * (b + 1) <= r * r) by (nonlinear_arith)
            requires
                0 <= b + 1 <= r,
        ;
    }
}


/// Sums of a constant sequence: `sum = len * v` and `sum of squares
/// = len * v^2`.
pub proof fn lemma_sums_constant(s: Seq<i64>, v: int)
    requires
        forall|i: int| 0 <= i < s.len() ==> s[i] == v,
    ensures
        sum64(s) == s.len() * v,
        sum_mul64(s, s) == s.len() * (v * v),
    decreases s.len(),
{
    if s.len() == 0 {
    } else {
        lemma_sums_constant(s.drop_last(), v);
        assert((s.len() - 1) * v + v == s.len() * v) by (nonlinear_arith);
        assert((s.len() - 1) * (v * v) + v * v == s.len() * (v * v)) by (nonlinear_arith);
    }
}

/// Sums of the pointwise complement `b[i] = k - a[i]`, in terms of the sums
/// of `a`.
pub proof fn lemma_sums_complement(a: Seq<i64>, b: Seq<i64>, k: int)
    requires
        a.len() == b.len(),
        forall|i: int| 0 <= i < a.len() ==> b[i] == k - a[i],
    ensures
        sum64(b) == a.len() * k - sum64(a),
        sum_mul64(b, b) == a.len() * (k * k) - 2 * k * sum64(a) + sum_mul64(a, a),
        sum_mul64(a, b) == k * sum64(a) - sum_mul64(a, a),
    decreases a.len(),
{
    if a.len() == 0 {
    } else {
        lemma_sums_complement(a.drop_last(), b.drop_last(), k);
        let n = a.len();
        let x = a.last() as int;
        let sa = sum64(a.drop_last());
        let saa = sum_mul64(a.drop_last(), a.drop_last());
        let sab = sum_mul64(a.drop_last(), b.drop_last());
        assert(b.last() == k - x);
        assert((n - 1) * k - sa + (k - x) == n * k - (sa + x)) by (nonlinear_arith);
        assert((n - 1) * (k * k) - 2 * k * sa + saa + (k - x) * (k - x) == n * (k * k) - 2 * k * (
        sa + x) + (saa + x * x)) by (nonlinear_arith);
        assert(k * sa - saa + x * (k - x) == k * (sa + x) - (saa + x * x)) by (nonlinear_arith);
    }
}

} // verus!

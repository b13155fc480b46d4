//! Fixed-point arithmetic for prices.
//!
//! A price is stored as a signed count of sub-units, with `SCALE` sub-units
//! to one whole unit. Division rounds to the nearest sub-unit, ties away
//! from zero, so every indicator value is pinned exactly by its spec.

use vstd::prelude::*;

verus! {

/// Sub-units per whole price unit.
pub const SCALE: i64 = 1_000_000;

/// Largest magnitude, in sub-units, that a parsed price may have.
pub const PRICE_CAP: i64 = 1_000_000_000_000_000;

/// Rounded division: nearest integer, ties away from zero. Only meaningful
/// for a positive divisor.
pub open spec fn rdiv(a: int, b: int) -> int
    recommends
        b > 0,
{
    if a >= 0 {
        (a + b / 2) / b
    } else {
        -(((-a) + b / 2) / b)
    }
}

/// Rounded division on machine integers, matching `rdiv`.
pub fn rdiv_i128(a: i128, b: i128) -> (r: i128)
    requires
        0 < b,
        -0x20000000000000000000000000000000 <= a <= 0x20000000000000000000000000000000,
        b <= 0x20000000000000000000000000000000,
    ensures
        r == rdiv(a as int, b as int),
{
    let h: i128 = b / 2;
    if a >= 0 {
        (a + h) / b
    } else {
        -(((-a) + h) / b)
    }
}

/// `rdiv` stays within a multiple of the divisor: if `0 <= a <= n * b`
/// then `0 <= rdiv(a, b) <= n`.
pub proof fn lemma_rdiv_nonneg_le(a: int, b: int, n: int)
    requires
        b > 0,
        0 <= n,
        0 <= a <= n * b,
    ensures
        0 <= rdiv(a, b) <= n,
{
    assert(0 <= (a + b / 2) / b) by (nonlinear_arith)
        requires
            b > 0,
            a >= 0,
    ;
    assert((a + b / 2) / b <= n) by (nonlinear_arith)
        requires
            b > 0,
            0 <= a <= n * b,
            0 <= n,
    ;
}

/// Magnitude bound: if `-m * b <= a <= m * b` then `-m <= rdiv(a, b) <= m`.
pub proof fn lemma_rdiv_abs_le(a: int, b: int, m: int)
    requires
        b > 0,
        0 <= m,
        -(m * b) <= a <= m * b,
    ensures
        -m <= rdiv(a, b) <= m,
{
    if a >= 0 {
        lemma_rdiv_nonneg_le(a, b, m);
    } else {
        lemma_rdiv_nonneg_le(-a, b, m);
    }
}

/// Integer square root, as a spec-level recurrence: the largest `r` with
/// `r * r <= x`.
pub open spec fn int_sqrt(x: int) -> int
    decreases x,
{
    if x <= 0 {
        0
    } else {
        let p: int = int_sqrt(x - 1);
        if (p + 1) * (p + 1) <= x {
            p + 1
        } else {
            p
        }
    }
}

pub proof fn lemma_int_sqrt_props(x: int)
    requires
        0 <= x,
    ensures
        0 <= int_sqrt(x),
        int_sqrt(x) * int_sqrt(x) <= x,
        x < (int_sqrt(x) + 1) * (int_sqrt(x) + 1),
    decreases x,
{
    if x == 0 {
    } else {
        lemma_int_sqrt_props(x - 1);
        let p: int = int_sqrt(x - 1);
        if (p + 1) * (p + 1) <= x {
            assert((p + 1) * (p + 1) < (p + 2) * (p + 2)) by (nonlinear_arith)
                requires
                    p >= 0,
            ;
        }
    }
}

/// Any `r` with `r * r <= x < (r + 1) * (r + 1)` is the integer square root.
pub proof fn lemma_int_sqrt_unique(x: int, r: int)
    requires
        0 <= x,
        0 <= r,
        r * r <= x,
        x < (r + 1) * (r + 1),
    ensures
        r == int_sqrt(x),
{
    lemma_int_sqrt_props(x);
    let s: int = int_sqrt(x);
    if r < s {
        assert(s * s <= x);
        assert(x < (r + 1) * (r + 1));
        assert((r + 1) * (r + 1) <= s * s) by (nonlinear_arith)
            requires
                0 <= r,
                r + 1 <= s,
        ;
    }
    if s < r {
        assert((s + 1) * (s + 1) <= r * r) by (nonlinear_arith)
            requires
                0 <= s,
                s + 1 <= r,
        ;
    }
}

/// Integer square root on machine integers, by binary search.
pub fn isqrt_i128(x: i128) -> (r: i128)
    requires
        0 <= x <= 0x4000000000000000000000000000000,
    ensures
        r == int_sqrt(x as int),
        0 <= r,
{
    let mut lo: i128 = 0;
    let mut hi: i128 = 7_000_000_000_000_000_000;
    proof {
        assert(7_000_000_000_000_000_000i128 * 7_000_000_000_000_000_000i128
            > 0x4000000000000000000000000000000) by (nonlinear_arith);
    }
    while hi - lo > 1
        invariant
            0 <= lo < hi <= 7_000_000_000_000_000_000,
            lo * lo <= x,
            x < hi * hi,
        decreases hi - lo,
    {
        let mid: i128 = lo + (hi - lo) / 2;
        assert(lo < mid < hi);
        assert(mid * mid <= 7_000_000_000_000_000_000i128 * 7_000_000_000_000_000_000i128)
            by (nonlinear_arith)
            requires
                0 <= mid <= 7_000_000_000_000_000_000i128,
        ;
        if mid * mid <= x {
            lo = mid;
        } else {
            hi = mid;
        }
    }
    proof {
        lemma_int_sqrt_unique(x as int, lo as int);
    }
    lo
}

/// Sum of a sequence of integers.
pub open spec fn seq_sum(s: Seq<int>) -> int
    decreases s.len(),
{
    if s.len() == 0 {
        0
    } else {
        seq_sum(s.drop_last()) + s.last()
    }
}

/// A sum of values bounded by `cap` in magnitude is bounded by `len * cap`.
pub proof fn lemma_seq_sum_bound(s: Seq<int>, cap: int)
    requires
        0 <= cap,
        forall|j: int| 0 <= j < s.len() ==> -cap <= #[trigger] s[j] <= cap,
    ensures
        -(s.len() * cap) <= seq_sum(s) <= s.len() * cap,
    decreases s.len(),
{
    if s.len() == 0 {
    } else {
        lemma_seq_sum_bound(s.drop_last(), cap);
        assert((s.len() - 1) * cap + cap == s.len() * cap) by (nonlinear_arith);
    }
}

/// Splitting off the first element of a sum.
pub proof fn lemma_seq_sum_pop_front(s: Seq<int>)
    requires
        s.len() > 0,
    ensures
        seq_sum(s) == s[0] + seq_sum(s.subrange(1, s.len() as int)),
    decreases s.len(),
{
    if s.len() == 1 {
        assert(s.subrange(1, 1) =~= Seq::<int>::empty());
        assert(s.drop_last() =~= Seq::<int>::empty());
    } else {
        lemma_seq_sum_pop_front(s.drop_last());
        assert(s.drop_last().subrange(1, s.drop_last().len() as int) =~= s.subrange(
            1,
            s.len() as int,
        ).drop_last());
        assert(s.drop_last()[0] == s[0]);
    }
}

} // verus!

//! Indicator engine.
//!
//! Pure functions over the closing-price sequence (fixed-point sub-units).
//! Every per-index series is aligned with its input: an undefined entry
//! means "insufficient history", never zero. Malformed parameters degrade
//! to an all-undefined series; nothing here ever fails.

use vstd::prelude::*;
use crate::fixed::{
    int_sqrt, isqrt_i128, lemma_int_sqrt_props, lemma_rdiv_abs_le, lemma_rdiv_nonneg_le,
    lemma_seq_sum_bound, lemma_seq_sum_pop_front, rdiv, rdiv_i128, seq_sum, PRICE_CAP,
};

verus! {

/// Every value within `cap` in magnitude.
pub open spec fn in_cap(s: Seq<int>, cap: int) -> bool {
    forall|i: int| 0 <= i < s.len() ==> -cap <= #[trigger] s[i] <= cap
}

/// The integer readings of a machine-word sequence.
pub open spec fn to_ints(s: Seq<i64>) -> Seq<int> {
    Seq::new(s.len(), |i: int| s[i] as int)
}

// ------------------------------------------------------------------
// Simple moving average
// ------------------------------------------------------------------

/// Arithmetic mean of the trailing `p`-window ending at `i`.
pub open spec fn sma_at(cs: Seq<int>, p: int, i: int) -> int {
    rdiv(seq_sum(cs.subrange(i + 1 - p, i + 1)), p)
}

/// Whether the SMA is defined at index `i`: a full window exists and the
/// period is usable.
pub open spec fn sma_defined(len: int, p: int, i: int) -> bool {
    1 <= p <= len && p - 1 <= i < len
}

/// The whole SMA series: defined exactly on the trailing indices with a
/// full window, undefined everywhere else (and everywhere when the period
/// is zero or exceeds the length).
pub open spec fn sma_series(cs: Seq<int>, p: int) -> Seq<Option<i64>> {
    Seq::new(
        cs.len(),
        |i: int|
            if sma_defined(cs.len() as int, p, i) {
                Some(sma_at(cs, p, i) as i64)
            } else {
                None
            },
    )
}

/// Sliding-window arithmetic mean. The output is aligned with the input;
/// exactly the indices from `period - 1` on are defined, so a series of
/// length `n` has `n - period + 1` defined trailing values.
pub fn simple_moving_average(closes: &Vec<i64>, period: usize) -> (r: Vec<Option<i64>>)
    requires
        in_cap(to_ints(closes@), PRICE_CAP as int),
    ensures
        r@ == sma_series(to_ints(closes@), period as int),
        r@.len() == closes@.len(),
{
    let ghost cs: Seq<int> = to_ints(closes@);
    let n: usize = closes.len();
    let mut out: Vec<Option<i64>> = Vec::new();
    if period == 0 || period > n {
        let mut i: usize = 0;
        while i < n
            invariant
                i <= n,
                n == cs.len(),
                out@.len() == i,
                period == 0 || period > n,
                forall|t: int| 0 <= t < i ==> out@[t] is None,
            decreases n - i,
        {
            out.push(None);
            i = i + 1;
        }
        proof {
            assert(out@ =~= sma_series(cs, period as int));
        }
        return out;
    }
    let mut sum: i128 = 0;
    let mut i: usize = 0;
    proof {
        assert(cs.subrange(0, 0) =~= Seq::<int>::empty());
    }
    while i < n
        invariant
            i <= n,
            n == cs.len(),
            n == closes@.len(),
            1 <= period <= n,
            cs == to_ints(closes@),
            in_cap(cs, PRICE_CAP as int),
            out@.len() == i,
            sum == seq_sum(cs.subrange(if i >= period { i - period } else { 0 }, i as int)),
            forall|t: int|
                0 <= t < i ==> out@[t] == (if sma_defined(n as int, period as int, t) {
                    Some(sma_at(cs, period as int, t) as i64)
                } else {
                    None::<i64>
                }),
        decreases n - i,
    {
        let ghost lo: int = if i >= period {
            i - period
        } else {
            0
        };
        proof {
            lemma_seq_sum_bound(cs.subrange(lo, i as int), PRICE_CAP as int);
            assert((i - lo) * (PRICE_CAP as int) <= 0x10000000000000000000000000000000int)
                by (nonlinear_arith)
                requires
                    0 <= i - lo <= 0x10000000000000000,
            ;
        }
        sum = sum + closes[i] as i128;
        proof {
            let w: Seq<int> = cs.subrange(lo, i + 1);
            assert(w.drop_last() =~= cs.subrange(lo, i as int));
            assert(w.last() == cs[i as int]);
        }
        if i >= period {
            proof {
                let w: Seq<int> = cs.subrange(lo, i + 1);
                lemma_seq_sum_pop_front(w);
                assert(w.subrange(1, w.len() as int) =~= cs.subrange(lo + 1, i + 1));
                lemma_seq_sum_bound(cs.subrange(lo, i + 1), PRICE_CAP as int);
                assert((i + 1 - lo) * (PRICE_CAP as int) <= 0x10000000000000000000000000000000int)
                    by (nonlinear_arith)
                    requires
                        0 <= i + 1 - lo <= 0x10000000000000000,
                ;
            }
            sum = sum - closes[i - period] as i128;
        }
        let ghost lo2: int = i + 1 - period;
        if i + 1 >= period {
            proof {
                let w: Seq<int> = cs.subrange(lo2, i + 1);
                lemma_seq_sum_bound(w, PRICE_CAP as int);
                assert(w.len() == period);
                assert((period as int) * (PRICE_CAP as int) <= 0x10000000000000000000000000000000int)
                    by (nonlinear_arith)
                    requires
                        0 <= period as int <= 0x10000000000000000,
                ;
                lemma_rdiv_abs_le(seq_sum(w), period as int, PRICE_CAP as int);
            }
            let mean: i128 = rdiv_i128(sum, period as i128);
            out.push(Some(mean as i64));
        } else {
            out.push(None);
        }
        i = i + 1;
    }
    proof {
        assert(out@ =~= sma_series(cs, period as int));
    }
    out
}

// ------------------------------------------------------------------
// Exponential moving average
// ------------------------------------------------------------------

/// The EMA recurrence, seeded with the first observation: smoothing
/// factor 2/(p+1), applied with rounded division.
pub open spec fn ema_at(cs: Seq<int>, p: int, i: int) -> int
    recommends
        p >= 1,
        0 <= i < cs.len(),
    decreases i,
{
    if i <= 0 {
        cs[0]
    } else {
        let prev: int = ema_at(cs, p, i - 1);
        prev + rdiv(2 * (cs[i] - prev), p + 1)
    }
}

pub open spec fn ema_defined(len: int, p: int, i: int) -> bool {
    p >= 1 && i + 1 >= p && 0 <= i < len
}

/// The whole EMA series: the recurrence runs from index 0, values are
/// reported from index `p - 1` on.
pub open spec fn ema_series(cs: Seq<int>, p: int) -> Seq<Option<i64>> {
    Seq::new(
        cs.len(),
        |i: int|
            if ema_defined(cs.len() as int, p, i) {
                Some(ema_at(cs, p, i) as i64)
            } else {
                None
            },
    )
}

/// One EMA step stays between its two operands.
proof fn lemma_ema_step(prev: int, v: int, p: int)
    requires
        p >= 1,
    ensures
        prev + rdiv(2 * (v - prev), p + 1) <= if prev <= v {
            v
        } else {
            prev
        },
        prev + rdiv(2 * (v - prev), p + 1) >= if prev <= v {
            prev
        } else {
            v
        },
{
    let d: int = v - prev;
    if d >= 0 {
        assert(2 * d <= d * (p + 1)) by (nonlinear_arith)
            requires
                d >= 0,
                p >= 1,
        ;
        lemma_rdiv_nonneg_le(2 * d, p + 1, d);
    } else {
        assert(2 * (-d) <= (-d) * (p + 1)) by (nonlinear_arith)
            requires
                d < 0,
                p >= 1,
        ;
        lemma_rdiv_nonneg_le(2 * (-d), p + 1, -d);
        assert(rdiv(2 * d, p + 1) == -rdiv(2 * (-d), p + 1));
    }
}

/// The EMA of a capped series is capped.
pub proof fn lemma_ema_bounded(cs: Seq<int>, p: int, cap: int, i: int)
    requires
        p >= 1,
        0 <= cap,
        in_cap(cs, cap),
        0 <= i < cs.len(),
    ensures
        -cap <= ema_at(cs, p, i) <= cap,
    decreases i,
{
    if i > 0 {
        lemma_ema_bounded(cs, p, cap, i - 1);
        lemma_ema_step(ema_at(cs, p, i - 1), cs[i], p);
    }
}

/// Exponential moving average with the first observation as the seed.
pub fn exponential_moving_average(closes: &Vec<i64>, period: usize) -> (r: Vec<Option<i64>>)
    requires
        in_cap(to_ints(closes@), 2 * PRICE_CAP as int),
    ensures
        r@ == ema_series(to_ints(closes@), period as int),
        r@.len() == closes@.len(),
{
    let ghost cs: Seq<int> = to_ints(closes@);
    let n: usize = closes.len();
    let mut out: Vec<Option<i64>> = Vec::new();
    if period == 0 || n == 0 {
        let mut i: usize = 0;
        while i < n
            invariant
                i <= n,
                out@.len() == i,
                period == 0 || n == 0,
                forall|t: int| 0 <= t < i ==> out@[t] is None,
            decreases n - i,
        {
            out.push(None);
            i = i + 1;
        }
        proof {
            assert(out@ =~= ema_series(cs, period as int));
        }
        return out;
    }
    let mut ema: i64 = closes[0];
    proof {
        assert(cs[0] == closes@[0] as int);
    }
    let mut i: usize = 0;
    while i < n
        invariant
            i <= n,
            n == cs.len(),
            n == closes@.len(),
            n > 0,
            period >= 1,
            cs == to_ints(closes@),
            in_cap(cs, 2 * PRICE_CAP as int),
            out@.len() == i,
            i == 0 ==> ema == closes@[0],
            i > 0 ==> ema == ema_at(cs, period as int, i - 1),
            -2 * PRICE_CAP <= ema <= 2 * PRICE_CAP,
            forall|t: int|
                0 <= t < i ==> out@[t] == (if ema_defined(n as int, period as int, t) {
                    Some(ema_at(cs, period as int, t) as i64)
                } else {
                    None::<i64>
                }),
        decreases n - i,
    {
        if i == 0 {
            ema = closes[0];
            proof {
                assert(cs[0] == closes@[0] as int);
            }
        } else {
            proof {
                assert(cs[i as int] == closes@[i as int] as int);
            }
            let d: i64 = closes[i] - ema;
            let step: i128 = rdiv_i128(2 * (d as i128), (period as i128) + 1);
            proof {
                lemma_ema_step(ema as int, cs[i as int], period as int);
                lemma_ema_bounded(cs, period as int, 2 * PRICE_CAP as int, i as int);
            }
            ema = ema + step as i64;
        }
        proof {
            lemma_ema_bounded(cs, period as int, 2 * PRICE_CAP as int, i as int);
            assert(ema == ema_at(cs, period as int, i as int));
        }
        if i + 1 >= period {
            out.push(Some(ema));
        } else {
            out.push(None);
        }
        i = i + 1;
    }
    proof {
        assert(out@ =~= ema_series(cs, period as int));
    }
    out
}

// ------------------------------------------------------------------
// Bollinger bands
// ------------------------------------------------------------------

/// Capacity guard: the largest trailing window the engine computes on.
pub const MAX_WINDOW: usize = 10_000_000;

/// Sum of squared deviations from `mean`.
pub open spec fn sq_dev_sum(w: Seq<int>, mean: int) -> int
    decreases w.len(),
{
    if w.len() == 0 {
        0
    } else {
        sq_dev_sum(w.drop_last(), mean) + (w.last() - mean) * (w.last() - mean)
    }
}

proof fn lemma_sq_dev_sum_bound(w: Seq<int>, mean: int, b: int)
    requires
        0 <= b,
        forall|t: int| 0 <= t < w.len() ==> -b <= #[trigger] w[t] - mean <= b,
    ensures
        0 <= sq_dev_sum(w, mean) <= w.len() * (b * b),
    decreases w.len(),
{
    if w.len() > 0 {
        lemma_sq_dev_sum_bound(w.drop_last(), mean, b);
        let d: int = w.last() - mean;
        assert(0 <= d * d <= b * b) by (nonlinear_arith)
            requires
                -b <= d <= b,
        ;
        assert((w.len() - 1) * (b * b) + b * b == w.len() * (b * b)) by (nonlinear_arith);
    }
}

pub open spec fn boll_window(cs: Seq<int>, p: int, i: int) -> Seq<int> {
    cs.subrange(i + 1 - p, i + 1)
}

/// Population mean of the trailing window.
pub open spec fn boll_mean(cs: Seq<int>, p: int, i: int) -> int {
    rdiv(seq_sum(boll_window(cs, p, i)), p)
}

/// Population variance of the trailing window (divide by `p`).
pub open spec fn boll_var(cs: Seq<int>, p: int, i: int) -> int {
    rdiv(sq_dev_sum(boll_window(cs, p, i), boll_mean(cs, p, i)), p)
}

/// Population standard deviation: integer square root of the variance.
pub open spec fn boll_sigma(cs: Seq<int>, p: int, i: int) -> int {
    int_sqrt(boll_var(cs, p, i))
}

pub open spec fn boll_defined(len: int, p: int, i: int) -> bool {
    1 <= p <= len && p <= MAX_WINDOW && p - 1 <= i < len
}

pub open spec fn boll_upper_series(cs: Seq<int>, p: int, k: int) -> Seq<Option<i64>> {
    Seq::new(
        cs.len(),
        |i: int|
            if boll_defined(cs.len() as int, p, i) {
                Some((boll_mean(cs, p, i) + k * boll_sigma(cs, p, i)) as i64)
            } else {
                None
            },
    )
}

pub open spec fn boll_lower_series(cs: Seq<int>, p: int, k: int) -> Seq<Option<i64>> {
    Seq::new(
        cs.len(),
        |i: int|
            if boll_defined(cs.len() as int, p, i) {
                Some((boll_mean(cs, p, i) - k * boll_sigma(cs, p, i)) as i64)
            } else {
                None
            },
    )
}

/// Bounds of the window statistics of a capped series.
pub proof fn lemma_boll_bounds(cs: Seq<int>, p: int, i: int)
    requires
        in_cap(cs, PRICE_CAP as int),
        boll_defined(cs.len() as int, p, i),
    ensures
        -PRICE_CAP <= boll_mean(cs, p, i) <= PRICE_CAP,
        0 <= boll_var(cs, p, i) <= 4_000_000_000_000_000_000_000_000_000_000,
        0 <= boll_sigma(cs, p, i) <= 2_000_000_000_000_000,
{
    let w: Seq<int> = boll_window(cs, p, i);
    let cap: int = PRICE_CAP as int;
    assert(forall|t: int| 0 <= t < w.len() ==> -cap <= #[trigger] w[t] <= cap);
    lemma_seq_sum_bound(w, cap);
    assert(w.len() * cap == p * cap);
    lemma_rdiv_abs_le(seq_sum(w), p, cap);
    let mean: int = boll_mean(cs, p, i);
    assert(forall|t: int| 0 <= t < w.len() ==> -(2 * cap) <= #[trigger] w[t] - mean <= 2 * cap);
    lemma_sq_dev_sum_bound(w, mean, 2 * cap);
    assert(w.len() * ((2 * cap) * (2 * cap)) == p * 4_000_000_000_000_000_000_000_000_000_000int)
        by (nonlinear_arith)
        requires
            w.len() == p,
            cap == 1_000_000_000_000_000,
    ;
    lemma_rdiv_nonneg_le(sq_dev_sum(w, mean), p, 4_000_000_000_000_000_000_000_000_000_000);
    lemma_int_sqrt_props(boll_var(cs, p, i));
    let sg: int = boll_sigma(cs, p, i);
    assert(sg <= 2_000_000_000_000_000) by (nonlinear_arith)
        requires
            0 <= sg,
            sg * sg <= 4_000_000_000_000_000_000_000_000_000_000,
    ;
}

/// The gap between the bands is twice `k` standard deviations at every
/// defined index.
pub proof fn lemma_bollinger_width(cs: Seq<int>, p: int, k: int, i: int)
    requires
        boll_defined(cs.len() as int, p, i),
    ensures
        (boll_mean(cs, p, i) + k * boll_sigma(cs, p, i)) - (boll_mean(cs, p, i) - k * boll_sigma(
            cs,
            p,
            i,
        )) == 2 * k * boll_sigma(cs, p, i),
{
    let sg: int = boll_sigma(cs, p, i);
    assert((2 * k) * sg == 2 * (k * sg)) by (nonlinear_arith);
}

/// Bollinger bands: population mean plus/minus `k` population standard
/// deviations over each full trailing window.
pub fn bollinger_bands(closes: &Vec<i64>, period: usize, k: i64) -> (r: (
    Vec<Option<i64>>,
    Vec<Option<i64>>,
))
    requires
        in_cap(to_ints(closes@), PRICE_CAP as int),
        0 <= k <= 1000,
    ensures
        r.0@ == boll_upper_series(to_ints(closes@), period as int, k as int),
        r.1@ == boll_lower_series(to_ints(closes@), period as int, k as int),
        r.0@.len() == closes@.len(),
        r.1@.len() == closes@.len(),
{
    let ghost cs: Seq<int> = to_ints(closes@);
    let n: usize = closes.len();
    let mut upper: Vec<Option<i64>> = Vec::new();
    let mut lower: Vec<Option<i64>> = Vec::new();
    if period == 0 || period > n || period > MAX_WINDOW {
        let mut i: usize = 0;
        while i < n
            invariant
                i <= n,
                upper@.len() == i,
                lower@.len() == i,
                period == 0 || period > n || period > MAX_WINDOW,
                forall|t: int| 0 <= t < i ==> upper@[t] is None,
                forall|t: int| 0 <= t < i ==> lower@[t] is None,
            decreases n - i,
        {
            upper.push(None);
            lower.push(None);
            i = i + 1;
        }
        proof {
            assert(upper@ =~= boll_upper_series(cs, period as int, k as int));
            assert(lower@ =~= boll_lower_series(cs, period as int, k as int));
        }
        return (upper, lower);
    }
    let mut i: usize = 0;
    while i < n
        invariant
            i <= n,
            n == cs.len(),
            n == closes@.len(),
            1 <= period <= n,
            period <= MAX_WINDOW,
            0 <= k <= 1000,
            cs == to_ints(closes@),
            in_cap(cs, PRICE_CAP as int),
            upper@.len() == i,
            lower@.len() == i,
            forall|t: int|
                0 <= t < i ==> upper@[t] == (if boll_defined(n as int, period as int, t) {
                    Some(
                        (boll_mean(cs, period as int, t) + k * boll_sigma(
                            cs,
                            period as int,
                            t,
                        )) as i64,
                    )
                } else {
                    None::<i64>
                }),
            forall|t: int|
                0 <= t < i ==> lower@[t] == (if boll_defined(n as int, period as int, t) {
                    Some(
                        (boll_mean(cs, period as int, t) - k * boll_sigma(
                            cs,
                            period as int,
                            t,
                        )) as i64,
                    )
                } else {
                    None::<i64>
                }),
        decreases n - i,
    {
        if i + 1 < period {
            upper.push(None);
            lower.push(None);
        } else {
            let lo: usize = i + 1 - period;
            let ghost w: Seq<int> = boll_window(cs, period as int, i as int);
            let mut ws: i128 = 0;
            let mut j: usize = lo;
            proof {
                assert(cs.subrange(lo as int, lo as int) =~= Seq::<int>::empty());
            }
            while j < i + 1
                invariant
                    lo <= j <= i + 1,
                    i < n == cs.len(),
                    n == closes@.len(),
                    cs == to_ints(closes@),
                    in_cap(cs, PRICE_CAP as int),
                    lo == i + 1 - period,
                    1 <= period <= MAX_WINDOW,
                    ws == seq_sum(cs.subrange(lo as int, j as int)),
                    -((j - lo) * (PRICE_CAP as int)) <= ws <= (j - lo) * (PRICE_CAP as int),
                decreases i + 1 - j,
            {
                proof {
                    assert(cs[j as int] == closes@[j as int] as int);
                    let t: Seq<int> = cs.subrange(lo as int, j + 1);
                    assert(t.drop_last() =~= cs.subrange(lo as int, j as int));
                    assert(t.last() == cs[j as int]);
                    assert((j + 1 - lo) * (PRICE_CAP as int) <= 10_000_001_000_000_000_000_000int)
                        by (nonlinear_arith)
                        requires
                            0 <= j + 1 - lo <= 10_000_001,
                    ;
                    assert((j - lo) * (PRICE_CAP as int) + PRICE_CAP as int == (j + 1 - lo) * (
                    PRICE_CAP as int)) by (nonlinear_arith);
                }
                ws = ws + closes[j] as i128;
                j = j + 1;
            }
            proof {
                assert(cs.subrange(lo as int, i + 1) =~= w);
                assert(w.len() == period);
                assert((period as int) * (PRICE_CAP as int) <= 10_000_001_000_000_000_000_000int)
                    by (nonlinear_arith)
                    requires
                        0 <= period as int <= 10_000_001,
                ;
                lemma_boll_bounds(cs, period as int, i as int);
            }
            let mean: i128 = rdiv_i128(ws, period as i128);
            proof {
                lemma_seq_sum_bound(w, PRICE_CAP as int);
                lemma_rdiv_abs_le(seq_sum(w), period as int, PRICE_CAP as int);
                assert(mean == boll_mean(cs, period as int, i as int));
            }
            let mut acc: i128 = 0;
            let mut j2: usize = lo;
            proof {
                assert(cs.subrange(lo as int, lo as int) =~= Seq::<int>::empty());
            }
            while j2 < i + 1
                invariant
                    lo <= j2 <= i + 1,
                    i < n == cs.len(),
                    n == closes@.len(),
                    cs == to_ints(closes@),
                    in_cap(cs, PRICE_CAP as int),
                    lo == i + 1 - period,
                    1 <= period <= MAX_WINDOW,
                    -PRICE_CAP <= mean <= PRICE_CAP,
                    mean == boll_mean(cs, period as int, i as int),
                    acc == sq_dev_sum(cs.subrange(lo as int, j2 as int), mean as int),
                    0 <= acc <= (j2 - lo) * (4_000_000_000_000_000_000_000_000_000_000int),
                decreases i + 1 - j2,
            {
                proof {
                    assert(cs[j2 as int] == closes@[j2 as int] as int);
                    let t: Seq<int> = cs.subrange(lo as int, j2 + 1);
                    assert(t.drop_last() =~= cs.subrange(lo as int, j2 as int));
                    assert(t.last() == cs[j2 as int]);
                    assert((j2 + 1 - lo) * (4_000_000_000_000_000_000_000_000_000_000int)
                        <= 40_000_010_000_000_000_000_000_000_000_000_000_000int)
                        by (nonlinear_arith)
                        requires
                            0 <= j2 + 1 - lo <= 10_000_001,
                    ;
                    assert((j2 - lo) * (4_000_000_000_000_000_000_000_000_000_000int)
                        + 4_000_000_000_000_000_000_000_000_000_000int == (j2 + 1 - lo) * (
                    4_000_000_000_000_000_000_000_000_000_000int)) by (nonlinear_arith);
                }
                let d: i128 = closes[j2] as i128 - mean;
                proof {
                    assert(0 <= d * d <= 4_000_000_000_000_000_000_000_000_000_000int)
                        by (nonlinear_arith)
                        requires
                            -2_000_000_000_000_000 <= d <= 2_000_000_000_000_000,
                    ;
                }
                acc = acc + d * d;
                j2 = j2 + 1;
            }
            proof {
                assert(cs.subrange(lo as int, i + 1) =~= w);
                assert(acc == sq_dev_sum(w, mean as int));
                lemma_sq_dev_sum_bound(w, mean as int, 2 * PRICE_CAP as int);
                assert(w.len() * ((2 * PRICE_CAP as int) * (2 * PRICE_CAP as int)) == (
                period as int) * (4_000_000_000_000_000_000_000_000_000_000int))
                    by (nonlinear_arith)
                    requires
                        w.len() == period as int,
                ;
                lemma_rdiv_nonneg_le(
                    acc as int,
                    period as int,
                    4_000_000_000_000_000_000_000_000_000_000,
                );
            }
            let var: i128 = rdiv_i128(acc, period as i128);
            let sigma: i128 = isqrt_i128(var);
            proof {
                assert(var == boll_var(cs, period as int, i as int));
                assert(sigma == boll_sigma(cs, period as int, i as int));
            }
            proof {
                assert(0 <= (k as int) * (sigma as int) <= 2_000_000_000_000_000_000int)
                    by (nonlinear_arith)
                    requires
                        0 <= k as int <= 1000,
                        0 <= sigma as int <= 2_000_000_000_000_000,
                ;
            }
            let up: i128 = mean + (k as i128) * sigma;
            let lw: i128 = mean - (k as i128) * sigma;
            upper.push(Some(up as i64));
            lower.push(Some(lw as i64));
        }
        i = i + 1;
    }
    proof {
        assert(upper@ =~= boll_upper_series(cs, period as int, k as int));
        assert(lower@ =~= boll_lower_series(cs, period as int, k as int));
    }
    (upper, lower)
}

// ------------------------------------------------------------------
// Relative strength index
// ------------------------------------------------------------------

pub open spec fn pos_part(x: int) -> int {
    if x >= 0 {
        x
    } else {
        0
    }
}

pub open spec fn neg_part(x: int) -> int {
    if x >= 0 {
        0
    } else {
        -x
    }
}

/// Sum of the positive price changes over indices `1..=t`.
pub open spec fn gain_sum(cs: Seq<int>, t: int) -> int
    decreases t,
{
    if t <= 0 {
        0
    } else {
        gain_sum(cs, t - 1) + pos_part(cs[t] - cs[t - 1])
    }
}

/// Sum of the magnitudes of the negative price changes over `1..=t`.
pub open spec fn loss_sum(cs: Seq<int>, t: int) -> int
    decreases t,
{
    if t <= 0 {
        0
    } else {
        loss_sum(cs, t - 1) + neg_part(cs[t] - cs[t - 1])
    }
}

/// Wilder's smoothed average gain at index `i`: seeded as the simple mean
/// of the first `p` changes (or as many as exist), then exponentially
/// smoothed with weight `(p - 1)/p`.
pub open spec fn avg_gain(cs: Seq<int>, p: int, i: int) -> int
    recommends
        p >= 1,
        cs.len() >= 2,
    decreases i,
{
    if i <= p || i <= 0 {
        rdiv(gain_sum(cs, if p <= cs.len() - 1 { p } else { cs.len() - 1 }), p)
    } else {
        let g: int = avg_gain(cs, p, i - 1);
        let ch: int = cs[i] - cs[i - 1];
        if ch >= 0 {
            rdiv(g * (p - 1) + ch, p)
        } else {
            rdiv(g * (p - 1), p)
        }
    }
}

pub open spec fn avg_loss(cs: Seq<int>, p: int, i: int) -> int
    recommends
        p >= 1,
        cs.len() >= 2,
    decreases i,
{
    if i <= p || i <= 0 {
        rdiv(loss_sum(cs, if p <= cs.len() - 1 { p } else { cs.len() - 1 }), p)
    } else {
        let l: int = avg_loss(cs, p, i - 1);
        let ch: int = cs[i] - cs[i - 1];
        if ch >= 0 {
            rdiv(l * (p - 1), p)
        } else {
            rdiv(l * (p - 1) - ch, p)
        }
    }
}

/// The RSI value at a defined index: 100 when the average loss is zero,
/// else `100 * g / (g + l)` in fixed-point sub-units.
pub open spec fn rsi_at(cs: Seq<int>, p: int, i: int) -> int {
    if avg_loss(cs, p, i) == 0 {
        100 * (scale_int())
    } else {
        rdiv(100 * scale_int() * avg_gain(cs, p, i), avg_gain(cs, p, i) + avg_loss(cs, p, i))
    }
}

pub open spec fn rsi_defined(len: int, p: int, i: int) -> bool {
    len >= 2 && p >= 1 && p <= i < len
}

pub open spec fn rsi_series(cs: Seq<int>, p: int) -> Seq<Option<i64>> {
    Seq::new(
        cs.len(),
        |i: int|
            if rsi_defined(cs.len() as int, p, i) {
                Some(rsi_at(cs, p, i) as i64)
            } else {
                None
            },
    )
}

pub open spec fn scale_int() -> int {
    crate::fixed::SCALE as int
}

proof fn lemma_change_sums_bound(cs: Seq<int>, t: int, cap: int)
    requires
        0 <= cap,
        in_cap(cs, cap),
        t < cs.len(),
    ensures
        0 <= gain_sum(cs, t) <= if t >= 0 {
            t * (2 * cap)
        } else {
            0
        },
        0 <= loss_sum(cs, t) <= if t >= 0 {
            t * (2 * cap)
        } else {
            0
        },
    decreases t,
{
    if t > 0 {
        lemma_change_sums_bound(cs, t - 1, cap);
        assert((t - 1) * (2 * cap) + 2 * cap == t * (2 * cap)) by (nonlinear_arith);
    }
}

/// Wilder's averages are nonnegative and capped by twice the price cap.
pub proof fn lemma_avg_bounds(cs: Seq<int>, p: int, i: int, cap: int)
    requires
        0 <= cap,
        in_cap(cs, cap),
        p >= 1,
        2 <= cs.len(),
        p <= cs.len() - 1,
        i < cs.len(),
    ensures
        0 <= avg_gain(cs, p, i) <= 2 * cap,
        0 <= avg_loss(cs, p, i) <= 2 * cap,
    decreases i,
{
    if i <= p {
        lemma_change_sums_bound(cs, p, cap);
        assert(p * (2 * cap) == (2 * cap) * p) by (nonlinear_arith);
        lemma_rdiv_nonneg_le(gain_sum(cs, p), p, 2 * cap);
        lemma_rdiv_nonneg_le(loss_sum(cs, p), p, 2 * cap);
    } else {
        lemma_avg_bounds(cs, p, i - 1, cap);
        let g: int = avg_gain(cs, p, i - 1);
        let l: int = avg_loss(cs, p, i - 1);
        let ch: int = cs[i] - cs[i - 1];
        assert(0 <= g * (p - 1) && g * (p - 1) + pos_part(ch) <= (2 * cap) * p)
            by (nonlinear_arith)
            requires
                0 <= g <= 2 * cap,
                p >= 1,
                0 <= pos_part(ch) <= 2 * cap,
        ;
        assert(0 <= l * (p - 1) && l * (p - 1) + neg_part(ch) <= (2 * cap) * p)
            by (nonlinear_arith)
            requires
                0 <= l <= 2 * cap,
                p >= 1,
                0 <= neg_part(ch) <= 2 * cap,
        ;
        if ch >= 0 {
            lemma_rdiv_nonneg_le(g * (p - 1) + ch, p, 2 * cap);
            lemma_rdiv_nonneg_le(l * (p - 1), p, 2 * cap);
        } else {
            lemma_rdiv_nonneg_le(g * (p - 1), p, 2 * cap);
            lemma_rdiv_nonneg_le(l * (p - 1) - ch, p, 2 * cap);
        }
    }
}

/// RSI values always lie in `[0, 100]` (in fixed-point sub-units).
pub proof fn lemma_rsi_range(cs: Seq<int>, p: int, i: int)
    requires
        in_cap(cs, PRICE_CAP as int),
        p >= 1,
        2 <= cs.len(),
        p <= cs.len() - 1,
        i < cs.len(),
    ensures
        0 <= rsi_at(cs, p, i) <= 100 * scale_int(),
{
    lemma_avg_bounds(cs, p, i, PRICE_CAP as int);
    let g: int = avg_gain(cs, p, i);
    let l: int = avg_loss(cs, p, i);
    if l != 0 {
        assert(100 * scale_int() * g <= (100 * scale_int()) * (g + l)) by (nonlinear_arith)
            requires
                0 <= g,
                1 <= l,
        ;
        assert(0 <= 100 * scale_int() * g) by (nonlinear_arith)
            requires
                0 <= g,
        ;
        lemma_rdiv_nonneg_le(100 * scale_int() * g, g + l, 100 * scale_int());
    }
}

/// Wilder's smoothed RSI. A series shorter than two observations, a zero
/// period, or a period that leaves no index beyond it, yields an entirely
/// undefined series.
pub fn relative_strength_index(closes: &Vec<i64>, period: usize) -> (r: Vec<Option<i64>>)
    requires
        in_cap(to_ints(closes@), PRICE_CAP as int),
    ensures
        r@ == rsi_series(to_ints(closes@), period as int),
        r@.len() == closes@.len(),
{
    let ghost cs: Seq<int> = to_ints(closes@);
    let n: usize = closes.len();
    let mut out: Vec<Option<i64>> = Vec::new();
    if n < 2 || period == 0 || period >= n {
        let mut i: usize = 0;
        while i < n
            invariant
                i <= n,
                out@.len() == i,
                n < 2 || period == 0 || period >= n,
                forall|t: int| 0 <= t < i ==> out@[t] is None,
            decreases n - i,
        {
            out.push(None);
            i = i + 1;
        }
        proof {
            assert(out@ =~= rsi_series(cs, period as int));
        }
        return out;
    }
    let mut gains: i128 = 0;
    let mut losses: i128 = 0;
    let mut i: usize = 1;
    while i <= period
        invariant
            1 <= i <= period + 1,
            1 <= period < n == cs.len(),
            n == closes@.len(),
            cs == to_ints(closes@),
            in_cap(cs, PRICE_CAP as int),
            gains == gain_sum(cs, i - 1),
            losses == loss_sum(cs, i - 1),
            0 <= gains <= (i - 1) * (2 * PRICE_CAP as int),
            0 <= losses <= (i - 1) * (2 * PRICE_CAP as int),
        decreases period + 1 - i,
    {
        proof {
            assert(cs[i as int] == closes@[i as int] as int);
            assert(cs[i - 1] == closes@[i - 1] as int);
            assert((i - 1) * (2 * PRICE_CAP as int) + 2 * PRICE_CAP as int == (i as int) * (2
                * PRICE_CAP as int)) by (nonlinear_arith);
            assert((i as int) * (2 * PRICE_CAP as int) <= 0x10000000000000000000000000000000int)
                by (nonlinear_arith)
                requires
                    0 <= i as int <= 0x10000000000000000,
            ;
        }
        let change: i64 = closes[i] - closes[i - 1];
        if change >= 0 {
            gains = gains + change as i128;
        } else {
            losses = losses - change as i128;
        }
        i = i + 1;
    }
    proof {
        assert((period as int) * (2 * PRICE_CAP as int) == (2 * PRICE_CAP as int) * (period as int))
            by (nonlinear_arith);
        lemma_rdiv_nonneg_le(gains as int, period as int, 2 * PRICE_CAP as int);
        lemma_rdiv_nonneg_le(losses as int, period as int, 2 * PRICE_CAP as int);
    }
    let mut g: i64 = rdiv_i128(gains, period as i128) as i64;
    let mut l: i64 = rdiv_i128(losses, period as i128) as i64;
    proof {
        assert(g == avg_gain(cs, period as int, period as int));
        assert(l == avg_loss(cs, period as int, period as int));
    }
    let mut out2: Vec<Option<i64>> = Vec::new();
    let mut i2: usize = 0;
    while i2 < period
        invariant
            i2 <= period < n,
            out2@.len() == i2,
            forall|t: int| 0 <= t < i2 ==> out2@[t] is None,
        decreases period - i2,
    {
        out2.push(None);
        i2 = i2 + 1;
    }
    let mut i3: usize = period;
    while i3 < n
        invariant
            period <= i3 <= n,
            1 <= period < n == cs.len(),
            n == closes@.len(),
            cs == to_ints(closes@),
            in_cap(cs, PRICE_CAP as int),
            out2@.len() == i3,
            g == avg_gain(cs, period as int, i3 - 1),
            l == avg_loss(cs, period as int, i3 - 1),
            0 <= g <= 2 * PRICE_CAP,
            0 <= l <= 2 * PRICE_CAP,
            forall|t: int|
                0 <= t < i3 ==> out2@[t] == (if rsi_defined(n as int, period as int, t) {
                    Some(rsi_at(cs, period as int, t) as i64)
                } else {
                    None::<i64>
                }),
        decreases n - i3,
    {
        if i3 > period {
            proof {
                assert(cs[i3 as int] == closes@[i3 as int] as int);
                assert(cs[i3 - 1] == closes@[i3 - 1] as int);
                lemma_avg_bounds(cs, period as int, i3 as int, PRICE_CAP as int);
                assert(0 <= (g as int) * (period as int - 1) && (g as int) * (period as int - 1)
                    <= 0x10000000000000000000000000000000int && 0 <= (l as int) * (
                period as int - 1) && (l as int) * (period as int - 1)
                    <= 0x10000000000000000000000000000000int) by (nonlinear_arith)
                    requires
                        0 <= g as int <= 2 * PRICE_CAP as int,
                        0 <= l as int <= 2 * PRICE_CAP as int,
                        1 <= period as int <= 0x10000000000000000,
                ;
                assert((2 * PRICE_CAP as int) * (period as int)
                    <= 0x10000000000000000000000000000000int) by (nonlinear_arith)
                    requires
                        1 <= period as int <= 0x10000000000000000,
                ;
                assert(((2 * PRICE_CAP as int) * (period as int - 1)) + 2 * PRICE_CAP as int == (2
                    * PRICE_CAP as int) * (period as int)) by (nonlinear_arith);
                assert((g as int) * (period as int - 1) <= (2 * PRICE_CAP as int) * (
                period as int - 1)) by (nonlinear_arith)
                    requires
                        0 <= g as int <= 2 * PRICE_CAP as int,
                        1 <= period as int,
                ;
                assert((l as int) * (period as int - 1) <= (2 * PRICE_CAP as int) * (
                period as int - 1)) by (nonlinear_arith)
                    requires
                        0 <= l as int <= 2 * PRICE_CAP as int,
                        1 <= period as int,
                ;
            }
            let change: i64 = closes[i3] - closes[i3 - 1];
            let pm1: i128 = period as i128 - 1;
            if change >= 0 {
                let gnum: i128 = (g as i128) * pm1 + change as i128;
                let lnum: i128 = (l as i128) * pm1;
                proof {
                    lemma_rdiv_nonneg_le(gnum as int, period as int, 2 * PRICE_CAP as int);
                    lemma_rdiv_nonneg_le(lnum as int, period as int, 2 * PRICE_CAP as int);
                }
                g = rdiv_i128(gnum, period as i128) as i64;
                l = rdiv_i128(lnum, period as i128) as i64;
            } else {
                let gnum: i128 = (g as i128) * pm1;
                let lnum: i128 = (l as i128) * pm1 - change as i128;
                proof {
                    lemma_rdiv_nonneg_le(gnum as int, period as int, 2 * PRICE_CAP as int);
                    lemma_rdiv_nonneg_le(lnum as int, period as int, 2 * PRICE_CAP as int);
                }
                g = rdiv_i128(gnum, period as i128) as i64;
                l = rdiv_i128(lnum, period as i128) as i64;
            }
        }
        proof {
            lemma_avg_bounds(cs, period as int, i3 as int, PRICE_CAP as int);
            lemma_rsi_range(cs, period as int, i3 as int);
        }
        if l == 0 {
            out2.push(Some(100 * crate::fixed::SCALE));
        } else {
            let num: i128 = 100 * (crate::fixed::SCALE as i128) * (g as i128);
            let den: i128 = g as i128 + l as i128;
            proof {
                assert(0 <= num <= 0x10000000000000000000000000000000int) by (nonlinear_arith)
                    requires
                        0 <= g as int <= 2 * PRICE_CAP as int,
                        num == 100 * (scale_int()) * (g as int),
                ;
            }
            let v: i128 = rdiv_i128(num, den);
            out2.push(Some(v as i64));
        }
        i3 = i3 + 1;
    }
    proof {
        assert(out2@ =~= rsi_series(cs, period as int));
    }
    out2
}

/// On a strictly increasing series the average loss stays zero, so every
/// defined RSI value is exactly 100.
pub proof fn lemma_rsi_increasing(cs: Seq<int>, p: int, i: int)
    requires
        2 <= cs.len(),
        p >= 1,
        p <= cs.len() - 1,
        forall|t: int| 1 <= t < cs.len() ==> #[trigger] cs[t] > cs[t - 1],
        p <= i < cs.len(),
    ensures
        rsi_at(cs, p, i) == 100 * scale_int(),
{
    lemma_avg_loss_zero(cs, p, i);
}

proof fn lemma_loss_sum_zero(cs: Seq<int>, t: int)
    requires
        forall|u: int| 1 <= u < cs.len() ==> #[trigger] cs[u] > cs[u - 1],
        t < cs.len(),
    ensures
        loss_sum(cs, t) == 0,
    decreases t,
{
    if t > 0 {
        lemma_loss_sum_zero(cs, t - 1);
    }
}

proof fn lemma_avg_loss_zero(cs: Seq<int>, p: int, i: int)
    requires
        2 <= cs.len(),
        p >= 1,
        p <= cs.len() - 1,
        forall|t: int| 1 <= t < cs.len() ==> #[trigger] cs[t] > cs[t - 1],
        i < cs.len(),
    ensures
        avg_loss(cs, p, i) == 0,
    decreases i,
{
    if i <= p {
        lemma_loss_sum_zero(cs, p);
        vstd::arithmetic::div_mod::lemma_basic_div(p / 2, p);
        assert(rdiv(0, p) == 0);
    } else {
        lemma_avg_loss_zero(cs, p, i - 1);
        vstd::arithmetic::div_mod::lemma_basic_div(p / 2, p);
        assert(rdiv(0, p) == 0);
        assert(avg_loss(cs, p, i - 1) * (p - 1) == 0) by (nonlinear_arith)
            requires
                avg_loss(cs, p, i - 1) == 0,
        ;
    }
}

// ------------------------------------------------------------------
// MACD
// ------------------------------------------------------------------

/// The MACD line: fast EMA minus slow EMA where both are defined.
pub open spec fn macd_line_at(cs: Seq<int>, fast: int, slow: int, i: int) -> Option<int> {
    if ema_defined(cs.len() as int, fast, i) && ema_defined(cs.len() as int, slow, i) {
        Some(ema_at(cs, fast, i) - ema_at(cs, slow, i))
    } else {
        None
    }
}

/// The MACD line with undefined entries substituted by zero, the input of
/// the signal EMA (a deliberate simplification of this engine).
pub open spec fn macd_fill(cs: Seq<int>, fast: int, slow: int) -> Seq<int> {
    Seq::new(
        cs.len(),
        |i: int|
            match macd_line_at(cs, fast, slow, i) {
                Some(v) => v,
                None => 0,
            },
    )
}

pub open spec fn macd_signal_at(cs: Seq<int>, fast: int, slow: int, sp: int, i: int) -> Option<
    int,
> {
    if ema_defined(cs.len() as int, sp, i) {
        Some(ema_at(macd_fill(cs, fast, slow), sp, i))
    } else {
        None
    }
}

/// Histogram: MACD minus signal exactly where both are defined, undefined
/// where either operand is undefined.
pub open spec fn macd_hist_at(cs: Seq<int>, fast: int, slow: int, sp: int, i: int) -> Option<
    int,
> {
    match (macd_line_at(cs, fast, slow, i), macd_signal_at(cs, fast, slow, sp, i)) {
        (Some(m), Some(s)) => Some(m - s),
        _ => None,
    }
}

pub open spec fn opt_to_i64(v: Option<int>) -> Option<i64> {
    match v {
        Some(x) => Some(x as i64),
        None => None,
    }
}

pub open spec fn macd_line_series(cs: Seq<int>, fast: int, slow: int) -> Seq<Option<i64>> {
    Seq::new(cs.len(), |i: int| opt_to_i64(macd_line_at(cs, fast, slow, i)))
}

pub open spec fn macd_signal_series(cs: Seq<int>, fast: int, slow: int, sp: int) -> Seq<
    Option<i64>,
> {
    Seq::new(cs.len(), |i: int| opt_to_i64(macd_signal_at(cs, fast, slow, sp, i)))
}

pub open spec fn macd_hist_series(cs: Seq<int>, fast: int, slow: int, sp: int) -> Seq<
    Option<i64>,
> {
    Seq::new(cs.len(), |i: int| opt_to_i64(macd_hist_at(cs, fast, slow, sp, i)))
}

/// MACD line, signal line and histogram.
pub struct MacdSeries {
    pub macd: Vec<Option<i64>>,
    pub signal: Vec<Option<i64>>,
    pub histogram: Vec<Option<i64>>,
}

/// MACD: difference of two EMAs, the signal EMA of the zero-filled MACD
/// line, and their difference where both are defined.
pub fn macd(closes: &Vec<i64>, fast: usize, slow: usize, signal_period: usize) -> (r: MacdSeries)
    requires
        in_cap(to_ints(closes@), PRICE_CAP as int),
    ensures
        r.macd@ == macd_line_series(to_ints(closes@), fast as int, slow as int),
        r.signal@ == macd_signal_series(to_ints(closes@), fast as int, slow as int,
            signal_period as int),
        r.histogram@ == macd_hist_series(to_ints(closes@), fast as int, slow as int,
            signal_period as int),
        r.macd@.len() == closes@.len(),
        r.signal@.len() == closes@.len(),
        r.histogram@.len() == closes@.len(),
{
    let ghost cs: Seq<int> = to_ints(closes@);
    let n: usize = closes.len();
    let fast_ema: Vec<Option<i64>> = exponential_moving_average(closes, fast);
    let slow_ema: Vec<Option<i64>> = exponential_moving_average(closes, slow);
    let mut line: Vec<Option<i64>> = Vec::new();
    let mut fill: Vec<i64> = Vec::new();
    let mut i: usize = 0;
    while i < n
        invariant
            i <= n,
            n == cs.len(),
            n == closes@.len(),
            cs == to_ints(closes@),
            in_cap(cs, PRICE_CAP as int),
            fast_ema@ == ema_series(cs, fast as int),
            slow_ema@ == ema_series(cs, slow as int),
            line@.len() == i,
            fill@.len() == i,
            forall|t: int|
                0 <= t < i ==> line@[t] == opt_to_i64(macd_line_at(cs, fast as int, slow as int, t)),
            forall|t: int| 0 <= t < i ==> fill@[t] as int == macd_fill(cs, fast as int, slow as int)[t],
        decreases n - i,
    {
        proof {
            if ema_defined(n as int, fast as int, i as int) && ema_defined(
                n as int,
                slow as int,
                i as int,
            ) {
                lemma_ema_bounded(cs, fast as int, PRICE_CAP as int, i as int);
                lemma_ema_bounded(cs, slow as int, PRICE_CAP as int, i as int);
            }
        }
        let fv: Option<i64> = fast_ema[i];
        let sv: Option<i64> = slow_ema[i];
        match (fv, sv) {
            (Some(f), Some(s)) => {
                let m: i64 = f - s;
                line.push(Some(m));
                fill.push(m);
            },
            _ => {
                line.push(None);
                fill.push(0);
            },
        }
        i = i + 1;
    }
    proof {
        assert(line@ =~= macd_line_series(cs, fast as int, slow as int));
        assert(to_ints(fill@) =~= macd_fill(cs, fast as int, slow as int));
        assert forall|t: int|
            0 <= t < macd_fill(cs, fast as int, slow as int).len() implies -(2 * PRICE_CAP as int)
            <= #[trigger] macd_fill(cs, fast as int, slow as int)[t] <= 2 * PRICE_CAP as int by {
            if ema_defined(n as int, fast as int, t) && ema_defined(n as int, slow as int, t) {
                lemma_ema_bounded(cs, fast as int, PRICE_CAP as int, t);
                lemma_ema_bounded(cs, slow as int, PRICE_CAP as int, t);
            }
        }
    }
    let signal: Vec<Option<i64>> = exponential_moving_average(&fill, signal_period);
    let ghost fillseq: Seq<int> = macd_fill(cs, fast as int, slow as int);
    let mut hist: Vec<Option<i64>> = Vec::new();
    let mut i2: usize = 0;
    while i2 < n
        invariant
            i2 <= n,
            n == cs.len(),
            line@.len() == n,
            signal@.len() == n,
            fillseq == macd_fill(cs, fast as int, slow as int),
            to_ints(fill@) == fillseq,
            in_cap(cs, PRICE_CAP as int),
            in_cap(fillseq, 2 * PRICE_CAP as int),
            line@ == macd_line_series(cs, fast as int, slow as int),
            signal@ == ema_series(fillseq, signal_period as int),
            hist@.len() == i2,
            forall|t: int|
                0 <= t < i2 ==> hist@[t] == opt_to_i64(
                    macd_hist_at(cs, fast as int, slow as int, signal_period as int, t),
                ),
        decreases n - i2,
    {
        proof {
            if ema_defined(n as int, fast as int, i2 as int) && ema_defined(
                n as int,
                slow as int,
                i2 as int,
            ) {
                lemma_ema_bounded(cs, fast as int, PRICE_CAP as int, i2 as int);
                lemma_ema_bounded(cs, slow as int, PRICE_CAP as int, i2 as int);
            }
            if ema_defined(n as int, signal_period as int, i2 as int) {
                lemma_ema_bounded(fillseq, signal_period as int, 2 * PRICE_CAP as int, i2 as int);
            }
        }
        let mv: Option<i64> = line[i2];
        let gv: Option<i64> = signal[i2];
        match (mv, gv) {
            (Some(m), Some(s)) => {
                hist.push(Some(m - s));
            },
            _ => {
                hist.push(None);
            },
        }
        i2 = i2 + 1;
    }
    proof {
        assert(signal@ =~= macd_signal_series(cs, fast as int, slow as int, signal_period as int));
        assert(hist@ =~= macd_hist_series(cs, fast as int, slow as int, signal_period as int));
    }
    MacdSeries { macd: line, signal, histogram: hist }
}

// ------------------------------------------------------------------
// Opening range breakout
// ------------------------------------------------------------------

/// Days-to-millis shift that keeps every in-range local reading
/// nonnegative for the day computation (760000 whole days).
pub const DAY_SHIFT_MILLIS: i64 = 65_664_000_000_000;

/// The wall-clock reading of a candle's instant in its stored local
/// offset.
pub open spec fn local_millis(c: crate::candle::Candle) -> int {
    c.ts_utc_millis + c.local_offset_secs * 1000
}

/// The UTC instant of 09:00 local time on the calendar date of the last
/// candle's local reading.
pub open spec fn orb_start_utc(last: crate::candle::Candle) -> int {
    let shifted: int = local_millis(last) + DAY_SHIFT_MILLIS;
    let day_wall: int = (shifted / 86_400_000) * 86_400_000 - DAY_SHIFT_MILLIS;
    day_wall + 32_400_000 - last.local_offset_secs * 1000
}

pub open spec fn orb_end_utc(last: crate::candle::Candle, minutes: int) -> int {
    orb_start_utc(last) + minutes * 60_000
}

/// A candle lies in the opening-range window, inclusive on both ends.
pub open spec fn in_orb_window(c: crate::candle::Candle, start_utc: int, end_utc: int) -> bool {
    start_utc <= c.ts_utc_millis <= end_utc
}

/// Opening-range summary: window bounds as UTC instants with the local
/// offset they were derived in, and the price extremes inside the window.
#[derive(Clone, Copy, PartialEq, Eq, Structural, Debug)]
pub struct OrbLevels {
    pub start_utc_millis: i64,
    pub end_utc_millis: i64,
    pub local_offset_secs: i32,
    pub high: i64,
    pub low: i64,
}

/// What a correct opening-range result looks like for a series.
pub open spec fn orb_result_ok(
    candles: Seq<crate::candle::Candle>,
    minutes: int,
    r: Option<OrbLevels>,
) -> bool {
    match r {
        Some(o) => {
            &&& candles.len() > 0
            &&& o.start_utc_millis == orb_start_utc(candles.last())
            &&& o.end_utc_millis == orb_end_utc(candles.last(), minutes)
            &&& o.local_offset_secs == candles.last().local_offset_secs
            &&& exists|j: int|
                0 <= j < candles.len() && in_orb_window(
                    #[trigger] candles[j],
                    o.start_utc_millis as int,
                    o.end_utc_millis as int,
                ) && candles[j].high == o.high
            &&& exists|j: int|
                0 <= j < candles.len() && in_orb_window(
                    #[trigger] candles[j],
                    o.start_utc_millis as int,
                    o.end_utc_millis as int,
                ) && candles[j].low == o.low
            &&& forall|j: int|
                0 <= j < candles.len() && in_orb_window(
                    #[trigger] candles[j],
                    o.start_utc_millis as int,
                    o.end_utc_millis as int,
                ) ==> candles[j].high <= o.high && candles[j].low >= o.low
        },
        None => candles.len() == 0 || forall|j: int|
            0 <= j < candles.len() ==> !in_orb_window(
                #[trigger] candles[j],
                orb_start_utc(candles.last()),
                orb_end_utc(candles.last(), minutes),
            ),
    }
}

/// Opening-range breakout: the window opens at 09:00 local time on the
/// last candle's local calendar date and lasts `minutes`; the result
/// holds the extremes over the candles inside the window, inclusive, or
/// nothing when no candle falls inside it.
pub fn compute_opening_range(candles: &Vec<crate::candle::Candle>, minutes: u32) -> (r: Option<
    OrbLevels,
>)
    requires
        forall|i: int|
            0 <= i < candles@.len() ==> crate::candle::candle_wf(#[trigger] candles@[i]),
    ensures
        orb_result_ok(candles@, minutes as int, r),
{
    let n: usize = candles.len();
    if n == 0 {
        return None;
    }
    let last: crate::candle::Candle = candles[n - 1];
    proof {
        assert(candles@[n - 1] == candles@.last());
    }
    let off_ms: i64 = (last.local_offset_secs as i64) * 1000;
    let local: i64 = last.ts_utc_millis + off_ms;
    let shifted: i64 = local + DAY_SHIFT_MILLIS;
    let day_wall: i64 = (shifted / 86_400_000) * 86_400_000 - DAY_SHIFT_MILLIS;
    let start: i64 = day_wall + 32_400_000 - off_ms;
    let end: i64 = start + (minutes as i64) * 60_000;
    let mut found: bool = false;
    let mut hi: i64 = 0;
    let mut lo: i64 = 0;
    let mut j: usize = 0;
    while j < n
        invariant
            j <= n,
            n == candles@.len(),
            n > 0,
            last == candles@.last(),
            start == orb_start_utc(candles@.last()),
            end == orb_end_utc(candles@.last(), minutes as int),
            found <==> exists|t: int|
                0 <= t < j && in_orb_window(#[trigger] candles@[t], start as int, end as int),
            found ==> exists|t: int|
                0 <= t < j && in_orb_window(#[trigger] candles@[t], start as int, end as int)
                    && candles@[t].high == hi,
            found ==> exists|t: int|
                0 <= t < j && in_orb_window(#[trigger] candles@[t], start as int, end as int)
                    && candles@[t].low == lo,
            forall|t: int|
                0 <= t < j && in_orb_window(#[trigger] candles@[t], start as int, end as int)
                    ==> candles@[t].high <= hi && candles@[t].low >= lo,
        decreases n - j,
    {
        let c: crate::candle::Candle = candles[j];
        if start <= c.ts_utc_millis && c.ts_utc_millis <= end {
            if !found {
                hi = c.high;
                lo = c.low;
                found = true;
            } else {
                if c.high > hi {
                    hi = c.high;
                }
                if c.low < lo {
                    lo = c.low;
                }
            }
        }
        j = j + 1;
    }
    if !found {
        return None;
    }
    Some(
        OrbLevels {
            start_utc_millis: start,
            end_utc_millis: end,
            local_offset_secs: last.local_offset_secs,
            high: hi,
            low: lo,
        },
    )
}

// ------------------------------------------------------------------
// Chart response
// ------------------------------------------------------------------

pub const DEFAULT_BOLLINGER_PERIOD: usize = 20;

pub const BOLLINGER_K: i64 = 2;

pub const RSI_PERIOD: usize = 14;

pub const MACD_FAST: usize = 12;

pub const MACD_SLOW: usize = 26;

pub const MACD_SIGNAL: usize = 9;

/// One named indicator series, keyed by its period.
pub struct IndicatorSeries {
    pub period: u32,
    pub values: Vec<Option<i64>>,
}

/// Bollinger upper and lower bands.
pub struct BollingerSeries {
    pub upper: Vec<Option<i64>>,
    pub lower: Vec<Option<i64>>,
}

/// The chart result: the candle series with parallel-indexed optional
/// indicator series (every series has the candle list's length) and at
/// most one opening-range summary.
pub struct ChartResponse {
    pub candles: Vec<crate::candle::Candle>,
    pub sma: Vec<IndicatorSeries>,
    pub ema: Vec<IndicatorSeries>,
    pub bollinger: Option<BollingerSeries>,
    pub rsi: Option<Vec<Option<i64>>>,
    pub macd: Option<MacdSeries>,
    pub volume: Option<Vec<Option<i64>>>,
    pub orb: Option<OrbLevels>,
}

/// The closing prices of a candle series.
pub open spec fn closes_of(candles: Seq<crate::candle::Candle>) -> Seq<int> {
    Seq::new(candles.len(), |i: int| candles[i].close as int)
}

/// The volume pass-through series.
pub open spec fn volume_seq(candles: Seq<crate::candle::Candle>) -> Seq<Option<i64>> {
    Seq::new(candles.len(), |i: int| candles[i].volume)
}

/// The SMA series requested by the option list: one entry per period
/// greater than one, in order.
pub open spec fn sma_entries(cs: Seq<int>, ps: Seq<u32>) -> Seq<(u32, Seq<Option<i64>>)>
    decreases ps.len(),
{
    if ps.len() == 0 {
        Seq::empty()
    } else {
        let rest: Seq<(u32, Seq<Option<i64>>)> = sma_entries(cs, ps.drop_last());
        if ps.last() > 1 {
            rest.push((ps.last(), sma_series(cs, ps.last() as int)))
        } else {
            rest
        }
    }
}

/// The EMA series requested by the option list, likewise.
pub open spec fn ema_entries(cs: Seq<int>, ps: Seq<u32>) -> Seq<(u32, Seq<Option<i64>>)>
    decreases ps.len(),
{
    if ps.len() == 0 {
        Seq::empty()
    } else {
        let rest: Seq<(u32, Seq<Option<i64>>)> = ema_entries(cs, ps.drop_last());
        if ps.last() > 1 {
            rest.push((ps.last(), ema_series(cs, ps.last() as int)))
        } else {
            rest
        }
    }
}

pub open spec fn entries_match(
    out: Seq<IndicatorSeries>,
    want: Seq<(u32, Seq<Option<i64>>)>,
) -> bool {
    &&& out.len() == want.len()
    &&& forall|k: int|
        0 <= k < out.len() ==> (#[trigger] out[k]).period == want[k].0 && out[k].values@
            == want[k].1
}

/// What a correct chart result holds, per field, for a candle series and
/// an option set.
pub open spec fn chart_response_matches(
    candles: Seq<crate::candle::Candle>,
    options: crate::models::IndicatorOptions,
    r: ChartResponse,
) -> bool {
    &&& r.candles@ == candles
    &&& entries_match(r.sma@, sma_entries(closes_of(candles), options.sma_periods@))
    &&& entries_match(r.ema@, ema_entries(closes_of(candles), options.ema_periods@))
    &&& match r.bollinger {
        Some(b) => options.show_bollinger && b.upper@ == boll_upper_series(
            closes_of(candles),
            DEFAULT_BOLLINGER_PERIOD as int,
            BOLLINGER_K as int,
        ) && b.lower@ == boll_lower_series(
            closes_of(candles),
            DEFAULT_BOLLINGER_PERIOD as int,
            BOLLINGER_K as int,
        ),
        None => !options.show_bollinger,
    }
    &&& match r.rsi {
        Some(v) => options.show_rsi && v@ == rsi_series(closes_of(candles), RSI_PERIOD as int),
        None => !options.show_rsi,
    }
    &&& match r.macd {
        Some(m) => options.show_macd && m.macd@ == macd_line_series(
            closes_of(candles),
            MACD_FAST as int,
            MACD_SLOW as int,
        ) && m.signal@ == macd_signal_series(
            closes_of(candles),
            MACD_FAST as int,
            MACD_SLOW as int,
            MACD_SIGNAL as int,
        ) && m.histogram@ == macd_hist_series(
            closes_of(candles),
            MACD_FAST as int,
            MACD_SLOW as int,
            MACD_SIGNAL as int,
        ),
        None => !options.show_macd,
    }
    &&& match r.volume {
        Some(v) => options.show_volume && v@ == volume_seq(candles),
        None => !options.show_volume,
    }
    &&& orb_result_ok(candles, options.orb_minutes as int, r.orb)
}

/// Builds the whole chart result from an assembled candle series and the
/// indicator options. Never fails: malformed parameters only degrade the
/// affected series to all-undefined.
pub fn build_chart_response(
    candles: Vec<crate::candle::Candle>,
    options: &crate::models::IndicatorOptions,
) -> (r: ChartResponse)
    requires
        forall|i: int|
            0 <= i < candles@.len() ==> crate::candle::candle_wf(#[trigger] candles@[i]),
    ensures
        chart_response_matches(candles@, *options, r),
{
    let ghost cseq: Seq<crate::candle::Candle> = candles@;
    let n: usize = candles.len();
    let mut closes: Vec<i64> = Vec::new();
    let mut i: usize = 0;
    while i < n
        invariant
            i <= n,
            n == candles@.len(),
            closes@.len() == i,
            forall|t: int| 0 <= t < i ==> closes@[t] == candles@[t].close,
        decreases n - i,
    {
        closes.push(candles[i].close);
        i = i + 1;
    }
    let ghost cs: Seq<int> = closes_of(candles@);
    proof {
        assert(to_ints(closes@) =~= cs);
        assert forall|t: int| 0 <= t < cs.len() implies -(PRICE_CAP as int) <= #[trigger] cs[t]
            <= PRICE_CAP as int by {
            assert(crate::candle::candle_wf(candles@[t]));
        }
    }
    let mut sma_list: Vec<IndicatorSeries> = Vec::new();
    let np: usize = options.sma_periods.len();
    let mut pi: usize = 0;
    proof {
        assert(options.sma_periods@.take(0) =~= Seq::<u32>::empty());
    }
    while pi < np
        invariant
            pi <= np,
            np == options.sma_periods@.len(),
            cs == to_ints(closes@),
            cs == closes_of(candles@),
            in_cap(cs, PRICE_CAP as int),
            entries_match(sma_list@, sma_entries(cs, options.sma_periods@.take(pi as int))),
        decreases np - pi,
    {
        let p: u32 = options.sma_periods[pi];
        proof {
            assert(options.sma_periods@.take(pi + 1).drop_last() =~= options.sma_periods@.take(
                pi as int,
            ));
            assert(options.sma_periods@.take(pi + 1).last() == p);
        }
        if p > 1 {
            let vals: Vec<Option<i64>> = simple_moving_average(&closes, p as usize);
            sma_list.push(IndicatorSeries { period: p, values: vals });
        }
        pi = pi + 1;
    }
    proof {
        assert(options.sma_periods@.take(np as int) =~= options.sma_periods@);
    }
    let mut ema_list: Vec<IndicatorSeries> = Vec::new();
    let nq: usize = options.ema_periods.len();
    let mut qi: usize = 0;
    proof {
        assert(options.ema_periods@.take(0) =~= Seq::<u32>::empty());
    }
    while qi < nq
        invariant
            qi <= nq,
            nq == options.ema_periods@.len(),
            cs == to_ints(closes@),
            cs == closes_of(candles@),
            in_cap(cs, PRICE_CAP as int),
            entries_match(ema_list@, ema_entries(cs, options.ema_periods@.take(qi as int))),
        decreases nq - qi,
    {
        let p: u32 = options.ema_periods[qi];
        proof {
            assert(options.ema_periods@.take(qi + 1).drop_last() =~= options.ema_periods@.take(
                qi as int,
            ));
            assert(options.ema_periods@.take(qi + 1).last() == p);
        }
        if p > 1 {
            let vals: Vec<Option<i64>> = exponential_moving_average(&closes, p as usize);
            ema_list.push(IndicatorSeries { period: p, values: vals });
        }
        qi = qi + 1;
    }
    proof {
        assert(options.ema_periods@.take(nq as int) =~= options.ema_periods@);
    }
    let bollinger: Option<BollingerSeries> = if options.show_bollinger {
        let bands: (Vec<Option<i64>>, Vec<Option<i64>>) = bollinger_bands(
            &closes,
            DEFAULT_BOLLINGER_PERIOD,
            BOLLINGER_K,
        );
        Some(BollingerSeries { upper: bands.0, lower: bands.1 })
    } else {
        None
    };
    let rsi: Option<Vec<Option<i64>>> = if options.show_rsi {
        Some(relative_strength_index(&closes, RSI_PERIOD))
    } else {
        None
    };
    let macd_out: Option<MacdSeries> = if options.show_macd {
        Some(macd(&closes, MACD_FAST, MACD_SLOW, MACD_SIGNAL))
    } else {
        None
    };
    let volume: Option<Vec<Option<i64>>> = if options.show_volume {
        let mut vols: Vec<Option<i64>> = Vec::new();
        let mut vi: usize = 0;
        while vi < n
            invariant
                vi <= n,
                n == candles@.len(),
                vols@.len() == vi,
                forall|t: int| 0 <= t < vi ==> vols@[t] == candles@[t].volume,
            decreases n - vi,
        {
            vols.push(candles[vi].volume);
            vi = vi + 1;
        }
        proof {
            assert(vols@ =~= volume_seq(candles@));
        }
        Some(vols)
    } else {
        None
    };
    let orb: Option<OrbLevels> = compute_opening_range(&candles, options.orb_minutes);
    ChartResponse {
        candles,
        sma: sma_list,
        ema: ema_list,
        bollinger,
        rsi,
        macd: macd_out,
        volume,
        orb,
    }
}

/// SMA definedness pattern: for a usable period, exactly the indices
/// from `p - 1` on are defined, so a series of length `n` carries
/// `n - p + 1` defined trailing values and no others.
pub proof fn lemma_sma_defined_pattern(cs: Seq<int>, p: int, i: int)
    requires
        0 <= i < cs.len(),
    ensures
        sma_series(cs, p)[i] is Some <==> (1 <= p <= cs.len() && i >= p - 1),
{
}

/// The histogram is defined exactly where both the MACD line and the
/// signal line are, and is their difference there.
pub proof fn lemma_macd_histogram(cs: Seq<int>, fast: int, slow: int, sp: int, i: int)
    requires
        0 <= i < cs.len(),
    ensures
        macd_hist_at(cs, fast, slow, sp, i) is Some <==> (macd_line_at(cs, fast, slow, i) is Some
            && macd_signal_at(cs, fast, slow, sp, i) is Some),
        macd_hist_at(cs, fast, slow, sp, i) is Some ==> macd_hist_at(cs, fast, slow, sp, i)
            == Some(
            macd_line_at(cs, fast, slow, i).unwrap() - macd_signal_at(
                cs,
                fast,
                slow,
                sp,
                i,
            ).unwrap(),
        ),
{
}

/// EMA with period one reproduces a constant series exactly, from index
/// zero onward.
pub proof fn lemma_ema_one_constant(cs: Seq<int>, c: int, i: int)
    requires
        cs.len() > 0,
        forall|t: int| 0 <= t < cs.len() ==> #[trigger] cs[t] == c,
        0 <= i < cs.len(),
    ensures
        ema_at(cs, 1, i) == c,
        -0x8000000000000000 <= c < 0x8000000000000000 ==> ema_series(cs, 1)[i] == Some(c as i64),
    decreases i,
{
    if i > 0 {
        lemma_ema_one_constant(cs, c, i - 1);
    }
}

} // verus!

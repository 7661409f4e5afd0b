//! The points that change hands in one match.
//!
//! With `K = 32` and a rating gap `d = loser - winner`, the winner's expected
//! score is `e = 1 / (1 + 10^(d/400))` and the winner gains `32 * (1 - e)`
//! points, truncated toward zero. The loser gives up `32 * e'` points,
//! truncated, where `e' = 1 / (1 + 10^(-d/400))` is the loser's expected score.
//! Since `1 - e = e'`, both numbers are the same: the exchange is zero-sum.
//!
//! Everything here is stated and computed over integers. For `x = 10^(d/400)`
//! the exchanged amount is `floor(32 * x / (1 + x))`, and
//! `k <= 32 * x / (1 + x)` holds exactly when `k^400 <= 10^d * (32 - k)^400`.
//! The result is that of exact arithmetic. Double precision gives the same
//! for every gap below 6382; from there on its rounding would report a full 32
//! where the exact amount stays below.

use vstd::arithmetic::power::{
    lemma_pow0, lemma_pow1, lemma_pow_adds, lemma_pow_increases, lemma_pow_positive, pow,
};
use vstd::prelude::*;

verus! {

/// The K-factor: what is at stake in one match. The points that change hands
/// stay below it.
pub const STAKE: i32 = 32;

/// Whether at least `k` points change hands at gap `d`, that is whether
/// `k <= 32 * x / (1 + x)` for `x = 10^(d/400)`.
pub open spec fn covers(k: int, d: int) -> bool {
    if d >= 0 {
        pow(k, 400) <= pow(10, d as nat) * pow(STAKE - k, 400)
    } else {
        pow(k, 400) * pow(10, (-d) as nat) <= pow(STAKE - k, 400)
    }
}

/// The largest `k <= n` that `covers(k, d)`, or 0.
pub open spec fn largest_covered(n: nat, d: int) -> int
    decreases n,
{
    if n == 0 {
        0
    } else if covers(n as int, d) {
        n as int
    } else {
        largest_covered((n - 1) as nat, d)
    }
}

/// `floor(32 * (1 - 1 / (1 + 10^(d/400))))`: the points the winner takes from
/// the loser when the loser's rating exceeds the winner's by `d`.
pub open spec fn elo_points(d: int) -> int {
    largest_covered(STAKE as nat, d)
}

/// `b` if `e` is odd, else 1.
spec fn bit(e: nat, b: int) -> int {
    if e % 2 == 1 {
        b
    } else {
        1
    }
}

/// `b^e` for `e < 1024`, spelled out as ten rounds of square-and-multiply so
/// that it can be evaluated.
spec fn pow_bits(b: int, e: nat) -> int {
    let a9 = bit(e / 512, b);
    let a8 = a9 * a9 * bit(e / 256, b);
    let a7 = a8 * a8 * bit(e / 128, b);
    let a6 = a7 * a7 * bit(e / 64, b);
    let a5 = a6 * a6 * bit(e / 32, b);
    let a4 = a5 * a5 * bit(e / 16, b);
    let a3 = a4 * a4 * bit(e / 8, b);
    let a2 = a3 * a3 * bit(e / 4, b);
    let a1 = a2 * a2 * bit(e / 2, b);
    a1 * a1 * bit(e, b)
}

proof fn lemma_pow_round(b: int, q: nat, r: nat)
    requires
        r / 2 == q,
    ensures
        pow(b, r) == pow(b, q) * pow(b, q) * bit(r, b),
{
    lemma_pow_adds(b, q, q);
    if r % 2 == 1 {
        lemma_pow1(b);
        lemma_pow_adds(b, 2 * q, 1);
    }
}

proof fn lemma_pow_bits(b: int, e: nat)
    requires
        e < 1024,
    ensures
        pow(b, e) == pow_bits(b, e),
{
    lemma_pow0(b);
    lemma_pow1(b);
    lemma_pow_round(b, e / 512, e / 256);
    lemma_pow_round(b, e / 256, e / 128);
    lemma_pow_round(b, e / 128, e / 64);
    lemma_pow_round(b, e / 64, e / 32);
    lemma_pow_round(b, e / 32, e / 16);
    lemma_pow_round(b, e / 16, e / 8);
    lemma_pow_round(b, e / 8, e / 4);
    lemma_pow_round(b, e / 4, e / 2);
    lemma_pow_round(b, e / 2, e);
}

/// `(j / (32 - j))^400 < 10^t`.
spec fn below(j: int, t: int) -> bool {
    pow_bits(j, 400) < pow_bits(10, t as nat) * pow_bits(STAKE - j, 400)
}

/// `10^t < (j / (32 - j))^400`.
spec fn above(j: int, t: int) -> bool {
    pow_bits(10, t as nat) * pow_bits(STAKE - j, 400) < pow_bits(j, 400)
}

/// `10^(t-1) < (j / (32 - j))^400 < 10^t`: gap `t` is the first at which `j`
/// points change hands.
spec fn band(j: int, t: int) -> bool {
    above(j, t - 1) && below(j, t)
}

proof fn lemma_pow_base_monotone(a: int, b: int, e: nat)
    requires
        0 <= a <= b,
    ensures
        0 <= pow(a, e) <= pow(b, e),
    decreases e,
{
    reveal(pow);
    if e > 0 {
        let pa = pow(a, (e - 1) as nat);
        let pb = pow(b, (e - 1) as nat);
        lemma_pow_base_monotone(a, b, (e - 1) as nat);
        assert(0 <= a * pa <= b * pb) by (nonlinear_arith)
            requires
                0 <= a <= b,
                0 <= pa <= pb,
        ;
    }
}

/// What a band says about `j` points and, mirrored, about `32 - j` points.
proof fn lemma_band(j: int, t: int)
    requires
        16 < j < STAKE,
        2 <= t < 1024,
        band(j, t),
    ensures
        covers(j, t),
        !covers(j, t - 1),
        covers(STAKE - j, 1 - t),
        !covers(STAKE - j, -t),
{
    lemma_pow_bits(10, t as nat);
    lemma_pow_bits(10, (t - 1) as nat);
    lemma_pow_bits(j, 400);
    lemma_pow_bits(STAKE - j, 400);
    let low = pow(STAKE - j, 400);
    assert(low * pow(10, (t - 1) as nat) == pow(10, (t - 1) as nat) * low) by (nonlinear_arith);
    assert(low * pow(10, t as nat) == pow(10, t as nat) * low) by (nonlinear_arith);
}

/// A wider gap in the loser's favour never moves fewer points.
pub proof fn lemma_covers_gap_monotone(k: int, d1: int, d2: int)
    requires
        0 <= k <= STAKE,
        d1 <= d2,
        covers(k, d1),
    ensures
        covers(k, d2),
{
    let a = pow(k, 400);
    let b = pow(STAKE - k, 400);
    lemma_pow_base_monotone(0, k, 400);
    lemma_pow_base_monotone(0, STAKE - k, 400);
    lemma_pow0(10);
    if d1 >= 0 {
        let at_d1 = pow(10, d1 as nat);
        let at_d2 = pow(10, d2 as nat);
        lemma_pow_increases(10, d1 as nat, d2 as nat);
        assert(at_d1 * b <= at_d2 * b) by (nonlinear_arith)
            requires
                at_d1 <= at_d2,
                0 <= b,
        ;
    } else if d2 >= 0 {
        let at_d1 = pow(10, (-d1) as nat);
        let at_d2 = pow(10, d2 as nat);
        lemma_pow_increases(10, 0, (-d1) as nat);
        lemma_pow_increases(10, 0, d2 as nat);
        assert(a <= a * at_d1 && b <= at_d2 * b) by (nonlinear_arith)
            requires
                1 <= at_d1,
                1 <= at_d2,
                0 <= a,
                0 <= b,
        ;
    } else {
        let at_d1 = pow(10, (-d1) as nat);
        let at_d2 = pow(10, (-d2) as nat);
        lemma_pow_increases(10, (-d2) as nat, (-d1) as nat);
        assert(a * at_d2 <= a * at_d1) by (nonlinear_arith)
            requires
                at_d2 <= at_d1,
                0 <= a,
        ;
    }
}

/// If `k2` points are covered, so is every smaller amount.
pub proof fn lemma_covers_downward(k1: int, k2: int, d: int)
    requires
        0 <= k1 <= k2 <= STAKE,
        covers(k2, d),
    ensures
        covers(k1, d),
{
    let a1 = pow(k1, 400);
    let a2 = pow(k2, 400);
    let b1 = pow(STAKE - k1, 400);
    let b2 = pow(STAKE - k2, 400);
    lemma_pow_base_monotone(k1, k2, 400);
    lemma_pow_base_monotone(STAKE - k2, STAKE - k1, 400);
    if d >= 0 {
        let p = pow(10, d as nat);
        lemma_pow_positive(10, d as nat);
        assert(p * b2 <= p * b1) by (nonlinear_arith)
            requires
                0 < p,
                b2 <= b1,
        ;
    } else {
        let p = pow(10, (-d) as nat);
        lemma_pow_positive(10, (-d) as nat);
        assert(a1 * p <= a2 * p) by (nonlinear_arith)
            requires
                0 < p,
                a1 <= a2,
        ;
    }
}

/// Nothing is covered beyond what `largest_covered` finds.
proof fn lemma_largest_covered(n: nat, k: int, d: int)
    requires
        0 <= k <= n <= STAKE,
        k == 0 || covers(k, d),
        k < STAKE ==> !covers(k + 1, d),
    ensures
        largest_covered(n, d) == k,
    decreases n,
{
    if n > k {
        if covers(n as int, d) {
            lemma_covers_downward(k + 1, n as int, d);
        }
        lemma_largest_covered((n - 1) as nat, k, d);
    }
}

/// The amount moved is the one `k` in `0..=31` with `k <= 32 * x / (1 + x) < k + 1`.
pub proof fn lemma_elo_points(d: int)
    ensures
        0 <= elo_points(d) < STAKE,
        covers(elo_points(d), d),
        !covers(elo_points(d) + 1, d),
{
    lemma_largest_within(STAKE as nat, d);
    let k = elo_points(d);
    lemma_pow_positive(STAKE as int, 400);
    reveal(pow);
    lemma_pow_positive(10, d as nat);
    lemma_pow_positive(10, (-d) as nat);
    assert(!covers(STAKE as int, d)) by {
        let top = pow(STAKE as int, 400);
        if d >= 0 {
            assert(pow(10, d as nat) * 0 == 0);
        } else {
            let p = pow(10, (-d) as nat);
            assert(top * p > 0) by (nonlinear_arith)
                requires
                    top > 0,
                    p > 0,
            ;
        }
    }
    assert(covers(0, d)) by {
        if d >= 0 {
            let p = pow(10, d as nat);
            let top = pow(STAKE as int, 400);
            assert(0 <= p * top) by (nonlinear_arith)
                requires
                    top > 0,
                    p > 0,
            ;
        }
    }
    if k < STAKE - 1 && covers(k + 1, d) {
        lemma_largest_maximal(STAKE as nat, k + 1, d);
    }
}

proof fn lemma_full_stake_never_covered(d: int)
    ensures
        !covers(STAKE as int, d),
        covers(0, d),
{
    lemma_elo_points(d);
    lemma_covers_downward(0, elo_points(d), d);
}

proof fn lemma_largest_within(n: nat, d: int)
    ensures
        0 <= largest_covered(n, d) <= n,
        largest_covered(n, d) > 0 ==> covers(largest_covered(n, d), d),
    decreases n,
{
    if n > 0 && !covers(n as int, d) {
        lemma_largest_within((n - 1) as nat, d);
    }
}

proof fn lemma_largest_maximal(n: nat, k: int, d: int)
    requires
        0 < k <= n,
        covers(k, d),
    ensures
        largest_covered(n, d) >= k,
    decreases n,
{
    if n > k && !covers(n as int, d) {
        lemma_largest_maximal((n - 1) as nat, k, d);
    }
}

/// More points change hands the further the loser was ahead.
pub proof fn lemma_elo_points_monotone(d1: int, d2: int)
    requires
        d1 <= d2,
    ensures
        elo_points(d1) <= elo_points(d2),
{
    lemma_elo_points(d1);
    lemma_elo_points(d2);
    if elo_points(d1) > elo_points(d2) {
        lemma_covers_gap_monotone(elo_points(d1), d1, d2);
        lemma_covers_downward(elo_points(d2) + 1, elo_points(d1), d2);
    }
}

/// Equal ratings move exactly half the stake.
pub proof fn lemma_elo_points_even_match()
    ensures
        elo_points(0) == 16,
{
    lemma_pow0(10);
    assert(above(17, 21)) by (nonlinear_arith);
    assert(below(17, 22)) by (nonlinear_arith);
    lemma_band(17, 22);
    if covers(17, 0) {
        lemma_covers_gap_monotone(17, 0, 21);
    }
    lemma_largest_covered(STAKE as nat, 16, 0);
}

/// No points move exactly when the winner was at least 597 ahead.
pub proof fn lemma_elo_points_zero(d: int)
    ensures
        elo_points(d) == 0 <==> d <= -597,
{
    assert(above(31, 596)) by (nonlinear_arith);
    assert(below(31, 597)) by (nonlinear_arith);
    lemma_band(31, 597);
    lemma_elo_points(d);
    if d <= -597 {
        if elo_points(d) > 0 {
            lemma_covers_downward(1, elo_points(d), d);
            lemma_covers_gap_monotone(1, d, -597);
        }
    } else {
        lemma_covers_gap_monotone(1, -596, d);
    }
}

/// The first gap at which `j` points change hands, for more than half the stake.
fn upper_threshold(j: i32) -> (t: i64)
    requires
        16 < j < STAKE,
    ensures
        2 <= t < 1024,
        band(j as int, t as int),
{
    if j == 17 {
        assert(above(17, 21)) by (nonlinear_arith);
        assert(below(17, 22)) by (nonlinear_arith);
        22
    } else if j == 18 {
        assert(above(18, 43)) by (nonlinear_arith);
        assert(below(18, 44)) by (nonlinear_arith);
        44
    } else if j == 19 {
        assert(above(19, 65)) by (nonlinear_arith);
        assert(below(19, 66)) by (nonlinear_arith);
        66
    } else if j == 20 {
        assert(above(20, 88)) by (nonlinear_arith);
        assert(below(20, 89)) by (nonlinear_arith);
        89
    } else if j == 21 {
        assert(above(21, 112)) by (nonlinear_arith);
        assert(below(21, 113)) by (nonlinear_arith);
        113
    } else if j == 22 {
        assert(above(22, 136)) by (nonlinear_arith);
        assert(below(22, 137)) by (nonlinear_arith);
        137
    } else if j == 23 {
        assert(above(23, 162)) by (nonlinear_arith);
        assert(below(23, 163)) by (nonlinear_arith);
        163
    } else if j == 24 {
        assert(above(24, 190)) by (nonlinear_arith);
        assert(below(24, 191)) by (nonlinear_arith);
        191
    } else if j == 25 {
        assert(above(25, 221)) by (nonlinear_arith);
        assert(below(25, 222)) by (nonlinear_arith);
        222
    } else if j == 26 {
        assert(above(26, 254)) by (nonlinear_arith);
        assert(below(26, 255)) by (nonlinear_arith);
        255
    } else if j == 27 {
        assert(above(27, 292)) by (nonlinear_arith);
        assert(below(27, 293)) by (nonlinear_arith);
        293
    } else if j == 28 {
        assert(above(28, 338)) by (nonlinear_arith);
        assert(below(28, 339)) by (nonlinear_arith);
        339
    } else if j == 29 {
        assert(above(29, 394)) by (nonlinear_arith);
        assert(below(29, 395)) by (nonlinear_arith);
        395
    } else if j == 30 {
        assert(above(30, 470)) by (nonlinear_arith);
        assert(below(30, 471)) by (nonlinear_arith);
        471
    } else {
        assert(above(31, 596)) by (nonlinear_arith);
        assert(below(31, 597)) by (nonlinear_arith);
        597
    }
}

/// The first gap at which `k` points change hands.
fn threshold(k: i32) -> (t: i64)
    requires
        0 < k < STAKE,
    ensures
        -1024 < t < 1024,
        covers(k as int, t as int),
        !covers(k as int, t - 1),
{
    if k == 16 {
        proof {
            lemma_pow0(10);
            lemma_pow1(10);
            lemma_pow_positive(16, 400);
        }
        0
    } else if k > 16 {
        let t = upper_threshold(k);
        proof {
            lemma_band(k as int, t as int);
        }
        t
    } else {
        let t = upper_threshold(STAKE - k);
        proof {
            lemma_band(STAKE - k, t as int);
        }
        1 - t
    }
}

/// The points that the winner takes from the loser, for `gap` the loser's
/// rating less the winner's.
pub fn points_for_gap(gap: i64) -> (points: i32)
    ensures
        points == elo_points(gap as int),
        0 <= points < STAKE,
{
    let mut k: i32 = 0;
    while k < STAKE - 1
        invariant
            0 <= k < STAKE,
            k == 0 || covers(k as int, gap as int),
        decreases STAKE - k,
    {
        let t = threshold(k + 1);
        if gap < t {
            proof {
                if covers(k + 1, gap as int) {
                    lemma_covers_gap_monotone(k + 1, gap as int, t - 1);
                }
                lemma_largest_covered(STAKE as nat, k as int, gap as int);
            }
            return k;
        }
        proof {
            lemma_covers_gap_monotone(k + 1, t as int, gap as int);
        }
        k += 1;
    }
    proof {
        lemma_full_stake_never_covered(gap as int);
        lemma_largest_covered(STAKE as nat, k as int, gap as int);
    }
    k
}

} // verus!

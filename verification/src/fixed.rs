//! Saturating 32.32 fixed-point arithmetic.
//!
//! A sample or coefficient is an `i64` holding its real value scaled by
//! `ONE` = 2^32.  Every operation saturates at `±i64::MAX` (the value
//! `i64::MIN` never arises), and every operation is specified exactly:
//! multiplication and division truncate toward zero, as the corresponding
//! integer operations do.

use vstd::prelude::*;

verus! {

/// The fixed-point representation of 1.0 (2^32).
pub const ONE: i64 = 0x1_0000_0000;

/// The fixed-point representation of 0.5.
pub const HALF: i64 = 0x8000_0000;

/// Largest magnitude a fixed-point value may take.
pub const QMAX: i64 = i64::MAX;

/// π scaled by `ONE`, truncated.
pub const PI_Q: i64 = 13493037704;

/// The full circle, 2·`PI_Q` (kept as exactly twice `PI_Q` so that the two
/// half-waves of the sine approximation are symmetric).
pub const TWO_PI_Q: i64 = 26986075408;

/// A value is in range: magnitude at most `QMAX`.
pub open spec fn q_ok(a: int) -> bool {
    -QMAX <= a <= QMAX
}

/// Saturate an unbounded integer into the representable range.
pub open spec fn sat(x: int) -> int {
    if x > QMAX {
        QMAX as int
    } else if x < -QMAX {
        -QMAX as int
    } else {
        x
    }
}

/// Integer division truncated toward zero (the meaning is fixed for d > 0).
pub open spec fn tdiv(x: int, d: int) -> int {
    if x >= 0 {
        x / d
    } else {
        -((-x) / d)
    }
}

/// Saturating fixed-point addition.
pub open spec fn spec_qadd(a: int, b: int) -> int {
    sat(a + b)
}

/// Saturating fixed-point subtraction.
pub open spec fn spec_qsub(a: int, b: int) -> int {
    sat(a - b)
}

/// Saturating fixed-point multiplication, truncated toward zero.
pub open spec fn spec_qmul(a: int, b: int) -> int {
    sat(tdiv(a * b, ONE as int))
}

/// Saturating fixed-point division by a positive divisor, truncated toward
/// zero.
pub open spec fn spec_qdiv(a: int, b: int) -> int {
    sat(tdiv(a * (ONE as int), b))
}

pub fn qadd(a: i64, b: i64) -> (r: i64)
    ensures
        r == spec_qadd(a as int, b as int),
        q_ok(r as int),
{
    let s: i128 = (a as i128) + (b as i128);
    if s > (QMAX as i128) {
        QMAX
    } else if s < -(QMAX as i128) {
        -QMAX
    } else {
        s as i64
    }
}

pub fn qsub(a: i64, b: i64) -> (r: i64)
    ensures
        r == spec_qsub(a as int, b as int),
        q_ok(r as int),
{
    let s: i128 = (a as i128) - (b as i128);
    if s > (QMAX as i128) {
        QMAX
    } else if s < -(QMAX as i128) {
        -QMAX
    } else {
        s as i64
    }
}

pub fn qmul(a: i64, b: i64) -> (r: i64)
    requires
        q_ok(a as int),
        q_ok(b as int),
    ensures
        r == spec_qmul(a as int, b as int),
        q_ok(r as int),
{
    let neg: bool = (a < 0) != (b < 0);
    let ma: u128 = if a < 0 { (-a) as u128 } else { a as u128 };
    let mb: u128 = if b < 0 { (-b) as u128 } else { b as u128 };
    proof {
        assert(ma * mb == if a * b >= 0 { a * b } else { -(a * b) }) by (nonlinear_arith)
            requires
                ma == if a < 0 { -a as int } else { a as int },
                mb == if b < 0 { -b as int } else { b as int },
        ;
        assert(ma * mb <= QMAX * QMAX) by (nonlinear_arith)
            requires
                ma <= QMAX,
                mb <= QMAX,
        ;
    }
    let p: u128 = ma * mb;
    let q: u128 = p / (ONE as u128);
    let m: i64 = if q > (QMAX as u128) { QMAX } else { q as i64 };
    proof {
        let ab: int = a as int * b as int;
        assert(if (a < 0) != (b < 0) { ab <= 0 } else { ab >= 0 }) by (nonlinear_arith)
            requires
                ab == a as int * b as int,
        ;
        if ab >= 0 {
            assert(p == ab);
            assert(tdiv(ab, ONE as int) == q);
        } else {
            assert(p == -ab);
            assert(tdiv(ab, ONE as int) == -(q as int));
        }
    }
    if neg { -m } else { m }
}

pub fn qdiv(a: i64, b: i64) -> (r: i64)
    requires
        q_ok(a as int),
        0 < b,
    ensures
        r == spec_qdiv(a as int, b as int),
        q_ok(r as int),
{
    let neg: bool = a < 0;
    let ma: u128 = if a < 0 { (-a) as u128 } else { a as u128 };
    let num: u128 = ma * (ONE as u128);
    proof {
        assert(ma * (ONE as u128) == if a >= 0 { a * ONE } else { -(a * ONE) })
            by (nonlinear_arith)
            requires
                ma == if a < 0 { -a as int } else { a as int },
        ;
    }
    let q: u128 = num / (b as u128);
    let m: i64 = if q > (QMAX as u128) { QMAX } else { q as i64 };
    if neg { -m } else { m }
}

/// Multiplying by a coefficient in `[0, 1]` contracts toward zero: the
/// product keeps the sign of the other factor and its magnitude shrinks.
pub proof fn lemma_qmul_contract(c: int, d: int)
    requires
        0 <= c <= ONE,
        q_ok(d),
    ensures
        d >= 0 ==> 0 <= spec_qmul(c, d) <= d,
        d <= 0 ==> d <= spec_qmul(c, d) <= 0,
{
    if d >= 0 {
        assert(0 <= c * d <= (ONE as int) * d) by (nonlinear_arith)
            requires
                0 <= c <= ONE as int,
                0 <= d,
        ;
        vstd::arithmetic::div_mod::lemma_div_pos_is_pos(c * d, ONE as int);
        vstd::arithmetic::div_mod::lemma_div_is_ordered(c * d, (ONE as int) * d, ONE as int);
        vstd::arithmetic::div_mod::lemma_div_multiples_vanish(d, ONE as int);
    } else {
        let nd: int = -d;
        assert(0 <= c * nd <= (ONE as int) * nd) by (nonlinear_arith)
            requires
                0 <= c <= ONE as int,
                0 <= nd,
        ;
        assert(c * d == -(c * nd)) by (nonlinear_arith)
            requires
                nd == -d,
        ;
        vstd::arithmetic::div_mod::lemma_div_pos_is_pos(c * nd, ONE as int);
        vstd::arithmetic::div_mod::lemma_div_is_ordered(c * nd, (ONE as int) * nd, ONE as int);
        vstd::arithmetic::div_mod::lemma_div_multiples_vanish(nd, ONE as int);
    }
}

/// The square of any value is non-negative.
pub proof fn lemma_qmul_square_nonneg(a: int)
    ensures
        spec_qmul(a, a) >= 0,
{
    assert(a * a >= 0) by (nonlinear_arith);
    if a * a > 0 {
        vstd::arithmetic::div_mod::lemma_div_pos_is_pos(a * a, ONE as int);
    }
}

/// Euclidean remainder: the representative of `p` modulo `m` in `[0, m)`.
pub fn emod(p: i64, m: i64) -> (r: i64)
    requires
        0 < m,
    ensures
        r == (p as int) % (m as int),
        0 <= r < m,
{
    if p >= 0 {
        let r: u128 = (p as u128) % (m as u128);
        r as i64
    } else {
        let np: u128 = (-(p as i128)) as u128;
        let rr: u128 = np % (m as u128);
        proof {
            let mi: int = m as int;
            let pi: int = p as int;
            let q: int = (np as int) / mi;
            let rr2: int = (np as int) % mi;
            vstd::arithmetic::div_mod::lemma_fundamental_div_mod(np as int, mi);
            if rr == 0 {
                assert(pi == (-q) * mi + 0) by (nonlinear_arith)
                    requires
                        np as int == mi * q + rr2,
                        rr2 == 0,
                        pi == -(np as int),
                ;
                vstd::arithmetic::div_mod::lemma_fundamental_div_mod_converse_mod(
                    pi, mi, -q, 0);
            } else {
                assert(pi == (-q - 1) * mi + (mi - rr2)) by (nonlinear_arith)
                    requires
                        np as int == mi * q + rr2,
                        pi == -(np as int),
                ;
                vstd::arithmetic::div_mod::lemma_fundamental_div_mod_converse_mod(
                    pi, mi, -q - 1, mi - rr2);
            }
        }
        if rr == 0 {
            0
        } else {
            (m as u128 - rr) as i64
        }
    }
}

/// Fixed-point square root of a small whole number: returns `√k` scaled by
/// `ONE`, truncated.  The result is pinned exactly by its squared bounds.
pub fn whole_sqrt(k: usize) -> (r: i64)
    requires
        1 <= k <= 0x10000,
    ensures
        ONE <= r,
        q_ok(r as int),
        r * r <= k * (ONE as int) * (ONE as int),
        k * (ONE as int) * (ONE as int) < (r + 1) * (r + 1),
{
    proof {
        assert((k as int) * (ONE as int) <= 0x10000 * (ONE as int)) by (nonlinear_arith)
            requires
                k <= 0x10000,
        ;
    }
    let kx: u128 = (k as u128) * (ONE as u128);
    proof {
        assert((kx as int) * (ONE as int) <= 0x1_0000_0000_0000 * (ONE as int))
            by (nonlinear_arith)
            requires
                kx <= 0x1_0000_0000_0000,
        ;
        assert((kx as int) * (ONE as int) >= (ONE as int) * (ONE as int))
            by (nonlinear_arith)
            requires
                kx >= ONE as int,
        ;
    }
    let x: u128 = kx * (ONE as u128);
    let mut lo: u128 = ONE as u128;
    let mut hi: u128 = 0x2_0000_0000_0000u128;
    proof {
        assert((lo as int) * (lo as int) <= x as int);
        assert((x as int) < 0x2_0000_0000_0000 * 0x2_0000_0000_0000);
    }
    while lo + 1 < hi
        invariant
            ONE as u128 <= lo < hi <= 0x2_0000_0000_0000u128,
            lo * lo <= x,
            x < hi * hi,
            x == (k as int) * (ONE as int) * (ONE as int),
        decreases hi - lo,
    {
        let mid: u128 = lo + (hi - lo) / 2;
        proof {
            assert((mid as int) * (mid as int) < 0x2_0000_0000_0000 * 0x2_0000_0000_0000)
                by (nonlinear_arith)
                requires
                    mid < 0x2_0000_0000_0000,
            ;
        }
        if mid * mid <= x {
            lo = mid;
        } else {
            hi = mid;
        }
    }
    lo as i64
}

/// `r` is the integer square root of `x`.
pub open spec fn is_sqrt_of(r: int, x: int) -> bool {
    0 <= r && r * r <= x && x < (r + 1) * (r + 1)
}

/// The integer square root, as the unique witness of `is_sqrt_of`.
pub open spec fn spec_sqrt(x: int) -> int {
    choose|r: int| is_sqrt_of(r, x)
}

/// Integer square roots are unique.
pub proof fn lemma_sqrt_unique(r1: int, r2: int, x: int)
    requires
        is_sqrt_of(r1, x),
        is_sqrt_of(r2, x),
    ensures
        r1 == r2,
{
    assert(r1 == r2) by (nonlinear_arith)
        requires
            0 <= r1 && r1 * r1 <= x && x < (r1 + 1) * (r1 + 1),
            0 <= r2 && r2 * r2 <= x && x < (r2 + 1) * (r2 + 1),
    ;
}

/// One arch of the sine wave, by the parabolic approximation
/// `sin θ ≈ 4·θ·(π−θ)/π²`, exact at `0`, `π/2` and `π`.
pub open spec fn spec_sin_half(t: int) -> int {
    (4 * t * (PI_Q - t) * ONE) / (PI_Q as int * PI_Q as int)
}

pub fn sin_half_q(theta: i64) -> (r: i64)
    requires
        0 <= theta <= PI_Q,
    ensures
        r == spec_sin_half(theta as int),
        0 <= r <= ONE,
{
    let t: u128 = theta as u128;
    proof {
        assert(4 * t * (PI_Q - t) <= PI_Q as int * PI_Q as int) by (nonlinear_arith)
            requires
                0 <= t <= PI_Q as int,
        ;
        assert(4 * (t as int) * ((PI_Q as int) - t as int) >= 0) by (nonlinear_arith)
            requires
                0 <= t <= PI_Q as int,
        ;
    }
    let n: u128 = 4 * t * (PI_Q as u128 - t);
    let num: u128 = n * (ONE as u128);
    let den: u128 = (PI_Q as u128) * (PI_Q as u128);
    let q: u128 = num / den;
    proof {
        assert(num <= den * (ONE as int)) by (nonlinear_arith)
            requires
                n <= den,
                num == n * (ONE as int),
                den == PI_Q as int * PI_Q as int,
        ;
        vstd::arithmetic::div_mod::lemma_div_is_ordered(num as int, den as int * ONE as int,
            den as int);
        vstd::arithmetic::div_mod::lemma_div_multiples_vanish(ONE as int, den as int);
    }
    q as i64
}

/// Full-wave sine on `[0, TWO_PI_Q]`: the second arch is the mirror of the
/// first.
pub open spec fn spec_sin(t: int) -> int {
    if t <= PI_Q {
        spec_sin_half(t)
    } else {
        -spec_sin_half(t - PI_Q)
    }
}

pub fn sin_q(theta: i64) -> (r: i64)
    requires
        0 <= theta <= TWO_PI_Q,
    ensures
        r == spec_sin(theta as int),
        -ONE <= r <= ONE,
{
    if theta <= PI_Q {
        sin_half_q(theta)
    } else {
        -sin_half_q(theta - PI_Q)
    }
}

/// Quadratic approximation of `exp(−x)` for `x` in `[0, 1]`:
/// `1 − x + x²/2`.  For the tiny arguments the smoothing coefficients use
/// (`x ≤ 1/441`), the error is below `x³/6`.
pub open spec fn spec_exp_neg(x: int) -> int {
    ONE - x + (x * x) / (2 * ONE as int)
}

pub fn exp_neg_q(x: i64) -> (r: i64)
    requires
        0 <= x <= ONE,
    ensures
        r == spec_exp_neg(x as int),
        0 <= r <= ONE,
{
    proof {
        assert((x as int) * (x as int) <= (x as int) * (2 * ONE as int)) by (nonlinear_arith)
            requires
                0 <= x <= ONE,
        ;
        assert((x as int) * (x as int) >= 0) by (nonlinear_arith)
            requires
                0 <= x,
        ;
        assert((x as int) * (2 * ONE as int) <= (ONE as int) * (2 * ONE as int))
            by (nonlinear_arith)
            requires
                x <= ONE as int,
        ;
    }
    let sq: u128 = ((x as u128) * (x as u128)) / (2 * ONE as u128);
    proof {
        vstd::arithmetic::div_mod::lemma_div_is_ordered((x as int) * (x as int),
            (x as int) * (2 * ONE as int), 2 * ONE as int);
        vstd::arithmetic::div_mod::lemma_div_multiples_vanish(x as int, 2 * ONE as int);
        assert(sq as int <= x as int);
    }
    (ONE - x) + (sq as i64)
}

/// Magnitudes multiply: a product of bounded factors is bounded by the
/// product of the bounds, scaled down by `ONE`.
pub proof fn lemma_qmul_mag(a: int, b: int, ca: int, cb: int)
    requires
        0 <= ca,
        0 <= cb,
        -ca <= a <= ca,
        -cb <= b <= cb,
    ensures
        -tdiv(ca * cb, ONE as int) <= spec_qmul(a, b) <= tdiv(ca * cb, ONE as int),
{
    let p = a * b;
    assert(-(ca * cb) <= p <= ca * cb) by (nonlinear_arith)
        requires
            0 <= ca,
            0 <= cb,
            -ca <= a <= ca,
            -cb <= b <= cb,
            p == a * b,
    ;
    vstd::arithmetic::div_mod::lemma_div_pos_is_pos(ca * cb, ONE as int);
    if p >= 0 {
        vstd::arithmetic::div_mod::lemma_div_is_ordered(p, ca * cb, ONE as int);
        vstd::arithmetic::div_mod::lemma_div_pos_is_pos(p, ONE as int);
    } else {
        vstd::arithmetic::div_mod::lemma_div_is_ordered(-p, ca * cb, ONE as int);
        vstd::arithmetic::div_mod::lemma_div_pos_is_pos(-p, ONE as int);
    }
}

/// Truncated divisions by a common positive divisor under-approximate the
/// division of the sum.
pub proof fn lemma_div_sum_le(u: int, v: int, d: int)
    requires
        0 <= u,
        0 <= v,
        0 < d,
    ensures
        u / d + v / d <= (u + v) / d,
{
    let qu = u / d;
    let qv = v / d;
    let ru = u % d;
    let rv = v % d;
    vstd::arithmetic::div_mod::lemma_fundamental_div_mod(u, d);
    vstd::arithmetic::div_mod::lemma_fundamental_div_mod(v, d);
    if ru + rv < d {
        assert(u + v == (qu + qv) * d + (ru + rv)) by (nonlinear_arith)
            requires
                u == d * qu + ru,
                v == d * qv + rv,
        ;
        vstd::arithmetic::div_mod::lemma_fundamental_div_mod_converse_div(
            u + v, d, qu + qv, ru + rv);
    } else {
        assert(u + v == (qu + qv + 1) * d + (ru + rv - d)) by (nonlinear_arith)
            requires
                u == d * qu + ru,
                v == d * qv + rv,
        ;
        vstd::arithmetic::div_mod::lemma_fundamental_div_mod_converse_div(
            u + v, d, qu + qv + 1, ru + rv - d);
    }
}

} // verus!

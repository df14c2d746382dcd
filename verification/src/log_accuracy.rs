//! How close the fixed-point logarithm is to the true one.
//!
//! The logarithm is never above the true one and less than two units below
//! it. In whole numbers: with `l` the fixed-point logarithm of `x` and `s`
//! the number of units in a decade, ten to the power `l` is at most `x` to the
//! power `s`, which is below ten to the power `l + 2`.
//!
//! The proof follows the mantissa through the squaring steps. The mantissa is
//! rounded down after every step, so it never exceeds what it stands for; and
//! what it stands for exceeds it by a share that little more than doubles
//! with every step, from one part in two to the power sixty at the start.

use crate::logarithm::{
    decade, lemma_decade_spans, lemma_log_one_is_pow2, lemma_square_in_range, log10_scaled,
    log_fraction, mantissa, mantissa_in_range, mantissa_square, LOG_FRACTION_BITS, LOG_ONE,
    MANTISSA_ONE,
};
use vstd::arithmetic::power::{
    lemma_pow0, lemma_pow1, lemma_pow_adds, lemma_pow_distributes, lemma_pow_multiplies,
    lemma_square_is_pow2, pow,
};
use vstd::arithmetic::power2::{lemma2_to64, lemma_pow2_pos, lemma_pow2_unfold, pow2};
use vstd::prelude::*;

verus! {

/// The largest share, in parts of the mantissa's one, by which a mantissa may
/// fall short of what it stands for.
pub open spec fn slack_limit() -> int {
    0x100_0000
}

/// The mantissa `y` stands for the ratio of `a` to `t`: it does not exceed
/// the ratio, and the ratio exceeds it by at most `r` parts in the mantissa's
/// one.
pub open spec fn stands_for(y: int, a: int, t: int, r: int) -> bool {
    let one = MANTISSA_ONE as int;
    &&& mantissa_in_range(y)
    &&& a >= 1
    &&& t >= 1
    &&& 0 <= r <= slack_limit()
    &&& y * t <= one * a
    &&& one * one * a <= y * (one + r) * t
}

/// Of two numbers that are not negative, the larger has the larger square.
proof fn lemma_square_keeps_order(p: int, q: int)
    requires
        0 <= p <= q,
    ensures
        p * p <= q * q,
{
    assert(p * p <= q * q) by (nonlinear_arith)
        requires
            0 <= p <= q,
    ;
}

/// A product with a factor that is not negative keeps the order.
proof fn lemma_scale_keeps_order(p: int, q: int, c: int)
    requires
        p <= q,
        0 <= c,
    ensures
        p * c <= q * c,
{
    assert(p * c <= q * c) by (nonlinear_arith)
        requires
            p <= q,
            0 <= c,
    ;
}

/// A common factor above zero can be taken out of an order.
proof fn lemma_cancel_factor(p: int, q: int, c: int)
    requires
        c * p <= c * q,
        0 < c,
    ensures
        p <= q,
{
    assert(p <= q) by (nonlinear_arith)
        requires
            c * p <= c * q,
            0 < c,
    ;
}

/// Doubling the slack and adding three covers what one step without a
/// division loses.
proof fn lemma_slack_after_square(r: int)
    requires
        0 <= r <= slack_limit(),
    ensures
        (MANTISSA_ONE + 1) * ((MANTISSA_ONE + r) * (MANTISSA_ONE + r)) <= (MANTISSA_ONE
            * MANTISSA_ONE) * (MANTISSA_ONE + (2 * r + 3)),
{
    let m = MANTISSA_ONE as int;
    assert((m + 1) * ((m + r) * (m + r)) <= (m * m) * (m + (2 * r + 3))) by (nonlinear_arith)
        requires
            m == 0x1000_0000_0000_0000,
            0 <= r <= 0x100_0000,
    ;
}

/// Doubling the slack and adding three covers what one step with a division
/// loses.
proof fn lemma_slack_after_division(r: int)
    requires
        0 <= r <= slack_limit(),
    ensures
        ((MANTISSA_ONE + 1) * (MANTISSA_ONE + 1)) * ((MANTISSA_ONE + r) * (MANTISSA_ONE + r)) <= (
        MANTISSA_ONE * MANTISSA_ONE * MANTISSA_ONE) * (MANTISSA_ONE + (2 * r + 3)),
{
    let m = MANTISSA_ONE as int;
    assert(((m + 1) * (m + 1)) * ((m + r) * (m + r)) <= (m * m * m) * (m + (2 * r + 3)))
        by (nonlinear_arith)
        requires
            m == 0x1000_0000_0000_0000,
            0 <= r <= 0x100_0000,
    ;
}

/// What squaring does to a mantissa and to what it stands for, before the
/// square is brought back between one and ten.
proof fn lemma_squared_bounds(y: int, a: int, t: int, r: int)
    requires
        stands_for(y, a, t, r),
    ensures
        MANTISSA_ONE <= mantissa_square(y) < 100 * MANTISSA_ONE,
        mantissa_square(y) * (t * t) <= MANTISSA_ONE * (a * a),
        (MANTISSA_ONE * MANTISSA_ONE) * ((MANTISSA_ONE * MANTISSA_ONE) * (a * a)) <= (
        mantissa_square(y) * (t * t)) * ((MANTISSA_ONE + 1) * ((MANTISSA_ONE + r) * (MANTISSA_ONE
            + r))),
{
    let m = MANTISSA_ONE as int;
    let sq = mantissa_square(y);
    let y2 = y * y;
    let a2 = a * a;
    let t2 = t * t;
    let r2 = (m + r) * (m + r);
    lemma_square_in_range(y);
    assert(sq * m <= y2 < (sq + 1) * m);
    assert(0 <= t2 && 0 <= a2 && 0 <= r2) by (nonlinear_arith)
        requires
            t2 == t * t,
            a2 == a * a,
            r2 == (m + r) * (m + r),
    ;
    // The mantissa does not exceed what it stands for.
    let p = y * t;
    let q = m * a;
    assert(0 <= p) by (nonlinear_arith)
        requires
            p == y * t,
            y >= 0,
            t >= 0,
    ;
    lemma_square_keeps_order(p, q);
    assert(p * p == y2 * t2) by (nonlinear_arith)
        requires
            p == y * t,
            y2 == y * y,
            t2 == t * t,
    ;
    assert(q * q == m * (m * a2)) by (nonlinear_arith)
        requires
            q == m * a,
            a2 == a * a,
    ;
    lemma_scale_keeps_order(sq * m, y2, t2);
    assert((sq * m) * t2 == m * (sq * t2)) by (nonlinear_arith);
    lemma_cancel_factor(sq * t2, m * a2, m);
    // What it stands for does not exceed it by more than the slack.
    let u = m * m * a;
    let v = y * (m + r) * t;
    assert(0 <= u) by (nonlinear_arith)
        requires
            u == m * m * a,
            a >= 0,
            m >= 0,
    ;
    lemma_square_keeps_order(u, v);
    assert(u * u == (m * m) * ((m * m) * a2)) by (nonlinear_arith)
        requires
            u == m * m * a,
            a2 == a * a,
    ;
    assert(v * v == y2 * (r2 * t2)) by (nonlinear_arith)
        requires
            v == y * (m + r) * t,
            y2 == y * y,
            r2 == (m + r) * (m + r),
            t2 == t * t,
    ;
    assert(0 <= r2 * t2) by (nonlinear_arith)
        requires
            0 <= r2,
            0 <= t2,
    ;
    assert(y2 <= sq * (m + 1));
    lemma_scale_keeps_order(y2, sq * (m + 1), r2 * t2);
    assert((sq * (m + 1)) * (r2 * t2) == (sq * t2) * ((m + 1) * r2)) by (nonlinear_arith);
}

/// One step of the logarithm that finds a zero bit keeps the mantissa
/// standing for the square of what it stood for.
proof fn lemma_step_without_division(y: int, a: int, t: int, r: int)
    requires
        stands_for(y, a, t, r),
        2 * r + 3 <= slack_limit(),
        mantissa_square(y) < 10 * MANTISSA_ONE,
    ensures
        stands_for(mantissa_square(y), a * a, t * t, 2 * r + 3),
{
    let m = MANTISSA_ONE as int;
    let sq = mantissa_square(y);
    let a2 = a * a;
    let t2 = t * t;
    let r2 = (m + r) * (m + r);
    let k = m + (2 * r + 3);
    lemma_squared_bounds(y, a, t, r);
    lemma_slack_after_square(r);
    assert(1 <= a2 && 1 <= t2) by (nonlinear_arith)
        requires
            a >= 1,
            t >= 1,
            a2 == a * a,
            t2 == t * t,
    ;
    assert(0 <= sq * t2) by (nonlinear_arith)
        requires
            0 <= sq,
            0 <= t2,
    ;
    lemma_scale_keeps_order((m + 1) * r2, (m * m) * k, sq * t2);
    assert(((m * m) * k) * (sq * t2) == (m * m) * (sq * k * t2)) by (nonlinear_arith);
    assert(((m + 1) * r2) * (sq * t2) == (sq * t2) * ((m + 1) * r2)) by (nonlinear_arith);
    lemma_cancel_factor((m * m) * a2, sq * k * t2, m * m);
    assert(m * m * a2 == (m * m) * a2);
}

/// One step of the logarithm that finds a one bit keeps the mantissa
/// standing for a tenth of the square of what it stood for.
proof fn lemma_step_with_division(y: int, a: int, t: int, r: int)
    requires
        stands_for(y, a, t, r),
        2 * r + 3 <= slack_limit(),
        mantissa_square(y) >= 10 * MANTISSA_ONE,
    ensures
        stands_for(mantissa_square(y) / 10, a * a, 10 * (t * t), 2 * r + 3),
{
    let m = MANTISSA_ONE as int;
    let sq = mantissa_square(y);
    let next = sq / 10;
    let a2 = a * a;
    let t2 = t * t;
    let r2 = (m + r) * (m + r);
    let k = m + (2 * r + 3);
    lemma_squared_bounds(y, a, t, r);
    lemma_slack_after_division(r);
    assert(1 <= a2 && 1 <= t2) by (nonlinear_arith)
        requires
            a >= 1,
            t >= 1,
            a2 == a * a,
            t2 == t * t,
    ;
    // The mantissa does not exceed what it stands for.
    lemma_scale_keeps_order(10 * next, sq, t2);
    assert((10 * next) * t2 == next * (10 * t2)) by (nonlinear_arith);
    // What it stands for does not exceed it by more than the slack.
    let lhs = (m * m) * ((m * m) * a2);
    let mid = (sq * t2) * ((m + 1) * r2);
    assert(0 <= r2) by (nonlinear_arith)
        requires
            r2 == (m + r) * (m + r),
    ;
    assert(0 <= (m + 1) * r2 * t2) by (nonlinear_arith)
        requires
            0 <= r2,
            0 <= t2,
            0 <= m,
    ;
    assert(m * sq <= (10 * next) * (m + 1));
    lemma_scale_keeps_order(m * sq, (10 * next) * (m + 1), (m + 1) * r2 * t2);
    assert(m * mid == (m * sq) * ((m + 1) * r2 * t2)) by (nonlinear_arith)
        requires
            mid == (sq * t2) * ((m + 1) * r2),
    ;
    assert(((10 * next) * (m + 1)) * ((m + 1) * r2 * t2) == (next * (10 * t2)) * (((m + 1) * (m
        + 1)) * r2)) by (nonlinear_arith);
    assert(0 <= next * (10 * t2)) by (nonlinear_arith)
        requires
            0 <= next,
            0 <= t2,
    ;
    lemma_scale_keeps_order(((m + 1) * (m + 1)) * r2, (m * m * m) * k, next * (10 * t2));
    assert(((m * m * m) * k) * (next * (10 * t2)) == (m * m * m) * (next * k * (10 * t2)))
        by (nonlinear_arith);
    assert((((m + 1) * (m + 1)) * r2) * (next * (10 * t2)) == (next * (10 * t2)) * (((m + 1) * (m
        + 1)) * r2)) by (nonlinear_arith);
    lemma_scale_keeps_order(lhs, mid, m);
    assert(lhs * m == (m * m * m) * ((m * m) * a2)) by (nonlinear_arith)
        requires
            lhs == (m * m) * ((m * m) * a2),
    ;
    assert(mid * m == m * mid) by (nonlinear_arith);
    lemma_cancel_factor((m * m) * a2, next * k * (10 * t2), m * m * m);
    assert(m * m * a2 == (m * m) * a2);
}

/// A power of a square is the power of twice the exponent.
proof fn lemma_pow_of_square(b: int, e: nat)
    ensures
        pow(b * b, e) == pow(b, 2 * e),
{
    lemma_square_is_pow2(b);
    lemma_pow_multiplies(b, 2, e);
}

/// The fraction that the logarithm reads from a mantissa is never above the
/// true one and less than two units below it: with `f` the fraction of `bits`
/// bits and `n` two to the power `bits`, ten to the power `f` is at most the
/// ratio that the mantissa stands for, to the power `n`, which is below ten
/// to the power `f + 2`.
proof fn lemma_fraction_brackets(y: int, bits: nat, a: int, t: int, r: int)
    requires
        stands_for(y, a, t, r),
        (r + 3) * pow2(bits) <= slack_limit(),
    ensures
        0 <= log_fraction(y, bits),
        pow(10, log_fraction(y, bits) as nat) * pow(t, pow2(bits)) <= pow(a, pow2(bits)),
        pow(a, pow2(bits)) < pow(10, (log_fraction(y, bits) + 2) as nat) * pow(t, pow2(bits)),
    decreases bits,
{
    let m = MANTISSA_ONE as int;
    lemma_pow2_pos(bits);
    if bits == 0 {
        lemma2_to64();
        lemma_pow1(a);
        lemma_pow1(t);
        lemma_pow0(10);
        lemma_square_is_pow2(10);
        assert(m * t <= y * t) by (nonlinear_arith)
            requires
                m <= y,
                0 <= t,
        ;
        lemma_cancel_factor(t, a, m);
        assert(y * (m + r) * t <= (20 * (m * m)) * t) by (nonlinear_arith)
            requires
                0 <= y <= 10 * m,
                0 <= r <= m,
                0 <= t,
                m >= 0,
        ;
        assert((20 * (m * m)) * t == (m * m) * (20 * t)) by (nonlinear_arith);
        assert(m * m * a == (m * m) * a);
        lemma_cancel_factor(a, 20 * t, m * m);
        assert(1 * t == t && 100 * t == pow(10, 2) * pow(t, 1));
    } else {
        let rest = (bits - 1) as nat;
        let n = pow2(rest);
        lemma_pow2_unfold(bits);
        lemma_pow2_pos(rest);
        assert((2 * r + 3 + 3) * pow2(rest) <= slack_limit() && 2 * r + 3 <= slack_limit())
            by (nonlinear_arith)
            requires
                (r + 3) * pow2(bits) <= slack_limit(),
                pow2(bits) == 2 * pow2(rest),
                pow2(rest) >= 1,
                r >= 0,
        ;
        let sq = mantissa_square(y);
        let a2 = a * a;
        let t2 = t * t;
        lemma_pow_of_square(a, n);
        lemma_pow_of_square(t, n);
        if sq >= 10 * m {
            lemma_step_with_division(y, a, t, r);
            lemma_fraction_brackets(sq / 10, rest, a2, 10 * t2, 2 * r + 3);
            let f = log_fraction(sq / 10, rest);
            lemma_pow_distributes(10, t2, n);
            lemma_pow_adds(10, f as nat, n);
            lemma_pow_adds(10, (f + 2) as nat, n);
            let low = pow(10, f as nat);
            let high = pow(10, (f + 2) as nat);
            let tens = pow(10, n);
            let base = pow(t, pow2(bits));
            assert(low * (tens * base) == (low * tens) * base) by (nonlinear_arith);
            assert(high * (tens * base) == (high * tens) * base) by (nonlinear_arith);
            assert(log_fraction(y, bits) == n + f);
        } else {
            lemma_step_without_division(y, a, t, r);
            lemma_fraction_brackets(sq, rest, a2, t2, 2 * r + 3);
            assert(log_fraction(y, bits) == log_fraction(sq, rest));
        }
    }
}

/// The fixed-point logarithm is never above the true logarithm and less than
/// two units below it. Stated in whole numbers: ten to the power of the
/// logarithm of `x` is at most `x` to the power of the units in a decade,
/// which is below ten to the power of the logarithm and two.
pub proof fn lemma_log10_brackets(x: int)
    requires
        1 <= x,
    ensures
        0 <= log10_scaled(x),
        pow(10, log10_scaled(x) as nat) <= pow(x, LOG_ONE as nat),
        pow(x, LOG_ONE as nat) < pow(10, (log10_scaled(x) + 2) as nat),
{
    let m = MANTISSA_ONE as int;
    let k = decade(x);
    let unit = pow(10, k as nat);
    let y = mantissa(x);
    let bits = LOG_FRACTION_BITS as nat;
    lemma_decade_spans(x);
    crate::logarithm::lemma_mantissa_in_range(x);
    lemma_log_one_is_pow2();
    lemma2_to64();
    assert(y * unit <= m * x && m * x < (y + 1) * unit) by (nonlinear_arith)
        requires
            y == x * m / unit,
            unit >= 1,
    ;
    assert(m * m * x <= y * (m + 1) * unit) by (nonlinear_arith)
        requires
            m * x < (y + 1) * unit,
            m <= y,
            unit >= 1,
            m >= 1,
    ;
    assert(stands_for(y, x, unit, 1));
    lemma_fraction_brackets(y, bits, x, unit, 1);
    let f = log_fraction(y, bits);
    let s = LOG_ONE as nat;
    lemma_pow_multiplies(10, k as nat, s);
    lemma_pow_adds(10, f as nat, (k * s) as nat);
    lemma_pow_adds(10, (f + 2) as nat, (k * s) as nat);
    assert(k * s >= 0) by (nonlinear_arith)
        requires
            k >= 0,
            s >= 0,
    ;
    assert(log10_scaled(x) == k * s + f);
}

/// Of two bases that are not negative, the larger has the larger power.
proof fn lemma_pow_grows_with_base(a: int, b: int, e: nat)
    requires
        0 <= a <= b,
    ensures
        0 <= pow(a, e) <= pow(b, e),
    decreases e,
{
    reveal(pow);
    if e > 0 {
        lemma_pow_grows_with_base(a, b, (e - 1) as nat);
        let p = pow(a, (e - 1) as nat);
        let q = pow(b, (e - 1) as nat);
        assert(0 <= a * p <= b * q) by (nonlinear_arith)
            requires
                0 <= a <= b,
                0 <= p <= q,
        ;
    }
}

/// The logarithm of every number from two on is above zero.
pub proof fn lemma_log10_positive(x: int)
    requires
        2 <= x,
    ensures
        0 < log10_scaled(x),
{
    lemma_log10_brackets(x);
    if log10_scaled(x) == 0 {
        lemma_square_is_pow2(10);
        lemma_pow_grows_with_base(2, x, LOG_ONE as nat);
        vstd::arithmetic::power::lemma_pow_increases(2, 7, LOG_ONE as nat);
        vstd::arithmetic::power2::lemma_pow2(7);
        lemma2_to64();
    }
}

} // verus!

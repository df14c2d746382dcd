//! Base-ten logarithms of whole numbers, in binary fixed point.
//!
//! A logarithm is held as a whole number of `1 / LOG_ONE` decades. Its whole
//! part is the number of decimal digits less one; its fraction is read off bit
//! by bit by squaring a mantissa between one and ten, which is held with sixty
//! fraction bits and rounded down after every step.

use vstd::arithmetic::logarithm::{lemma_log0, lemma_log_is_ordered, lemma_log_s, log};
use vstd::arithmetic::power::pow;
use vstd::arithmetic::power2::{lemma2_to64, lemma_pow2_pos, lemma_pow2_unfold, pow2};
use vstd::prelude::*;

verus! {

/// The number of fraction bits of a logarithm.
pub const LOG_FRACTION_BITS: u32 = 20;

/// One decade, in the unit of a logarithm: two to the power `LOG_FRACTION_BITS`.
pub const LOG_ONE: u64 = 1_048_576;

/// The mantissa's one: two to the power sixty.
pub const MANTISSA_ONE: u128 = 0x1000_0000_0000_0000;

/// The largest whole part that the logarithm of a `u64` can have.
pub const MAX_DECADE: u64 = 19;

/// The whole part of the base-ten logarithm of `x`.
pub open spec fn decade(x: int) -> int {
    log(10, x)
}

/// `x` divided by the power of ten below it, with sixty fraction bits.
pub open spec fn mantissa(x: int) -> int {
    x * (MANTISSA_ONE as int) / pow(10, decade(x) as nat)
}

/// One squaring step on a mantissa: the square, rounded down.
pub open spec fn mantissa_square(y: int) -> int {
    y * y / (MANTISSA_ONE as int)
}

/// The first `bits` fraction bits of the base-ten logarithm of the mantissa
/// `y`, as a whole number below `pow2(bits)`.
pub open spec fn log_fraction(y: int, bits: nat) -> int
    decreases bits,
{
    if bits == 0 {
        0
    } else {
        let square = mantissa_square(y);
        if square >= 10 * (MANTISSA_ONE as int) {
            pow2((bits - 1) as nat) + log_fraction(square / 10, (bits - 1) as nat)
        } else {
            log_fraction(square, (bits - 1) as nat)
        }
    }
}

/// The base-ten logarithm of `x`, in units of `1 / LOG_ONE` decades.
pub open spec fn log10_scaled(x: int) -> int {
    decade(x) * (LOG_ONE as int) + log_fraction(mantissa(x), LOG_FRACTION_BITS as nat)
}

/// A mantissa lies between one and ten.
pub open spec fn mantissa_in_range(y: int) -> bool {
    (MANTISSA_ONE as int) <= y < 10 * (MANTISSA_ONE as int)
}

/// Ten to the power nineteen, the largest power of ten that a `u64` holds.
pub proof fn lemma_pow10_nineteen()
    ensures
        pow(10, 19) == 10_000_000_000_000_000_000int,
{
    reveal(pow);
    assert(pow(10, 0) == 1);
    assert(pow(10, 1) == 10);
    assert(pow(10, 2) == 100);
    assert(pow(10, 3) == 1_000);
    assert(pow(10, 4) == 10_000);
    assert(pow(10, 5) == 100_000);
    assert(pow(10, 6) == 1_000_000);
    assert(pow(10, 7) == 10_000_000);
    assert(pow(10, 8) == 100_000_000);
    assert(pow(10, 9) == 1_000_000_000);
    assert(pow(10, 10) == 10_000_000_000int);
    assert(pow(10, 11) == 100_000_000_000int);
    assert(pow(10, 12) == 1_000_000_000_000int);
    assert(pow(10, 13) == 10_000_000_000_000int);
    assert(pow(10, 14) == 100_000_000_000_000int);
    assert(pow(10, 15) == 1_000_000_000_000_000int);
    assert(pow(10, 16) == 10_000_000_000_000_000int);
    assert(pow(10, 17) == 100_000_000_000_000_000int);
    assert(pow(10, 18) == 1_000_000_000_000_000_000int);
}

/// Powers of ten grow with the exponent.
pub proof fn lemma_pow10_grows(a: nat, b: nat)
    requires
        a <= b,
    ensures
        1 <= pow(10, a) <= pow(10, b),
    decreases b,
{
    reveal(pow);
    if a < b {
        lemma_pow10_grows(a, (b - 1) as nat);
    } else if a > 0 {
        lemma_pow10_grows((a - 1) as nat, (a - 1) as nat);
    }
}

/// A number between two neighbouring powers of ten has the lower exponent as
/// the whole part of its logarithm.
pub proof fn lemma_decade_unique(x: int, k: nat)
    requires
        pow(10, k) <= x < 10 * pow(10, k),
    ensures
        decade(x) == k,
    decreases k,
{
    reveal(pow);
    if k == 0 {
        lemma_log0(10, x);
    } else {
        lemma_log_s(10, x);
        lemma_decade_unique(x / 10, (k - 1) as nat);
    }
}

/// Every positive number lies between the power of ten that its decade names
/// and the next one.
pub proof fn lemma_decade_spans(x: int)
    requires
        1 <= x,
    ensures
        0 <= decade(x),
        pow(10, decade(x) as nat) <= x < 10 * pow(10, decade(x) as nat),
    decreases x,
{
    reveal(pow);
    if x < 10 {
        lemma_log0(10, x);
    } else {
        lemma_log_s(10, x);
        lemma_decade_spans(x / 10);
    }
}

/// The mantissa of a positive number lies between one and ten.
pub proof fn lemma_mantissa_in_range(x: int)
    requires
        1 <= x,
    ensures
        mantissa_in_range(mantissa(x)),
{
    lemma_decade_spans(x);
    let unit = pow(10, decade(x) as nat);
    let one = MANTISSA_ONE as int;
    assert(one <= x * one / unit < 10 * one) by (nonlinear_arith)
        requires
            1 <= unit <= x < 10 * unit,
            one > 0,
    ;
}

/// Squaring keeps a mantissa at or above one and below one hundred.
pub proof fn lemma_square_in_range(y: int)
    requires
        mantissa_in_range(y),
    ensures
        (MANTISSA_ONE as int) <= mantissa_square(y) < 100 * (MANTISSA_ONE as int),
{
    let one = MANTISSA_ONE as int;
    assert(one <= y * y / one < 100 * one) by (nonlinear_arith)
        requires
            one <= y < 10 * one,
            one > 0,
    ;
}

/// Squaring keeps the order of two mantissas.
pub proof fn lemma_square_ordered(a: int, b: int)
    requires
        0 <= a <= b,
    ensures
        mantissa_square(a) <= mantissa_square(b),
{
    let one = MANTISSA_ONE as int;
    assert(a * a / one <= b * b / one) by (nonlinear_arith)
        requires
            0 <= a <= b,
            one > 0,
    ;
}

/// A fraction of `bits` bits is below two to the power `bits`.
pub proof fn lemma_log_fraction_bound(y: int, bits: nat)
    ensures
        0 <= log_fraction(y, bits) < pow2(bits),
    decreases bits,
{
    lemma_pow2_pos(bits);
    if bits > 0 {
        lemma_pow2_unfold(bits);
        let square = mantissa_square(y);
        lemma_log_fraction_bound(square / 10, (bits - 1) as nat);
        lemma_log_fraction_bound(square, (bits - 1) as nat);
    }
}

/// The larger mantissa has the larger fraction.
pub proof fn lemma_log_fraction_ordered(a: int, b: int, bits: nat)
    requires
        0 <= a <= b,
    ensures
        log_fraction(a, bits) <= log_fraction(b, bits),
    decreases bits,
{
    if bits > 0 {
        let sa = mantissa_square(a);
        let sb = mantissa_square(b);
        let ten = 10 * (MANTISSA_ONE as int);
        lemma_square_ordered(a, b);
        assert(0 <= sa) by (nonlinear_arith)
            requires
                sa == a * a / (MANTISSA_ONE as int),
                MANTISSA_ONE > 0,
        ;
        if sa >= ten {
            lemma_log_fraction_ordered(sa / 10, sb / 10, (bits - 1) as nat);
        } else if sb >= ten {
            lemma_log_fraction_bound(sa, (bits - 1) as nat);
            lemma_log_fraction_bound(sb / 10, (bits - 1) as nat);
        } else {
            lemma_log_fraction_ordered(sa, sb, (bits - 1) as nat);
        }
    }
}

/// The mantissa one has no fraction: all its bits are zero.
pub proof fn lemma_log_fraction_of_one(bits: nat)
    ensures
        log_fraction(MANTISSA_ONE as int, bits) == 0,
    decreases bits,
{
    if bits > 0 {
        assert(mantissa_square(MANTISSA_ONE as int) == MANTISSA_ONE as int);
        lemma_log_fraction_of_one((bits - 1) as nat);
    }
}

/// The logarithm's unit is two to the power of its fraction bits.
pub proof fn lemma_log_one_is_pow2()
    ensures
        pow2(LOG_FRACTION_BITS as nat) == LOG_ONE,
{
    lemma2_to64();
}

/// The logarithm of a positive number lies in the decade that its whole part
/// names.
pub proof fn lemma_log10_in_decade(x: int)
    requires
        1 <= x,
    ensures
        0 <= decade(x),
        decade(x) * (LOG_ONE as int) <= log10_scaled(x) < (decade(x) + 1) * (LOG_ONE as int),
{
    lemma_decade_spans(x);
    lemma_log_fraction_bound(mantissa(x), LOG_FRACTION_BITS as nat);
    lemma_log_one_is_pow2();
}

/// The logarithm is monotonic: of two positive numbers the larger has the
/// larger logarithm.
pub proof fn lemma_log10_ordered(a: int, b: int)
    requires
        1 <= a <= b,
    ensures
        0 <= log10_scaled(a) <= log10_scaled(b),
{
    lemma_log_is_ordered(10, a, b);
    lemma_log10_in_decade(a);
    lemma_log10_in_decade(b);
    let one = LOG_ONE as int;
    if decade(a) == decade(b) {
        lemma_decade_spans(a);
        let unit = pow(10, decade(a) as nat);
        let scale = MANTISSA_ONE as int;
        assert(0 <= a * scale / unit <= b * scale / unit) by (nonlinear_arith)
            requires
                1 <= a <= b,
                unit >= 1,
                scale > 0,
        ;
        lemma_log_fraction_ordered(mantissa(a), mantissa(b), LOG_FRACTION_BITS as nat);
    } else {
        assert((decade(a) + 1) * one <= decade(b) * one) by (nonlinear_arith)
            requires
                decade(a) + 1 <= decade(b),
                one > 0,
        ;
    }
    assert(0 <= decade(a) * one) by (nonlinear_arith)
        requires
            0 <= decade(a),
            one > 0,
    ;
}

/// The logarithm of a number that a `u64` holds is below twenty decades.
pub proof fn lemma_log10_below_limit(x: int)
    requires
        1 <= x <= u64::MAX,
    ensures
        log10_scaled(x) < (MAX_DECADE + 1) * LOG_ONE,
{
    lemma_log10_in_decade(x);
    lemma_decade_spans(x);
    if decade(x) > MAX_DECADE {
        lemma_pow10_nineteen();
        reveal(pow);
        lemma_pow10_grows(20, decade(x) as nat);
    }
    let one = LOG_ONE as int;
    assert((decade(x) + 1) * one <= (MAX_DECADE + 1) * one) by (nonlinear_arith)
        requires
            decade(x) <= MAX_DECADE,
            one > 0,
    ;
}

/// The logarithm of a power of ten is exact: the exponent, in whole decades.
pub proof fn lemma_log10_of_power(k: nat)
    ensures
        log10_scaled(pow(10, k)) == k * (LOG_ONE as int),
{
    lemma_pow10_grows(k, k);
    let x = pow(10, k);
    lemma_decade_unique(x, k);
    let scale = MANTISSA_ONE as int;
    assert(x * scale / x == scale) by (nonlinear_arith)
        requires
            x >= 1,
    ;
    lemma_log_fraction_of_one(LOG_FRACTION_BITS as nat);
}

/// Computes the base-ten logarithm of a positive number in fixed point.
pub fn log10(x: u64) -> (r: u64)
    requires
        x >= 1,
    ensures
        r == log10_scaled(x as int),
        r < (MAX_DECADE + 1) * LOG_ONE,
{
    let mut whole: u64 = 0;
    let mut unit: u128 = 1;
    proof {
        reveal(pow);
    }
    while x as u128 / unit >= 10
        invariant
            unit == pow(10, whole as nat),
            1 <= unit <= x,
            whole <= MAX_DECADE,
        decreases x - unit,
    {
        proof {
            reveal(pow);
            let xi = x as int;
            let ui = unit as int;
            assert(10 * ui <= xi) by (nonlinear_arith)
                requires
                    xi / ui >= 10,
                    ui >= 1,
            ;
            if whole >= MAX_DECADE {
                lemma_pow10_nineteen();
                lemma_pow10_grows(19, whole as nat);
            }
        }
        unit = unit * 10;
        whole = whole + 1;
    }
    proof {
        let xi = x as int;
        let ui = unit as int;
        assert(xi < 10 * ui) by (nonlinear_arith)
            requires
                xi / ui < 10,
                ui >= 1,
        ;
        lemma_decade_unique(x as int, whole as nat);
        lemma_mantissa_in_range(x as int);
        lemma_log_one_is_pow2();
    }
    let mut y: u128 = (x as u128) * MANTISSA_ONE / unit;
    let mut fraction: u64 = 0;
    let mut left: u32 = LOG_FRACTION_BITS;
    while left > 0
        invariant
            left <= LOG_FRACTION_BITS,
            mantissa_in_range(y as int),
            fraction < pow2((LOG_FRACTION_BITS - left) as nat),
            log_fraction(mantissa(x as int), LOG_FRACTION_BITS as nat) == fraction * pow2(
                left as nat,
            ) + log_fraction(y as int, left as nat),
        decreases left,
    {
        proof {
            lemma_square_in_range(y as int);
            lemma_pow2_unfold(left as nat);
            lemma_pow2_unfold((LOG_FRACTION_BITS - left + 1) as nat);
            lemma2_to64();
            let f = fraction as int;
            let p = pow2((left - 1) as nat) as int;
            assert((2 * f) * p == f * (2 * p)) by (nonlinear_arith);
            assert((2 * f + 1) * p == f * (2 * p) + p) by (nonlinear_arith);
        }
        let square: u128 = y * y / MANTISSA_ONE;
        if square >= 10 * MANTISSA_ONE {
            y = square / 10;
            fraction = 2 * fraction + 1;
        } else {
            y = square;
            fraction = 2 * fraction;
        }
        left = left - 1;
    }
    proof {
        lemma2_to64();
        assert(pow2(0) == 1);
        assert(decade(x as int) == whole);
        assert(log_fraction(y as int, 0) == 0);
        assert(fraction * pow2(0) == fraction) by (nonlinear_arith)
            requires
                pow2(0) == 1,
        ;
        assert(log_fraction(mantissa(x as int), LOG_FRACTION_BITS as nat) == fraction);
        assert(fraction < LOG_ONE);
    }
    whole * LOG_ONE + fraction
}

} // verus!

//! The fixed-point units in which the engine holds its quantities.
//!
//! Percentages, normalised factors and scores are held in millionths of a
//! point, so that one hundred points are `HUNDRED_POINTS`. Fractions of the
//! index (factor weights, position sizes, portfolio weights) are held in parts
//! per billion, so that the whole index is `FRACTION_ONE`. Market values are
//! whole currency units.

use vstd::prelude::*;

verus! {

/// One point (one per cent), in millionths.
pub const POINT: u32 = 1_000_000;

/// The top of the common factor scale: one hundred points.
pub const HUNDRED_POINTS: u32 = 100_000_000;

/// The factor that every company gets when a factor's values do not spread.
pub const NEUTRAL_FACTOR: u32 = 50_000_000;

/// The whole index, in parts per billion.
pub const FRACTION_ONE: u32 = 1_000_000_000;

/// How far from one whole the three factor weights may sum: a thousandth.
pub const WEIGHT_SUM_TOLERANCE: u32 = 1_000_000;

/// The widest spread that `rescale` is computed for.
pub const MAX_SPREAD: i64 = 250_000_000;

/// The values of a sequence of `u64` as mathematical integers.
pub open spec fn ints_of_u64(s: Seq<u64>) -> Seq<int> {
    s.map_values(|v: u64| v as int)
}

/// The values of a sequence of `i64` as mathematical integers.
pub open spec fn ints_of_i64(s: Seq<i64>) -> Seq<int> {
    s.map_values(|v: i64| v as int)
}

/// The values of a sequence of `u32` as mathematical integers.
pub open spec fn ints_of_u32(s: Seq<u32>) -> Seq<int> {
    s.map_values(|v: u32| v as int)
}

/// Where `v` stands between `lo` and `hi`, on the scale from zero to one
/// hundred points, rounded down.
pub open spec fn rescale(v: int, lo: int, hi: int) -> int {
    (v - lo) * (HUNDRED_POINTS as int) / (hi - lo)
}

/// A rescaled value lies on the scale, and the larger value stands higher.
pub proof fn lemma_rescale_ordered(a: int, b: int, lo: int, hi: int)
    requires
        lo <= a <= b <= hi,
        lo < hi,
    ensures
        0 <= rescale(a, lo, hi) <= rescale(b, lo, hi) <= HUNDRED_POINTS,
{
    let h = HUNDRED_POINTS as int;
    let d = hi - lo;
    let x = a - lo;
    let y = b - lo;
    assert(0 <= x * h / d <= y * h / d <= h) by (nonlinear_arith)
        requires
            0 <= x <= y <= d,
            d > 0,
            h > 0,
    ;
}

/// The two ends of the range stand at the two ends of the scale.
pub proof fn lemma_rescale_ends(lo: int, hi: int)
    requires
        lo < hi,
    ensures
        rescale(lo, lo, hi) == 0,
        rescale(hi, lo, hi) == HUNDRED_POINTS,
{
    let h = HUNDRED_POINTS as int;
    let d = hi - lo;
    assert(0 * h / d == 0 && d * h / d == h) by (nonlinear_arith)
        requires
            d > 0,
    ;
}

/// Computes where `v` stands between `lo` and `hi` on the common scale.
pub fn rescale_value(v: i64, lo: i64, hi: i64) -> (r: u32)
    requires
        lo <= v <= hi,
        lo < hi,
        hi - lo <= MAX_SPREAD,
    ensures
        r == rescale(v as int, lo as int, hi as int),
        r <= HUNDRED_POINTS,
{
    proof {
        lemma_rescale_ordered(v as int, v as int, lo as int, hi as int);
        let h = HUNDRED_POINTS as int;
        let x = v - lo;
        assert(0 <= x * h <= 250_000_000 * h) by (nonlinear_arith)
            requires
                0 <= x <= 250_000_000,
                h > 0,
        ;
    }
    let offset: i64 = v - lo;
    let spread: i64 = hi - lo;
    let scaled: i64 = offset * (HUNDRED_POINTS as i64) / spread;
    scaled as u32
}

} // verus!

//! From factors to weights: the score of each company, its proportional share,
//! the position bounds, and the shares of what the bounds leave.
//!
//! The bounds are applied once, between the two proportional steps. The second
//! step can therefore move a weight past a bound again: the bounds shape
//! the weights, they do not confine them.
//!
//! A batch whose scores, or whose bounded shares, sum to zero has no
//! proportions to go by; it is shared out equally.

use crate::factors::{growth_factor, market_cap_factor};
use crate::series::{lemma_take_next, lemma_total_at_most, lemma_total_bounds, total};
use crate::units::{ints_of_u32, ints_of_u64, FRACTION_ONE};
use crate::weighting::{CompanyMetrics, WeightingAlgorithm};
use vstd::prelude::*;

verus! {

/// The market values of a batch.
pub open spec fn market_caps_of(companies: Seq<CompanyMetrics>) -> Seq<int> {
    Seq::new(companies.len(), |i: int| companies[i].market_cap as int)
}

/// The growth rates of a batch.
pub open spec fn growth_rates_of(companies: Seq<CompanyMetrics>) -> Seq<int> {
    Seq::new(companies.len(), |i: int| companies[i].revenue_growth_rate as int)
}

/// The weighted combination of three factors, rounded down.
pub open spec fn combine(cfg: WeightingAlgorithm, space: int, market: int, growth: int) -> int {
    (space * cfg.space_revenue_weight + market * cfg.market_cap_weight + growth
        * cfg.growth_weight) / (FRACTION_ONE as int)
}

/// The score of company `i` of a batch.
pub open spec fn raw_score(cfg: WeightingAlgorithm, companies: Seq<CompanyMetrics>, i: int) -> int {
    combine(
        cfg,
        companies[i].space_revenue_pct as int,
        market_cap_factor(market_caps_of(companies), i),
        growth_factor(growth_rates_of(companies), i),
    )
}

/// The scores of a batch, in its order.
pub open spec fn raw_scores(cfg: WeightingAlgorithm, companies: Seq<CompanyMetrics>) -> Seq<int> {
    Seq::new(companies.len(), |i: int| raw_score(cfg, companies, i))
}

/// The share of `part` in `whole`, rounded down; where there is nothing to
/// share by, the equal share among `count`.
pub open spec fn share(part: int, whole: int, count: int) -> int {
    if whole == 0 {
        (FRACTION_ONE as int) / count
    } else {
        part * (FRACTION_ONE as int) / whole
    }
}

/// The share of each value in the sum of all of them.
pub open spec fn shares(values: Seq<int>) -> Seq<int> {
    Seq::new(values.len(), |i: int| share(values[i], total(values), values.len() as int))
}

/// A share, held to the position bounds: raised to the lower bound, else
/// lowered to the upper one.
pub open spec fn clamp_position(cfg: WeightingAlgorithm, w: int) -> int {
    if w < cfg.min_position_size {
        cfg.min_position_size as int
    } else if w > cfg.max_position_size {
        cfg.max_position_size as int
    } else {
        w
    }
}

/// Every share of a batch, held to the position bounds.
pub open spec fn clamped(cfg: WeightingAlgorithm, weights: Seq<int>) -> Seq<int> {
    Seq::new(weights.len(), |i: int| clamp_position(cfg, weights[i]))
}

/// The weights of a batch, in its order.
pub open spec fn index_weights(cfg: WeightingAlgorithm, companies: Seq<CompanyMetrics>) -> Seq<
    int,
> {
    shares(clamped(cfg, shares(raw_scores(cfg, companies))))
}

/// A share of values that are not negative is a fraction: between nothing and
/// the whole.
pub proof fn lemma_share_is_fraction(values: Seq<int>, i: int)
    requires
        forall|j: int| 0 <= j < values.len() ==> 0 <= #[trigger] values[j],
        0 <= i < values.len(),
    ensures
        0 <= shares(values)[i] <= FRACTION_ONE,
{
    lemma_total_bounds(values);
    let whole = total(values);
    let part = values[i];
    let one = FRACTION_ONE as int;
    let n = values.len() as int;
    if whole == 0 {
        assert(0 <= one / n <= one) by (nonlinear_arith)
            requires
                n >= 1,
                one >= 0,
        ;
    } else {
        assert(0 <= part * one / whole <= one) by (nonlinear_arith)
            requires
                0 <= part <= whole,
                whole > 0,
                one >= 0,
        ;
    }
}

/// Rounding down loses less than one unit for each share: the shares of the
/// first `k` values, times the whole, reach the values themselves, times one
/// whole, to within `k` times the largest remainder.
proof fn lemma_shares_prefix(values: Seq<int>, k: int)
    requires
        forall|j: int| 0 <= j < values.len() ==> 0 <= #[trigger] values[j],
        total(values) > 0,
        0 <= k <= values.len(),
    ensures
        total(values) * total(shares(values).take(k)) <= (FRACTION_ONE as int) * total(
            values.take(k),
        ),
        (FRACTION_ONE as int) * total(values.take(k)) <= total(values) * total(
            shares(values).take(k),
        ) + k * (total(values) - 1),
    decreases k,
{
    let whole = total(values);
    let one = FRACTION_ONE as int;
    if k == 0 {
        assert(values.take(0).len() == 0);
        assert(shares(values).take(0).len() == 0);
        assert(whole * 0 == 0 && one * 0 == 0 && 0 * (whole - 1) == 0) by (nonlinear_arith);
    } else {
        lemma_shares_prefix(values, k - 1);
        lemma_take_next(values, k - 1);
        lemma_take_next(shares(values), k - 1);
        let v = values[k - 1];
        let q = shares(values)[k - 1];
        let tv = total(values.take(k - 1));
        let tq = total(shares(values).take(k - 1));
        assert(q == v * one / whole);
        assert(whole * (tq + q) <= one * (tv + v) && one * (tv + v) <= whole * (tq + q) + k * (whole
            - 1)) by (nonlinear_arith)
            requires
                q == v * one / whole,
                whole > 0,
                one > 0,
                v >= 0,
                k >= 1,
                whole * tq <= one * tv,
                one * tv <= whole * tq + (k - 1) * (whole - 1),
        ;
    }
}

/// The shares of a batch that is not empty sum to one whole, less what
/// rounding down loses: less than one unit for each share.
pub proof fn lemma_shares_total(values: Seq<int>)
    requires
        forall|j: int| 0 <= j < values.len() ==> 0 <= #[trigger] values[j],
        values.len() > 0,
    ensures
        FRACTION_ONE - values.len() < total(shares(values)) <= FRACTION_ONE,
{
    let whole = total(values);
    let one = FRACTION_ONE as int;
    let n = values.len() as int;
    lemma_total_bounds(values);
    if whole == 0 {
        let each = one / n;
        crate::series::lemma_total_at_most(shares(values), each);
        crate::series::lemma_total_at_least(shares(values), each);
        assert(one - n < each * n <= one) by (nonlinear_arith)
            requires
                each == one / n,
                n >= 1,
                one >= 0,
        ;
    } else {
        lemma_shares_prefix(values, n);
        assert(values.take(n) =~= values);
        assert(shares(values).take(n) =~= shares(values));
        let tq = total(shares(values));
        assert(one - n < tq <= one) by (nonlinear_arith)
            requires
                whole > 0,
                n >= 1,
                whole * tq <= one * whole,
                one * whole <= whole * tq + n * (whole - 1),
        ;
    }
}

/// The weights of a batch that is not empty sum to one whole, less what
/// rounding down loses: less than one part per billion for each company.
pub proof fn lemma_index_weights_total(cfg: WeightingAlgorithm, companies: Seq<CompanyMetrics>)
    requires
        companies.len() > 0,
    ensures
        FRACTION_ONE - companies.len() < total(index_weights(cfg, companies)) <= FRACTION_ONE,
{
    lemma_shares_total(clamped(cfg, shares(raw_scores(cfg, companies))));
}

/// The sum of a vector, in a type that holds it.
pub fn sum_of(values: &Vec<u64>) -> (r: u128)
    ensures
        r == total(ints_of_u64(values@)),
{
    let ghost ints = ints_of_u64(values@);
    let mut acc: u128 = 0;
    let mut i: usize = 0;
    while i < values.len()
        invariant
            i <= values.len(),
            ints == ints_of_u64(values@),
            acc == total(ints.take(i as int)),
            acc <= i * u64::MAX,
        decreases values.len() - i,
    {
        proof {
            lemma_take_next(ints, i as int);
            let m = u64::MAX as int;
            let k = i as int;
            assert(k * m + m == (k + 1) * m) by (nonlinear_arith);
            assert((k + 1) * m <= m * m) by (nonlinear_arith)
                requires
                    k + 1 <= m,
                    m > 0,
            ;
        }
        acc = acc + values[i] as u128;
        i = i + 1;
    }
    proof {
        assert(ints.take(ints.len() as int) =~= ints);
    }
    acc
}

/// The share of each value of a vector in the sum of all of them.
pub fn proportional_shares(values: &Vec<u64>) -> (out: Vec<u32>)
    ensures
        ints_of_u32(out@) == shares(ints_of_u64(values@)),
{
    let n: usize = values.len();
    let whole: u128 = sum_of(values);
    let ghost ints = ints_of_u64(values@);
    let mut out: Vec<u32> = Vec::new();
    let mut i: usize = 0;
    while i < n
        invariant
            i <= n,
            n == values.len(),
            ints == ints_of_u64(values@),
            whole == total(ints),
            out.len() == i,
            forall|j: int| 0 <= j < i ==> out[j] == shares(ints)[j],
        decreases n - i,
    {
        proof {
            lemma_share_is_fraction(ints, i as int);
            let v = values[i as int] as int;
            let one = FRACTION_ONE as int;
            assert(0 <= v * one <= 0xffff_ffff_ffff_ffff * one) by (nonlinear_arith)
                requires
                    0 <= v <= 0xffff_ffff_ffff_ffff,
                    one > 0,
            ;
        }
        let piece: u128 = if whole == 0 {
            FRACTION_ONE as u128 / n as u128
        } else {
            values[i] as u128 * FRACTION_ONE as u128 / whole
        };
        out.push(piece as u32);
        i = i + 1;
    }
    out
}

impl WeightingAlgorithm {
    /// The weighted combination of three factors.
    pub fn combine_factors(&self, space: u32, market: u32, growth: u32) -> (r: u64)
        ensures
            r == combine(*self, space as int, market as int, growth as int),
    {
        proof {
            let m = u32::MAX as int;
            let a = self.space_revenue_weight as int;
            let b = self.market_cap_weight as int;
            let c = self.growth_weight as int;
            let s = space as int;
            let k = market as int;
            let g = growth as int;
            assert(0 <= s * a <= 0xffff_fffe_0000_0001 && 0 <= k * b <= 0xffff_fffe_0000_0001 && 0
                <= g * c <= 0xffff_fffe_0000_0001) by (nonlinear_arith)
                requires
                    m == 0xffff_ffff,
                    0 <= s <= m,
                    0 <= k <= m,
                    0 <= g <= m,
                    0 <= a <= m,
                    0 <= b <= m,
                    0 <= c <= m,
            ;
        }
        let sum: u128 = space as u128 * self.space_revenue_weight as u128 + market as u128
            * self.market_cap_weight as u128 + growth as u128 * self.growth_weight as u128;
        let score: u128 = sum / FRACTION_ONE as u128;
        assert(sum <= 3 * 0xffff_fffe_0000_0001);
        assert(score == sum / 1_000_000_000 <= u64::MAX);
        score as u64
    }

    /// A share, held to the position bounds.
    pub fn clamp_to_bounds(&self, w: u32) -> (r: u32)
        ensures
            r == clamp_position(*self, w as int),
    {
        if w < self.min_position_size {
            self.min_position_size
        } else if w > self.max_position_size {
            self.max_position_size
        } else {
            w
        }
    }

    /// The weights that a batch's scores lead to: shares, bounds, shares.
    pub fn weights_from_scores(&self, scores: &Vec<u64>) -> (out: Vec<u32>)
        ensures
            ints_of_u32(out@) == shares(clamped(*self, shares(ints_of_u64(scores@)))),
    {
        let first: Vec<u32> = proportional_shares(scores);
        let n: usize = first.len();
        let ghost target = clamped(*self, ints_of_u32(first@));
        let mut bounded: Vec<u64> = Vec::new();
        let mut i: usize = 0;
        while i < n
            invariant
                i <= n,
                n == first.len(),
                target == clamped(*self, ints_of_u32(first@)),
                bounded.len() == i,
                forall|j: int| 0 <= j < i ==> bounded[j] == target[j],
            decreases n - i,
        {
            let w: u32 = self.clamp_to_bounds(first[i]);
            bounded.push(w as u64);
            i = i + 1;
        }
        assert(ints_of_u64(bounded@) =~= target);
        proportional_shares(&bounded)
    }
}

} // verus!

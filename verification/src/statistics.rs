//! Aggregate figures of an index: averages weighted by the constituents'
//! weights, and the sum and the extremes of the weights.

use crate::engine::weights_of;
use crate::series::{greatest, least, lemma_take_next, total};
use crate::units::FRACTION_ONE;
use crate::weighting::{IndexConstituent, IndexSummaryStats, WeightingAlgorithm};
use vstd::prelude::*;

verus! {

/// The sum of the products of two sequences of one length, entry by entry.
pub open spec fn weighted_total(values: Seq<int>, weights: Seq<int>) -> int
    decreases values.len(),
{
    if values.len() == 0 {
        0
    } else {
        weighted_total(values.drop_last(), weights.drop_last()) + values.last() * weights.last()
    }
}

/// A sum of products with parts per billion, as a whole number of units:
/// divided by one whole and rounded toward zero.
pub open spec fn in_units(sum: int) -> int {
    if sum >= 0 {
        sum / (FRACTION_ONE as int)
    } else {
        -((-sum) / (FRACTION_ONE as int))
    }
}

/// The market values of a list of constituents.
pub open spec fn constituent_caps(c: Seq<IndexConstituent>) -> Seq<int> {
    Seq::new(c.len(), |k: int| c[k].market_cap as int)
}

/// The theme revenue shares of a list of constituents.
pub open spec fn constituent_space(c: Seq<IndexConstituent>) -> Seq<int> {
    Seq::new(c.len(), |k: int| c[k].space_revenue_pct as int)
}

/// The growth rates of a list of constituents.
pub open spec fn constituent_growth(c: Seq<IndexConstituent>) -> Seq<int> {
    Seq::new(c.len(), |k: int| c[k].revenue_growth_rate as int)
}

/// The figures of a list of constituents that is not empty.
pub open spec fn summary_of(c: Seq<IndexConstituent>) -> IndexSummaryStats {
    let w = weights_of(c);
    IndexSummaryStats {
        num_constituents: c.len() as usize,
        total_weight: total(w) as u64,
        weighted_avg_market_cap: in_units(weighted_total(constituent_caps(c), w)) as u128,
        weighted_avg_space_rev_pct: in_units(weighted_total(constituent_space(c), w)) as u128,
        weighted_avg_growth: in_units(weighted_total(constituent_growth(c), w)) as i128,
        max_weight: greatest(w) as u32,
        min_weight: least(w) as u32,
    }
}

/// The sum of the first values of a sequence of values that are not negative
/// is at most the sum of all of them.
pub proof fn lemma_total_prefix(s: Seq<int>, i: int)
    requires
        forall|j: int| 0 <= j < s.len() ==> 0 <= #[trigger] s[j],
        0 <= i <= s.len(),
    ensures
        0 <= total(s.take(i)) <= total(s),
    decreases s.len() - i,
{
    if i == s.len() {
        assert(s.take(i) =~= s);
        crate::series::lemma_total_bounds(s);
    } else {
        lemma_total_prefix(s, i + 1);
        lemma_take_next(s, i);
        crate::series::lemma_total_bounds(s.take(i));
    }
}

/// A weighted sum of values between `-bound` and `bound`, with weights that
/// are not negative, lies between the sum of the weights times `-bound` and
/// times `bound`.
pub proof fn lemma_weighted_total_bounded(values: Seq<int>, weights: Seq<int>, bound: int)
    requires
        values.len() == weights.len(),
        forall|j: int| 0 <= j < values.len() ==> -bound <= #[trigger] values[j] <= bound,
        forall|j: int| 0 <= j < weights.len() ==> 0 <= #[trigger] weights[j],
    ensures
        -bound * total(weights) <= weighted_total(values, weights) <= bound * total(weights),
    decreases values.len(),
{
    if values.len() == 0 {
        assert(-bound * 0 == 0 && bound * 0 == 0) by (nonlinear_arith);
    } else {
        let vs = values.drop_last();
        let ws = weights.drop_last();
        assert forall|j: int| 0 <= j < vs.len() implies -bound <= #[trigger] vs[j] <= bound by {
            assert(vs[j] == values[j]);
        }
        assert forall|j: int| 0 <= j < ws.len() implies 0 <= #[trigger] ws[j] by {
            assert(ws[j] == weights[j]);
        }
        lemma_weighted_total_bounded(vs, ws, bound);
        let v = values.last();
        let w = weights.last();
        let t = total(ws);
        let acc = weighted_total(vs, ws);
        assert(-bound * (t + w) <= acc + v * w <= bound * (t + w)) by (nonlinear_arith)
            requires
                -bound * t <= acc <= bound * t,
                -bound <= v <= bound,
                0 <= w,
        ;
    }
}

/// A weighted sum of values that are not negative, with weights that are not
/// negative, is not negative.
pub proof fn lemma_weighted_total_nonnegative(values: Seq<int>, weights: Seq<int>)
    requires
        values.len() == weights.len(),
        forall|j: int| 0 <= j < values.len() ==> 0 <= #[trigger] values[j],
        forall|j: int| 0 <= j < weights.len() ==> 0 <= #[trigger] weights[j],
    ensures
        0 <= weighted_total(values, weights),
    decreases values.len(),
{
    if values.len() > 0 {
        let vs = values.drop_last();
        let ws = weights.drop_last();
        assert forall|j: int| 0 <= j < vs.len() implies 0 <= #[trigger] vs[j] by {
            assert(vs[j] == values[j]);
        }
        assert forall|j: int| 0 <= j < ws.len() implies 0 <= #[trigger] ws[j] by {
            assert(ws[j] == weights[j]);
        }
        lemma_weighted_total_nonnegative(vs, ws);
        let v = values.last();
        let w = weights.last();
        assert(0 <= v * w) by (nonlinear_arith)
            requires
                0 <= v,
                0 <= w,
        ;
    }
}

/// Taking one more entry of two sequences adds one product to their weighted
/// sum.
proof fn lemma_weighted_next(values: Seq<int>, weights: Seq<int>, i: int)
    requires
        values.len() == weights.len(),
        0 <= i < values.len(),
    ensures
        weighted_total(values.take(i + 1), weights.take(i + 1)) == weighted_total(
            values.take(i),
            weights.take(i),
        ) + values[i] * weights[i],
{
    lemma_take_next(values, i);
    lemma_take_next(weights, i);
}

impl WeightingAlgorithm {
    /// The figures of a list of constituents, or `None` for an empty list.
    ///
    /// The sum of the weights must fit the field that holds it. Of a list that
    /// `calculate_weights` returned it does: its weights sum to one whole at
    /// most.
    pub fn summary_stats(&self, constituents: &[IndexConstituent]) -> (r: Option<
        IndexSummaryStats,
    >)
        requires
            total(weights_of(constituents@)) <= u64::MAX,
        ensures
            constituents.len() == 0 ==> r is None,
            constituents.len() > 0 ==> r == Some(summary_of(constituents@)),
    {
        let n: usize = constituents.len();
        if n == 0 {
            return None;
        }
        let ghost list = constituents@;
        let ghost w = weights_of(list);
        let ghost caps = constituent_caps(list);
        let ghost space = constituent_space(list);
        let ghost growth = constituent_growth(list);
        let mut total_weight: u64 = 0;
        let mut cap_sum: u128 = 0;
        let mut space_sum: u128 = 0;
        let mut growth_sum: i128 = 0;
        let mut max_weight: u32 = constituents[0].weight;
        let mut min_weight: u32 = constituents[0].weight;
        let mut i: usize = 0;
        while i < n
            invariant
                i <= n,
                n == constituents.len(),
                n > 0,
                list == constituents@,
                w == weights_of(list),
                caps == constituent_caps(list),
                space == constituent_space(list),
                growth == constituent_growth(list),
                total(w) <= u64::MAX,
                total_weight == total(w.take(i as int)),
                cap_sum == weighted_total(caps.take(i as int), w.take(i as int)),
                space_sum == weighted_total(space.take(i as int), w.take(i as int)),
                growth_sum == weighted_total(growth.take(i as int), w.take(i as int)),
                -0x7fff_ffff_ffff_ffff_8000_0000_0000_0000 <= growth_sum
                    <= 0x7fff_ffff_ffff_ffff_8000_0000_0000_0000,
                i > 0 ==> max_weight == greatest(w.take(i as int)),
                i > 0 ==> min_weight == least(w.take(i as int)),
                i == 0 ==> max_weight == w[0] && min_weight == w[0],
            decreases n - i,
        {
            let c: &IndexConstituent = &constituents[i];
            proof {
                let next = i as int + 1;
                lemma_take_next(w, i as int);
                lemma_weighted_next(caps, w, i as int);
                lemma_weighted_next(space, w, i as int);
                lemma_weighted_next(growth, w, i as int);
                lemma_total_prefix(w, next);
                let wn = w.take(next);
                assert forall|j: int| 0 <= j < next implies 0 <= #[trigger] wn[j] by {}
                lemma_weighted_total_bounded(caps.take(next), wn, u64::MAX as int);
                lemma_weighted_total_bounded(space.take(next), wn, u64::MAX as int);
                lemma_weighted_total_bounded(growth.take(next), wn, 0x8000_0000_0000_0000);
                lemma_weighted_total_nonnegative(caps.take(next), wn);
                lemma_weighted_total_nonnegative(space.take(next), wn);
                let t = total(wn);
                assert(0xffff_ffff_ffff_ffff * t <= 0xffff_ffff_ffff_ffff * 0xffff_ffff_ffff_ffff
                    && 0x8000_0000_0000_0000 * t <= 0x8000_0000_0000_0000 * 0xffff_ffff_ffff_ffff)
                    by (nonlinear_arith)
                    requires
                        0 <= t <= 0xffff_ffff_ffff_ffff,
                ;
                let g = c.revenue_growth_rate as int;
                let share = c.weight as int;
                assert(-0x8000_0000_0000_0000 * 0xffff_ffff <= g * share <= 0x8000_0000_0000_0000
                    * 0xffff_ffff) by (nonlinear_arith)
                    requires
                        -0x8000_0000_0000_0000 <= g <= 0x8000_0000_0000_0000,
                        0 <= share <= 0xffff_ffff,
                ;
                assert(w[i as int] == c.weight);
                assert(caps[i as int] == c.market_cap);
                assert(space[i as int] == c.space_revenue_pct);
                assert(growth[i as int] == c.revenue_growth_rate);
            }
            total_weight = total_weight + c.weight as u64;
            cap_sum = cap_sum + c.market_cap as u128 * c.weight as u128;
            space_sum = space_sum + c.space_revenue_pct as u128 * c.weight as u128;
            growth_sum = growth_sum + c.revenue_growth_rate as i128 * c.weight as i128;
            if i == 0 || c.weight > max_weight {
                max_weight = c.weight;
            }
            if i == 0 || c.weight < min_weight {
                min_weight = c.weight;
            }
            i = i + 1;
        }
        proof {
            assert(w.take(n as int) =~= w);
            assert(caps.take(n as int) =~= caps);
            assert(space.take(n as int) =~= space);
            assert(growth.take(n as int) =~= growth);
        }
        let one: u128 = FRACTION_ONE as u128;
        let avg_growth: i128 = if growth_sum >= 0 {
            (growth_sum as u128 / one) as i128
        } else {
            -(((-growth_sum) as u128 / one) as i128)
        };
        Some(
            IndexSummaryStats {
                num_constituents: n,
                total_weight,
                weighted_avg_market_cap: cap_sum / one,
                weighted_avg_space_rev_pct: space_sum / one,
                weighted_avg_growth: avg_growth,
                max_weight,
                min_weight,
            },
        )
    }
}

} // verus!

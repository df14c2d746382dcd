//! What holds of the engine for every batch.

use crate::allocation::{
    clamped, growth_rates_of, index_weights, lemma_index_weights_total, market_caps_of,
    raw_score, raw_scores, shares,
};
use crate::engine::{index_constituents, weights_of};
use crate::ranking::{
    company_at, lemma_places_are_a_permutation, lemma_places_descend, lemma_places_keep_total,
};
use crate::factors::{
    clip_growth, clipped_growth, growth_factor, growth_factors, market_cap_factor,
    market_cap_log, market_cap_logs, GROWTH_SPREAD_EPSILON, LOG_SPREAD_EPSILON,
};
use crate::log_accuracy::lemma_log10_positive;
use crate::logarithm::lemma_log10_ordered;
use crate::series::{
    greatest, least, least_positive, lemma_greatest, lemma_least_positive, lemma_total_at_most,
    total,
};
use crate::units::{lemma_rescale_ordered, FRACTION_ONE, HUNDRED_POINTS, WEIGHT_SUM_TOLERANCE};
use crate::weighting::{weight_sum_error, CompanyMetrics, WeightingAlgorithm};
use vstd::prelude::*;

verus! {

/// The score of a company whose theme revenue is at most one hundred points
/// lies on the scale from zero to one hundred points, as long as the factor
/// weights are balanced: it exceeds the scale by no more than the weights
/// exceed one whole.
pub proof fn lemma_raw_score_on_scale(
    cfg: WeightingAlgorithm,
    companies: Seq<CompanyMetrics>,
    i: int,
)
    requires
        cfg.balanced(),
        0 <= i < companies.len(),
        companies[i].space_revenue_pct <= HUNDRED_POINTS,
    ensures
        0 <= raw_score(cfg, companies, i) <= HUNDRED_POINTS + HUNDRED_POINTS / 1_000,
{
    let caps = market_caps_of(companies);
    let rates = growth_rates_of(companies);
    lemma_market_cap_factor_monotonic(caps, i, i);
    lemma_growth_factor_monotonic(rates, i, i);
    let s = companies[i].space_revenue_pct as int;
    let m = market_cap_factor(caps, i);
    let g = growth_factor(rates, i);
    let a = cfg.space_revenue_weight as int;
    let b = cfg.market_cap_weight as int;
    let c = cfg.growth_weight as int;
    let h = HUNDRED_POINTS as int;
    let one = FRACTION_ONE as int;
    assert(0 <= (s * a + m * b + g * c) / one <= h + h / 1_000) by (nonlinear_arith)
        requires
            0 <= s <= h,
            0 <= m <= h,
            0 <= g <= h,
            0 <= a,
            0 <= b,
            0 <= c,
            a + b + c <= one + one / 1_000,
            h == 100_000_000,
            one == 1_000_000_000,
    ;
}

/// The largest batch whose weights are certain to sum to one whole within the
/// tolerance: each weight is rounded down by less than one part per billion.
pub const MAX_EXACT_BATCH: usize = 1_000_000;

/// The weights of a batch that is not empty sum to one whole within a
/// thousandth, as long as the batch has at most `MAX_EXACT_BATCH` companies.
pub proof fn lemma_weights_sum_to_one(cfg: WeightingAlgorithm, companies: Seq<CompanyMetrics>)
    requires
        0 < companies.len() <= MAX_EXACT_BATCH,
    ensures
        weight_sum_error(total(index_weights(cfg, companies))) < WEIGHT_SUM_TOLERANCE,
{
    lemma_index_weights_total(cfg, companies);
}

/// In a batch of two companies or more, every weight is above nothing and
/// below the whole, as long as the lower position bound is above nothing and
/// not above the upper one, and the bounds are not so far apart that a share
/// at the lower bound rounds down to nothing.
pub proof fn lemma_weights_strictly_between(
    cfg: WeightingAlgorithm,
    companies: Seq<CompanyMetrics>,
    i: int,
)
    requires
        companies.len() >= 2,
        0 < cfg.min_position_size <= cfg.max_position_size,
        companies.len() * cfg.max_position_size <= cfg.min_position_size * FRACTION_ONE,
        0 <= i < companies.len(),
    ensures
        0 < index_weights(cfg, companies)[i] < FRACTION_ONE,
{
    let n = companies.len() as int;
    let first = shares(raw_scores(cfg, companies));
    let bounded = clamped(cfg, first);
    let lo = cfg.min_position_size as int;
    let hi = cfg.max_position_size as int;
    let one = FRACTION_ONE as int;
    assert forall|j: int| 0 <= j < n implies lo <= #[trigger] bounded[j] <= hi by {}
    lemma_total_at_most(bounded, hi);
    let whole = total(bounded);
    let part = bounded[i];
    // The other companies hold a share of their own.
    let rest = bounded.remove(i);
    assert forall|j: int| 0 <= j < rest.len() implies lo <= #[trigger] rest[j] by {
        if j < i {
            assert(rest[j] == bounded[j]);
        } else {
            assert(rest[j] == bounded[j + 1]);
        }
    }
    lemma_total_remove(bounded, i);
    crate::series::lemma_total_at_least(rest, lo);
    assert(lo * rest.len() >= lo) by (nonlinear_arith)
        requires
            rest.len() >= 1,
            lo > 0,
    ;
    assert(part < whole);
    assert(hi * n == n * hi) by (nonlinear_arith);
    assert(0 < part * one / whole < one) by (nonlinear_arith)
        requires
            0 < lo <= part < whole,
            whole <= n * hi,
            n * hi <= lo * one,
            one > 0,
    ;
}

/// Every weight is a fraction of the index: between nothing and the whole.
pub proof fn lemma_weight_is_fraction(
    cfg: WeightingAlgorithm,
    companies: Seq<CompanyMetrics>,
    i: int,
)
    requires
        0 <= i < companies.len(),
    ensures
        0 <= index_weights(cfg, companies)[i] <= FRACTION_ONE,
{
    crate::allocation::lemma_share_is_fraction(
        clamped(cfg, shares(raw_scores(cfg, companies))),
        i,
    );
}

/// The constituents of a batch carry the ranks from one to their number, in
/// that order, and their weights do not rise along the list: the first
/// constituent is the heaviest.
pub proof fn lemma_ranks_follow_weights(cfg: WeightingAlgorithm, companies: Seq<CompanyMetrics>)
    requires
        companies.len() <= usize::MAX,
    ensures
        index_constituents(cfg, companies).len() == companies.len(),
        forall|k: int|
            0 <= k < companies.len() ==> (#[trigger] index_constituents(cfg, companies)[k]).rank
                == k + 1,
        forall|a: int, b: int|
            0 <= a <= b < companies.len() ==> (#[trigger] index_constituents(
                cfg,
                companies,
            )[a]).weight >= (#[trigger] index_constituents(cfg, companies)[b]).weight,
{
    let w = index_weights(cfg, companies);
    let list = index_constituents(cfg, companies);
    lemma_places_are_a_permutation(w);
    assert forall|a: int, b: int| 0 <= a <= b < companies.len() implies (#[trigger] list[a]).weight
        >= (#[trigger] list[b]).weight by {
        lemma_places_descend(w, a, b);
        lemma_weight_is_fraction(cfg, companies, company_at(w, a));
        lemma_weight_is_fraction(cfg, companies, company_at(w, b));
    }
}

/// The weights of the constituents of a batch that is not empty sum to one
/// whole within a thousandth, as long as the batch has at most
/// `MAX_EXACT_BATCH` companies.
pub proof fn lemma_constituent_weights_sum_to_one(
    cfg: WeightingAlgorithm,
    companies: Seq<CompanyMetrics>,
)
    requires
        0 < companies.len() <= MAX_EXACT_BATCH,
    ensures
        weight_sum_error(total(weights_of(index_constituents(cfg, companies))))
            < WEIGHT_SUM_TOLERANCE,
{
    let w = index_weights(cfg, companies);
    lemma_places_are_a_permutation(w);
    lemma_places_keep_total(w);
    assert(weights_of(index_constituents(cfg, companies)) =~= Seq::new(
        w.len(),
        |k: int| w[company_at(w, k)],
    )) by {
        assert forall|k: int| 0 <= k < w.len() implies weights_of(
            index_constituents(cfg, companies),
        )[k] == w[company_at(w, k)] by {
            lemma_weight_is_fraction(cfg, companies, company_at(w, k));
        }
    }
    lemma_index_weights_total(cfg, companies);
}

/// In a list of two constituents or more, every weight is above nothing and
/// below the whole, under the conditions of `lemma_weights_strictly_between`.
pub proof fn lemma_constituent_weights_strictly_between(
    cfg: WeightingAlgorithm,
    companies: Seq<CompanyMetrics>,
    k: int,
)
    requires
        companies.len() >= 2,
        0 < cfg.min_position_size <= cfg.max_position_size,
        companies.len() * cfg.max_position_size <= cfg.min_position_size * FRACTION_ONE,
        0 <= k < companies.len(),
    ensures
        0 < index_constituents(cfg, companies)[k].weight < FRACTION_ONE,
{
    let w = index_weights(cfg, companies);
    lemma_places_are_a_permutation(w);
    lemma_weights_strictly_between(cfg, companies, company_at(w, k));
}

/// Removing a value from a sequence takes it from the sum.
pub proof fn lemma_total_remove(s: Seq<int>, i: int)
    requires
        0 <= i < s.len(),
    ensures
        total(s.remove(i)) + s[i] == total(s),
    decreases s.len() - i,
{
    let t = s.remove(i);
    if i == s.len() - 1 {
        assert(t =~= s.drop_last());
    } else {
        assert(t.drop_last() =~= s.drop_last().remove(i));
        assert(t.last() == s.last());
        lemma_total_remove(s.drop_last(), i);
    }
}

/// Market-value factors are monotonic: within a batch, the company with the
/// larger market value has the larger factor, or the same.
pub proof fn lemma_market_cap_factor_monotonic(caps: Seq<int>, i: int, j: int)
    requires
        0 <= i < caps.len(),
        0 <= j < caps.len(),
        caps[i] <= caps[j],
    ensures
        0 <= market_cap_factor(caps, i) <= market_cap_factor(caps, j) <= HUNDRED_POINTS,
{
    let logs = market_cap_logs(caps);
    let lo = least_positive(logs);
    let hi = greatest(logs);
    lemma_least_positive(logs);
    lemma_greatest(logs);
    assert(logs[i] == market_cap_log(caps[i]) && logs[j] == market_cap_log(caps[j]));
    if caps[i] > 0 {
        lemma_log10_ordered(caps[i], caps[j]);
    } else if caps[j] > 0 {
        lemma_log10_ordered(caps[j], caps[j]);
    }
    assert(logs[i] <= logs[j] <= hi);
    if hi - lo >= LOG_SPREAD_EPSILON {
        if logs[i] > 0 {
            lemma_rescale_ordered(logs[i], logs[j], lo, hi);
        } else if logs[j] > 0 {
            lemma_rescale_ordered(logs[j], logs[j], lo, hi);
        }
    }
}

/// Market-value factors are monotonic in the market value of one company, all
/// else equal: of two batches that differ in the market value of one company
/// only, that company has the larger factor, or the same, in the batch in
/// which its market value is larger. The smaller market value must be two or
/// more: one that counts like none can stand in the middle of the scale where
/// a small one stands at its bottom.
pub proof fn lemma_market_cap_factor_rises_with_market_value(
    caps: Seq<int>,
    i: int,
    a: int,
    b: int,
)
    requires
        0 <= i < caps.len(),
        2 <= a <= b,
    ensures
        market_cap_factor(caps.update(i, a), i) <= market_cap_factor(caps.update(i, b), i),
{
    let logs1 = market_cap_logs(caps.update(i, a));
    let logs2 = market_cap_logs(caps.update(i, b));
    let la = logs1[i];
    let lb = logs2[i];
    lemma_log10_positive(a);
    lemma_log10_ordered(a, b);
    assert(0 < la <= lb);
    assert forall|j: int| 0 <= j < caps.len() && j != i implies #[trigger] logs1[j]
        == logs2[j] by {}
    let lo1 = least_positive(logs1);
    let hi1 = greatest(logs1);
    let lo2 = least_positive(logs2);
    let hi2 = greatest(logs2);
    lemma_least_positive(logs1);
    lemma_least_positive(logs2);
    lemma_greatest(logs1);
    lemma_greatest(logs2);
    assert(0 < lo1 <= la <= hi1);
    assert(0 < lo2 <= lb <= hi2);
    let j1 = choose|j: int| 0 <= j < logs1.len() && #[trigger] logs1[j] == lo1;
    let j2 = choose|j: int| 0 <= j < logs2.len() && #[trigger] logs2[j] == lo2;
    let k1 = choose|j: int| 0 <= j < logs1.len() && #[trigger] logs1[j] == hi1;
    let k2 = choose|j: int| 0 <= j < logs2.len() && #[trigger] logs2[j] == hi2;
    // The smallest and the largest logarithm do not fall when one rises.
    assert(lo1 <= lo2) by {
        if j2 != i {
            assert(logs1[j2] == logs2[j2]);
        }
    }
    assert(hi1 <= hi2) by {
        if k1 != i {
            assert(logs2[k1] == logs1[k1]);
        }
    }
    // Where the smallest rises, the company was the smallest; where the
    // largest rises, the company is the largest.
    assert(lo1 < lo2 ==> lo1 == la) by {
        if j1 != i {
            assert(logs2[j1] == logs1[j1]);
        }
    }
    assert(hi1 < hi2 ==> hi2 == lb) by {
        if k2 != i {
            assert(logs1[k2] == logs2[k2]);
        }
    }
    let eps = LOG_SPREAD_EPSILON as int;
    if hi1 - lo1 >= eps {
        lemma_rescale_ordered(la, la, lo1, hi1);
        crate::units::lemma_rescale_ends(lo1, hi1);
    }
    if hi2 - lo2 >= eps {
        lemma_rescale_ordered(lb, lb, lo2, hi2);
        crate::units::lemma_rescale_ends(lo2, hi2);
    }
    if lo1 == lo2 && hi1 == hi2 && hi1 - lo1 >= eps {
        lemma_rescale_ordered(la, lb, lo1, hi1);
    }
}

/// Growth is clipped before it is scaled: two companies of a batch whose
/// growth rates are the same once clipped have the same growth factor.
pub proof fn lemma_growth_clips_before_scaling(rates: Seq<int>, i: int, j: int)
    requires
        0 <= i < rates.len(),
        0 <= j < rates.len(),
        clip_growth(rates[i]) == clip_growth(rates[j]),
    ensures
        growth_factor(rates, i) == growth_factor(rates, j),
{
}

/// A batch has the growth factors of its clipped rates: what lies beyond the
/// band counts as the band's end.
pub proof fn lemma_growth_factors_of_clipped(rates: Seq<int>)
    ensures
        growth_factors(rates) == growth_factors(clipped_growth(rates)),
{
    let clipped = clipped_growth(rates);
    assert(clipped_growth(clipped) =~= clipped);
    assert(growth_factors(rates) =~= growth_factors(clipped));
}

/// Growth factors are monotonic: within a batch, the company with the larger
/// growth rate has the larger factor, or the same.
pub proof fn lemma_growth_factor_monotonic(rates: Seq<int>, i: int, j: int)
    requires
        0 <= i < rates.len(),
        0 <= j < rates.len(),
        rates[i] <= rates[j],
    ensures
        0 <= growth_factor(rates, i) <= growth_factor(rates, j) <= HUNDRED_POINTS,
{
    let clipped = clipped_growth(rates);
    crate::series::lemma_least(clipped);
    lemma_greatest(clipped);
    let lo = least(clipped);
    let hi = greatest(clipped);
    assert(lo <= clipped[i] <= clipped[j] <= hi);
    if hi - lo >= GROWTH_SPREAD_EPSILON {
        lemma_rescale_ordered(clipped[i], clipped[j], lo, hi);
    }
}

} // verus!

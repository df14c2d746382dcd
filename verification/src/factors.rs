//! The three factors on one scale: from zero to one hundred points.
//!
//! Theme revenue is taken as it is. Market value is put on a logarithmic scale
//! and growth is clipped to a band; each is then placed between the smallest
//! and the largest value of its batch. Where the values of a batch do not
//! spread, every company stands in the middle of the scale.

use crate::logarithm::{lemma_log10_ordered, log10, log10_scaled, LOG_ONE, MAX_DECADE};
use crate::series::{
    greatest, least, least_positive, lemma_greatest, lemma_least, lemma_least_positive,
    lemma_take_next,
};
use crate::units::{
    ints_of_i64, ints_of_u32, ints_of_u64, rescale, rescale_value, MAX_SPREAD,
    NEUTRAL_FACTOR,
};
use crate::weighting::WeightingAlgorithm;
use vstd::prelude::*;

verus! {

/// The lowest growth that counts, in millionths of a point: minus fifty
/// points.
pub const GROWTH_FLOOR: i64 = -50_000_000;

/// The highest growth that counts, in millionths of a point: two hundred
/// points.
pub const GROWTH_CEILING: i64 = 200_000_000;

/// Clipped growth rates that spread by less than this, a ten-thousandth of a
/// point, do not tell companies apart.
pub const GROWTH_SPREAD_EPSILON: i64 = 100;

/// Logarithms that spread by less than this, a ten-thousandth of a decade
/// rounded up to the logarithm's unit, do not tell companies apart.
pub const LOG_SPREAD_EPSILON: i64 = 105;

/// A growth rate, clipped to the band.
pub open spec fn clip_growth(rate: int) -> int {
    if rate < GROWTH_FLOOR as int {
        GROWTH_FLOOR as int
    } else if rate > GROWTH_CEILING as int {
        GROWTH_CEILING as int
    } else {
        rate
    }
}

/// The growth rates of a batch, each clipped to the band.
pub open spec fn clipped_growth(rates: Seq<int>) -> Seq<int> {
    Seq::new(rates.len(), |i: int| clip_growth(rates[i]))
}

/// The growth factor of company `i`: where its clipped rate stands between the
/// smallest and the largest clipped rate of the batch.
pub open spec fn growth_factor(rates: Seq<int>, i: int) -> int {
    let clipped = clipped_growth(rates);
    let lo = least(clipped);
    let hi = greatest(clipped);
    if hi - lo < GROWTH_SPREAD_EPSILON as int {
        NEUTRAL_FACTOR as int
    } else {
        rescale(clipped[i], lo, hi)
    }
}

/// The growth factors of a batch, in its order.
pub open spec fn growth_factors(rates: Seq<int>) -> Seq<int> {
    Seq::new(rates.len(), |i: int| growth_factor(rates, i))
}

/// The logarithm of a market value; zero for a company without one.
pub open spec fn market_cap_log(cap: int) -> int {
    if cap > 0 {
        log10_scaled(cap)
    } else {
        0
    }
}

/// The logarithms of a batch's market values.
pub open spec fn market_cap_logs(caps: Seq<int>) -> Seq<int> {
    Seq::new(caps.len(), |i: int| market_cap_log(caps[i]))
}

/// The market-value factor of company `i`: where the logarithm of its market
/// value stands between the smallest logarithm above zero and the largest
/// logarithm of the batch. A company whose logarithm is not above zero stands
/// at zero.
pub open spec fn market_cap_factor(caps: Seq<int>, i: int) -> int {
    let logs = market_cap_logs(caps);
    let lo = least_positive(logs);
    let hi = greatest(logs);
    if hi - lo < LOG_SPREAD_EPSILON as int {
        NEUTRAL_FACTOR as int
    } else if logs[i] > 0 {
        rescale(logs[i], lo, hi)
    } else {
        0
    }
}

/// The market-value factors of a batch, in its order.
pub open spec fn market_cap_factors(caps: Seq<int>) -> Seq<int> {
    Seq::new(caps.len(), |i: int| market_cap_factor(caps, i))
}

/// The logarithms of a batch lie between zero and the largest logarithm that
/// a market value can have, and the smallest one above zero is not above the
/// largest.
pub proof fn lemma_market_cap_logs_range(caps: Seq<int>)
    requires
        forall|i: int| 0 <= i < caps.len() ==> #[trigger] caps[i] <= u64::MAX,
    ensures
        forall|i: int|
            0 <= i < caps.len() ==> 0 <= #[trigger] market_cap_logs(caps)[i] < (MAX_DECADE + 1)
                * LOG_ONE,
        0 <= least_positive(market_cap_logs(caps)) <= greatest(market_cap_logs(caps)) < (MAX_DECADE
            + 1) * LOG_ONE,
{
    let logs = market_cap_logs(caps);
    assert forall|i: int| 0 <= i < caps.len() implies 0 <= #[trigger] logs[i] < (MAX_DECADE + 1)
        * LOG_ONE by {
        if caps[i] > 0 {
            lemma_log10_ordered(caps[i], u64::MAX as int);
            crate::logarithm::lemma_log10_below_limit(caps[i]);
        }
    }
    lemma_least_positive(logs);
    if logs.len() > 0 {
        lemma_greatest(logs);
        let w = choose|i: int| 0 <= i < logs.len() && #[trigger] logs[i] == greatest(logs);
        assert(0 <= logs[w]);
        if least_positive(logs) > 0 {
            let v = choose|i: int| 0 <= i < logs.len() && #[trigger] logs[i] == least_positive(logs);
            assert(logs[v] <= greatest(logs));
        }
    }
}

/// The smallest and the largest value of a vector that is not empty.
fn extremes(values: &Vec<i64>) -> (r: (i64, i64))
    requires
        values.len() > 0,
    ensures
        r.0 == least(ints_of_i64(values@)),
        r.1 == greatest(ints_of_i64(values@)),
{
    let ghost ints = ints_of_i64(values@);
    let mut lo: i64 = values[0];
    let mut hi: i64 = values[0];
    let mut i: usize = 1;
    while i < values.len()
        invariant
            1 <= i <= values.len(),
            ints == ints_of_i64(values@),
            lo == least(ints.take(i as int)),
            hi == greatest(ints.take(i as int)),
        decreases values.len() - i,
    {
        proof {
            lemma_take_next(ints, i as int);
        }
        let v: i64 = values[i];
        if v < lo {
            lo = v;
        }
        if v > hi {
            hi = v;
        }
        i = i + 1;
    }
    proof {
        lemma_take_next(ints, ints.len() - 1);
    }
    (lo, hi)
}

/// The smallest value above zero of a vector, or zero.
fn smallest_positive(values: &Vec<i64>) -> (r: i64)
    ensures
        r == least_positive(ints_of_i64(values@)),
{
    let ghost ints = ints_of_i64(values@);
    let mut lo: i64 = 0;
    let mut i: usize = 0;
    while i < values.len()
        invariant
            i <= values.len(),
            ints == ints_of_i64(values@),
            lo == least_positive(ints.take(i as int)),
        decreases values.len() - i,
    {
        proof {
            lemma_take_next(ints, i as int);
        }
        let v: i64 = values[i];
        if v > 0 && (lo == 0 || v < lo) {
            lo = v;
        }
        i = i + 1;
    }
    proof {
        assert(ints.take(ints.len() as int) =~= ints);
    }
    lo
}

/// A vector of `n` neutral factors.
fn neutral_factors(n: usize) -> (out: Vec<u32>)
    ensures
        out.len() == n,
        forall|i: int| 0 <= i < n ==> out[i] == NEUTRAL_FACTOR,
{
    let mut out: Vec<u32> = Vec::new();
    let mut i: usize = 0;
    while i < n
        invariant
            i <= n,
            out.len() == i,
            forall|j: int| 0 <= j < i ==> out[j] == NEUTRAL_FACTOR,
        decreases n - i,
    {
        out.push(NEUTRAL_FACTOR);
        i = i + 1;
    }
    out
}

impl WeightingAlgorithm {
    /// The market-value factor of each company of a batch, in the batch's
    /// order.
    pub fn normalize_market_cap(&self, market_caps: &[u64]) -> (out: Vec<u32>)
        ensures
            ints_of_u32(out@) == market_cap_factors(ints_of_u64(market_caps@)),
    {
        let n: usize = market_caps.len();
        let ghost caps = ints_of_u64(market_caps@);
        let ghost spec_logs = market_cap_logs(caps);
        let mut logs: Vec<i64> = Vec::new();
        let mut i: usize = 0;
        while i < n
            invariant
                i <= n,
                n == market_caps.len(),
                caps == ints_of_u64(market_caps@),
                spec_logs == market_cap_logs(caps),
                logs.len() == i,
                forall|j: int| 0 <= j < i ==> logs[j] == spec_logs[j],
            decreases n - i,
        {
            let cap: u64 = market_caps[i];
            let value: i64 = if cap > 0 {
                log10(cap) as i64
            } else {
                0
            };
            logs.push(value);
            i = i + 1;
        }
        assert(ints_of_i64(logs@) =~= spec_logs);
        if n == 0 {
            return Vec::new();
        }
        let lo: i64 = smallest_positive(&logs);
        let (_, hi) = extremes(&logs);
        proof {
            lemma_market_cap_logs_range(caps);
            lemma_least_positive(spec_logs);
            lemma_greatest(spec_logs);
        }
        if hi - lo < LOG_SPREAD_EPSILON {
            return neutral_factors(n);
        }
        let mut out: Vec<u32> = Vec::new();
        let mut k: usize = 0;
        while k < n
            invariant
                k <= n,
                n == market_caps.len(),
                caps == ints_of_u64(market_caps@),
                spec_logs == market_cap_logs(caps),
                ints_of_i64(logs@) == spec_logs,
                logs.len() == n,
                lo == least_positive(spec_logs),
                hi == greatest(spec_logs),
                hi - lo >= LOG_SPREAD_EPSILON,
                0 <= lo <= hi < (MAX_DECADE + 1) * LOG_ONE,
                forall|j: int| 0 <= j < n && #[trigger] spec_logs[j] > 0 ==> lo <= spec_logs[j],
                forall|j: int| 0 <= j < n ==> #[trigger] spec_logs[j] <= hi,
                out.len() == k,
                forall|j: int| 0 <= j < k ==> out[j] == market_cap_factor(caps, j),
            decreases n - k,
        {
            let value: i64 = logs[k];
            assert(value == spec_logs[k as int]);
            let factor: u32 = if value > 0 {
                rescale_value(value, lo, hi)
            } else {
                0
            };
            out.push(factor);
            k = k + 1;
        }
        out
    }

    /// The growth factor of each company of a batch, in the batch's order.
    pub fn normalize_growth(&self, growth_rates: &[i64]) -> (out: Vec<u32>)
        ensures
            ints_of_u32(out@) == growth_factors(ints_of_i64(growth_rates@)),
    {
        let n: usize = growth_rates.len();
        if n == 0 {
            return Vec::new();
        }
        let ghost rates = ints_of_i64(growth_rates@);
        let ghost spec_clipped = clipped_growth(rates);
        let mut clipped: Vec<i64> = Vec::new();
        let mut i: usize = 0;
        while i < n
            invariant
                i <= n,
                n == growth_rates.len(),
                rates == ints_of_i64(growth_rates@),
                spec_clipped == clipped_growth(rates),
                clipped.len() == i,
                forall|j: int| 0 <= j < i ==> clipped[j] == spec_clipped[j],
            decreases n - i,
        {
            let rate: i64 = growth_rates[i];
            let value: i64 = if rate < GROWTH_FLOOR {
                GROWTH_FLOOR
            } else if rate > GROWTH_CEILING {
                GROWTH_CEILING
            } else {
                rate
            };
            clipped.push(value);
            i = i + 1;
        }
        assert(ints_of_i64(clipped@) =~= spec_clipped);
        let (lo, hi) = extremes(&clipped);
        proof {
            lemma_least(spec_clipped);
            lemma_greatest(spec_clipped);
            let w = choose|j: int| 0 <= j < n && #[trigger] spec_clipped[j] == least(spec_clipped);
            let v = choose|j: int|
                0 <= j < n && #[trigger] spec_clipped[j] == greatest(spec_clipped);
            assert(GROWTH_FLOOR <= spec_clipped[w]);
            assert(spec_clipped[v] <= GROWTH_CEILING);
        }
        if hi - lo < GROWTH_SPREAD_EPSILON {
            return neutral_factors(n);
        }
        let mut out: Vec<u32> = Vec::new();
        let mut k: usize = 0;
        while k < n
            invariant
                k <= n,
                n == growth_rates.len(),
                rates == ints_of_i64(growth_rates@),
                spec_clipped == clipped_growth(rates),
                ints_of_i64(clipped@) == spec_clipped,
                clipped.len() == n,
                lo == least(spec_clipped),
                hi == greatest(spec_clipped),
                GROWTH_SPREAD_EPSILON <= hi - lo <= MAX_SPREAD,
                forall|j: int| 0 <= j < n ==> lo <= #[trigger] spec_clipped[j] <= hi,
                out.len() == k,
                forall|j: int| 0 <= j < k ==> out[j] == growth_factor(rates, j),
            decreases n - k,
        {
            let value: i64 = clipped[k];
            assert(value == spec_clipped[k as int]);
            let factor: u32 = rescale_value(value, lo, hi);
            out.push(factor);
            k = k + 1;
        }
        out
    }
}

} // verus!

//! The engine's records and its configuration.

use crate::units::{FRACTION_ONE, WEIGHT_SUM_TOLERANCE};
use vstd::prelude::*;

verus! {

/// What is known of one company at one point in time.
#[derive(Debug, Clone)]
pub struct CompanyMetrics {
    /// Short identifier. Two records with one ticker are weighted as two
    /// companies.
    pub ticker: String,
    /// Display name.
    pub name: String,
    /// Market value in whole currency units.
    pub market_cap: u64,
    /// Share of revenue from the index's theme, in millionths of a point.
    pub space_revenue_pct: u32,
    /// Revenue growth over a year, in millionths of a point.
    pub revenue_growth_rate: i64,
    /// Free-form classification, handed through unchanged.
    pub segments: Option<String>,
}

/// One company of an index, with its weight and rank.
#[derive(Debug, Clone)]
pub struct IndexConstituent {
    pub ticker: String,
    pub name: String,
    pub market_cap: u64,
    pub space_revenue_pct: u32,
    pub revenue_growth_rate: i64,
    /// The weighted combination of the three normalised factors, in
    /// millionths of a point.
    pub raw_score: u64,
    /// The share of the index, in parts per billion.
    pub weight: u32,
    /// The place by weight, counted from one.
    pub rank: usize,
    pub segments: Option<String>,
}

/// Aggregate figures of an index, each weighted by the constituents' weights.
#[derive(Debug, Clone, Copy, PartialEq, Eq)]
pub struct IndexSummaryStats {
    pub num_constituents: usize,
    /// The sum of the weights, in parts per billion.
    pub total_weight: u64,
    /// In whole currency units.
    pub weighted_avg_market_cap: u128,
    /// In millionths of a point.
    pub weighted_avg_space_rev_pct: u128,
    /// In millionths of a point.
    pub weighted_avg_growth: i128,
    pub max_weight: u32,
    pub min_weight: u32,
}

/// Why a configuration was refused.
#[derive(Debug, Clone, Copy, PartialEq, Eq)]
pub enum WeightingError {
    /// The three factor weights sum to `total` parts per billion, which is
    /// further from one whole than the tolerance allows.
    InvalidConfiguration { total: u64 },
}

/// The engine's parameters: three factor weights and two position bounds, all
/// in parts per billion.
#[derive(Debug, Clone, Copy, PartialEq, Eq)]
pub struct WeightingAlgorithm {
    pub space_revenue_weight: u32,
    pub market_cap_weight: u32,
    pub growth_weight: u32,
    pub max_position_size: u32,
    pub min_position_size: u32,
}

/// The distance between a sum of factor weights and one whole.
pub open spec fn weight_sum_error(total: int) -> int {
    if total >= FRACTION_ONE as int {
        total - FRACTION_ONE as int
    } else {
        FRACTION_ONE as int - total
    }
}

/// Three factor weights are balanced when they sum to one whole within the
/// tolerance.
pub open spec fn weights_balanced(space: int, market: int, growth: int) -> bool {
    weight_sum_error(space + market + growth) <= WEIGHT_SUM_TOLERANCE as int
}

impl WeightingAlgorithm {
    /// The sum of the three factor weights.
    pub open spec fn factor_weight_total(&self) -> int {
        self.space_revenue_weight as int + self.market_cap_weight as int
            + self.growth_weight as int
    }

    /// The invariant of a configuration: its factor weights are balanced.
    pub open spec fn balanced(&self) -> bool {
        weights_balanced(
            self.space_revenue_weight as int,
            self.market_cap_weight as int,
            self.growth_weight as int,
        )
    }

    /// A configuration with the given parameters, or the reason why there is
    /// none: the factor weights must be balanced. The position bounds are
    /// taken as they are.
    pub fn new(
        space_revenue_weight: u32,
        market_cap_weight: u32,
        growth_weight: u32,
        max_position_size: u32,
        min_position_size: u32,
    ) -> (r: Result<Self, WeightingError>)
        ensures
            weights_balanced(
                space_revenue_weight as int,
                market_cap_weight as int,
                growth_weight as int,
            ) ==> r == Ok::<Self, WeightingError>(
                (WeightingAlgorithm {
                    space_revenue_weight,
                    market_cap_weight,
                    growth_weight,
                    max_position_size,
                    min_position_size,
                }),
            ),
            !weights_balanced(
                space_revenue_weight as int,
                market_cap_weight as int,
                growth_weight as int,
            ) ==> r == Err::<Self, WeightingError>(
                (WeightingError::InvalidConfiguration {
                    total: (space_revenue_weight + market_cap_weight + growth_weight) as u64,
                }),
            ),
            r is Ok ==> r->Ok_0.balanced(),
    {
        let total: u64 = space_revenue_weight as u64 + market_cap_weight as u64
            + growth_weight as u64;
        let one: u64 = FRACTION_ONE as u64;
        let error: u64 = if total >= one {
            total - one
        } else {
            one - total
        };
        if error > WEIGHT_SUM_TOLERANCE as u64 {
            return Err(WeightingError::InvalidConfiguration { total });
        }
        Ok(
            WeightingAlgorithm {
                space_revenue_weight,
                market_cap_weight,
                growth_weight,
                max_position_size,
                min_position_size,
            },
        )
    }

    /// The standard configuration: 40 % theme revenue, 30 % market value,
    /// 30 % growth; positions between 1 % and 10 %.
    pub fn default() -> (r: Self)
        ensures
            r == (WeightingAlgorithm {
                space_revenue_weight: 400_000_000,
                market_cap_weight: 300_000_000,
                growth_weight: 300_000_000,
                max_position_size: 100_000_000,
                min_position_size: 10_000_000,
            }),
            r.balanced(),
    {
        WeightingAlgorithm {
            space_revenue_weight: 400_000_000,
            market_cap_weight: 300_000_000,
            growth_weight: 300_000_000,
            max_position_size: 100_000_000,
            min_position_size: 10_000_000,
        }
    }
}

} // verus!

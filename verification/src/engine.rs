//! The engine itself: from a batch of companies to the constituents of an
//! index, ordered by weight.

use crate::allocation::{
    growth_rates_of, index_weights, lemma_index_weights_total, market_caps_of, raw_score,
    raw_scores,
};
use crate::factors::{growth_factors, market_cap_factors};
use crate::ranking::{
    company_at, in_rank_order, ints_of_usize, lemma_rank_order_descends,
    lemma_rank_order_places, picked, places_are_a_permutation, rank_order,
};
use crate::series::total;
use crate::units::{ints_of_i64, ints_of_u32, ints_of_u64, FRACTION_ONE};
use crate::weighting::{CompanyMetrics, IndexConstituent, WeightingAlgorithm};
use vstd::prelude::*;

verus! {

/// The constituent that company `j` of a batch becomes at rank `rank`.
pub open spec fn constituent_of(
    cfg: WeightingAlgorithm,
    companies: Seq<CompanyMetrics>,
    j: int,
    rank: int,
) -> IndexConstituent {
    IndexConstituent {
        ticker: companies[j].ticker,
        name: companies[j].name,
        market_cap: companies[j].market_cap,
        space_revenue_pct: companies[j].space_revenue_pct,
        revenue_growth_rate: companies[j].revenue_growth_rate,
        raw_score: raw_score(cfg, companies, j) as u64,
        weight: index_weights(cfg, companies)[j] as u32,
        rank: rank as usize,
        segments: companies[j].segments,
    }
}

/// The constituents that a batch makes, in rank order: at each place the
/// company that stands there, with the rank that is its place counted from
/// one.
pub open spec fn index_constituents(
    cfg: WeightingAlgorithm,
    companies: Seq<CompanyMetrics>,
) -> Seq<IndexConstituent> {
    Seq::new(
        companies.len(),
        |k: int|
            constituent_of(cfg, companies, company_at(index_weights(cfg, companies), k), k + 1),
    )
}

/// The weights of a list of constituents, in its order.
pub open spec fn weights_of(constituents: Seq<IndexConstituent>) -> Seq<int> {
    Seq::new(constituents.len(), |k: int| constituents[k].weight as int)
}

/// A copy of an optional text.
fn copy_of(text: &Option<String>) -> (r: Option<String>)
    ensures
        r == *text,
{
    match text {
        Some(s) => Some(s.clone()),
        None => None,
    }
}

impl WeightingAlgorithm {
    /// The constituents of the index that a batch of companies makes.
    ///
    /// Each company of the batch becomes one constituent. Its weight is its
    /// entry of `index_weights`; its place in the list is the number of
    /// companies that outrank it, and its rank is that place counted from one.
    /// The list is in order of weight, heaviest first; companies of one weight
    /// keep the order of the batch. An empty batch makes an empty list.
    pub fn calculate_weights(&self, companies: Vec<CompanyMetrics>) -> (result: Vec<
        IndexConstituent,
    >)
        ensures
            result@ == index_constituents(*self, companies@),
            places_are_a_permutation(index_weights(*self, companies@)),
            forall|k: int| 0 <= k < result.len() ==> (#[trigger] result[k]).rank == k + 1,
            forall|a: int, b: int|
                0 <= a <= b < result.len() ==> (#[trigger] result[a]).weight >= (
                #[trigger] result[b]).weight,
            companies.len() > 0 ==> FRACTION_ONE - companies.len() < total(weights_of(result@))
                <= FRACTION_ONE,
    {
        let n: usize = companies.len();
        let ghost batch = companies@;
        let mut caps: Vec<u64> = Vec::new();
        let mut rates: Vec<i64> = Vec::new();
        let mut i: usize = 0;
        while i < n
            invariant
                i <= n,
                n == companies.len(),
                batch == companies@,
                caps.len() == i,
                rates.len() == i,
                forall|j: int| 0 <= j < i ==> caps[j] == batch[j].market_cap,
                forall|j: int| 0 <= j < i ==> rates[j] == batch[j].revenue_growth_rate,
            decreases n - i,
        {
            caps.push(companies[i].market_cap);
            rates.push(companies[i].revenue_growth_rate);
            i = i + 1;
        }
        assert(ints_of_u64(caps@) =~= market_caps_of(batch));
        assert(ints_of_i64(rates@) =~= growth_rates_of(batch));
        let market: Vec<u32> = self.normalize_market_cap(caps.as_slice());
        let growth: Vec<u32> = self.normalize_growth(rates.as_slice());
        assert(market.len() == n && growth.len() == n) by {
            assert(ints_of_u32(market@).len() == market_cap_factors(market_caps_of(batch)).len());
            assert(ints_of_u32(growth@).len() == growth_factors(growth_rates_of(batch)).len());
        }
        let mut scores: Vec<u64> = Vec::new();
        let mut i: usize = 0;
        while i < n
            invariant
                i <= n,
                n == companies.len(),
                batch == companies@,
                market.len() == n,
                growth.len() == n,
                ints_of_u32(market@) == market_cap_factors(market_caps_of(batch)),
                ints_of_u32(growth@) == growth_factors(growth_rates_of(batch)),
                scores.len() == i,
                forall|j: int| 0 <= j < i ==> scores[j] == raw_score(*self, batch, j),
            decreases n - i,
        {
            assert(market[i as int] == ints_of_u32(market@)[i as int]);
            assert(growth[i as int] == ints_of_u32(growth@)[i as int]);
            let score: u64 = self.combine_factors(
                companies[i].space_revenue_pct,
                market[i],
                growth[i],
            );
            scores.push(score);
            i = i + 1;
        }
        assert(ints_of_u64(scores@) =~= raw_scores(*self, batch));
        let weights: Vec<u32> = self.weights_from_scores(&scores);
        let ghost w = index_weights(*self, batch);
        assert(ints_of_u32(weights@) == w);
        assert(weights.len() == n) by {
            assert(ints_of_u32(weights@).len() == w.len());
        }
        let order: Vec<usize> = rank_order(&weights);
        let ghost places = ints_of_usize(order@);
        let mut result: Vec<IndexConstituent> = Vec::new();
        let mut k: usize = 0;
        while k < n
            invariant
                k <= n,
                n == companies.len(),
                batch == companies@,
                weights.len() == n,
                scores.len() == n,
                order.len() == n,
                w == index_weights(*self, batch),
                ints_of_u32(weights@) == w,
                ints_of_u64(scores@) == raw_scores(*self, batch),
                places == ints_of_usize(order@),
                in_rank_order(w, places),
                result.len() == k,
                forall|m: int|
                    0 <= m < k ==> #[trigger] result[m] == constituent_of(
                        *self,
                        batch,
                        places[m],
                        m + 1,
                    ),
            decreases n - k,
        {
            let j: usize = order[k];
            assert(0 <= places[k as int] < n && places[k as int] == j);
            assert(weights[j as int] == ints_of_u32(weights@)[j as int]);
            assert(scores[j as int] == ints_of_u64(scores@)[j as int]);
            let company: &CompanyMetrics = &companies[j];
            let constituent = IndexConstituent {
                ticker: company.ticker.clone(),
                name: company.name.clone(),
                market_cap: company.market_cap,
                space_revenue_pct: company.space_revenue_pct,
                revenue_growth_rate: company.revenue_growth_rate,
                raw_score: scores[j],
                weight: weights[j],
                rank: k + 1,
                segments: copy_of(&company.segments),
            };
            result.push(constituent);
            k = k + 1;
        }
        proof {
            lemma_rank_order_places(w, places);
            assert forall|a: int, b: int| 0 <= a <= b < result.len() implies (
            #[trigger] result[a]).weight >= (#[trigger] result[b]).weight by {
                lemma_rank_order_descends(w, places, a, b);
            }
            assert(weights_of(result@) =~= picked(w, places));
            assert(result@ =~= index_constituents(*self, batch));
            if n > 0 {
                lemma_index_weights_total(*self, batch);
            }
        }
        result
    }
}

} // verus!

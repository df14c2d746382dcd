use future_indices::allocation::{proportional_shares, sum_of};
use future_indices::ranking::rank_order;
use future_indices::units::rescale_value;
use future_indices::weighting::{CompanyMetrics, WeightingAlgorithm};

#[test]
fn sums_do_not_wrap() {
    assert_eq!(sum_of(&vec![]), 0);
    assert_eq!(sum_of(&vec![1, 2, 3]), 6);
    assert_eq!(sum_of(&vec![u64::MAX, u64::MAX, 1]), 2 * (u64::MAX as u128) + 1);
}

#[test]
fn shares_are_proportional_and_rounded_down() {
    assert_eq!(proportional_shares(&vec![1, 1, 1]), vec![333_333_333; 3]);
    assert_eq!(proportional_shares(&vec![1, 3]), vec![250_000_000, 750_000_000]);
    assert_eq!(proportional_shares(&vec![7]), vec![1_000_000_000]);
    assert_eq!(proportional_shares(&vec![0, 5, 0]), vec![0, 1_000_000_000, 0]);
    assert_eq!(
        proportional_shares(&vec![u64::MAX, u64::MAX, u64::MAX, 1]),
        vec![333_333_333, 333_333_333, 333_333_333, 0]
    );
    assert_eq!(proportional_shares(&vec![]), Vec::<u32>::new());
}

#[test]
fn shares_of_nothing_are_equal() {
    assert_eq!(proportional_shares(&vec![0]), vec![1_000_000_000]);
    assert_eq!(proportional_shares(&vec![0, 0]), vec![500_000_000; 2]);
    assert_eq!(proportional_shares(&vec![0; 7]), vec![142_857_142; 7]);
}

#[test]
fn shares_are_held_to_the_bounds() {
    let algo = WeightingAlgorithm::default();
    assert_eq!(algo.clamp_to_bounds(0), 10_000_000);
    assert_eq!(algo.clamp_to_bounds(9_999_999), 10_000_000);
    assert_eq!(algo.clamp_to_bounds(10_000_000), 10_000_000);
    assert_eq!(algo.clamp_to_bounds(55_000_000), 55_000_000);
    assert_eq!(algo.clamp_to_bounds(100_000_000), 100_000_000);
    assert_eq!(algo.clamp_to_bounds(100_000_001), 100_000_000);
    assert_eq!(algo.clamp_to_bounds(u32::MAX), 100_000_000);
    // With the bounds the wrong way round, a share below the lower one is raised to it
    // and every other share is lowered to the upper one.
    let inverted = WeightingAlgorithm { max_position_size: 5, min_position_size: 9, ..algo };
    assert_eq!(inverted.clamp_to_bounds(3), 9);
    assert_eq!(inverted.clamp_to_bounds(7), 9);
    assert_eq!(inverted.clamp_to_bounds(9), 5);
    assert_eq!(inverted.clamp_to_bounds(11), 5);
}

#[test]
fn weights_from_scores_in_three_steps() {
    let algo = WeightingAlgorithm::default();
    // Shares 50 %, 30 %, 15 %, 5 %, 0 %; held to 10 %, 10 %, 10 %, 5 %, 1 %; shared out again.
    assert_eq!(
        algo.weights_from_scores(&vec![50, 30, 15, 5, 0]),
        vec![277_777_777, 277_777_777, 277_777_777, 138_888_888, 27_777_777]
    );
    assert_eq!(algo.weights_from_scores(&vec![]), Vec::<u32>::new());
}

#[test]
fn rank_order_lists_the_heaviest_first() {
    assert_eq!(rank_order(&vec![]), Vec::<usize>::new());
    assert_eq!(rank_order(&vec![5]), vec![0]);
    assert_eq!(rank_order(&vec![1, 3, 2]), vec![1, 2, 0]);
    assert_eq!(rank_order(&vec![3, 2, 1]), vec![0, 1, 2]);
    assert_eq!(rank_order(&vec![1, 2, 3, 4, 5]), vec![4, 3, 2, 1, 0]);
}

#[test]
fn rank_order_keeps_equal_weights_in_the_order_of_the_batch() {
    assert_eq!(rank_order(&vec![7, 7, 7]), vec![0, 1, 2]);
    assert_eq!(rank_order(&vec![1, 9, 1, 9, 5, 1]), vec![1, 3, 4, 0, 2, 5]);
}

#[test]
fn rank_order_is_a_permutation() {
    let weights: Vec<u32> = (0..200u32).map(|i| (i * 7919) % 31).collect();
    let order = rank_order(&weights);
    let mut seen = vec![false; weights.len()];
    for &j in &order {
        assert!(!seen[j]);
        seen[j] = true;
    }
    assert!(seen.iter().all(|&s| s));
    for k in 1..order.len() {
        let (a, b) = (order[k - 1], order[k]);
        assert!(weights[a] > weights[b] || (weights[a] == weights[b] && a < b));
    }
}

#[test]
fn rescaling_rounds_down() {
    assert_eq!(rescale_value(0, 0, 3), 0);
    assert_eq!(rescale_value(1, 0, 3), 33_333_333);
    assert_eq!(rescale_value(2, 0, 3), 66_666_666);
    assert_eq!(rescale_value(3, 0, 3), 100_000_000);
    assert_eq!(rescale_value(-50_000_000, -50_000_000, 200_000_000), 0);
    assert_eq!(rescale_value(75_000_000, -50_000_000, 200_000_000), 50_000_000);
    assert_eq!(rescale_value(200_000_000, -50_000_000, 200_000_000), 100_000_000);
    assert_eq!(rescale_value(i64::MIN + 1, i64::MIN, i64::MIN + 2), 50_000_000);
}

fn batch_with(cap: u64) -> Vec<u64> {
    vec![1_000, cap, 50_000, 0, 1_000_000]
}

#[test]
fn market_cap_factor_rises_with_the_market_value_of_one_company() {
    let algo = WeightingAlgorithm::default();
    let values: [u64; 12] =
        [2, 3, 999, 1_000, 1_001, 49_999, 50_000, 50_001, 999_999, 1_000_000, 1_000_001, u64::MAX];
    let mut last = 0;
    for cap in values {
        let factor = algo.normalize_market_cap(&batch_with(cap))[1];
        assert!(factor >= last, "{cap}");
        last = factor;
    }
    assert_eq!(last, 100_000_000);
}

#[test]
fn a_market_value_that_counts_like_none_can_stand_above_a_small_one() {
    let algo = WeightingAlgorithm::default();
    // One and nothing have no logarithm above zero: the batch has no spread to speak of.
    assert_eq!(algo.normalize_market_cap(&[1, 1_000, 1_000])[0], 50_000_000);
    assert_eq!(algo.normalize_market_cap(&[2, 1_000, 1_000])[0], 0);
}

#[test]
fn scores_lie_on_the_scale() {
    let algo = WeightingAlgorithm::default();
    let companies: Vec<CompanyMetrics> = (0..30u64)
        .map(|i| CompanyMetrics {
            ticker: format!("T{i}"),
            name: format!("N{i}"),
            market_cap: i * i * i * 1_000,
            space_revenue_pct: ((i * 37) % 101) as u32 * 1_000_000,
            revenue_growth_rate: (i as i64 - 10) * 25_000_000,
            segments: None,
        })
        .collect();
    for c in algo.calculate_weights(companies) {
        assert!(c.raw_score <= 100_000_000);
    }
    assert_eq!(algo.combine_factors(100_000_000, 100_000_000, 100_000_000), 100_000_000);
    let generous = WeightingAlgorithm::new(400_000_000, 300_000_000, 301_000_000, 1, 1).unwrap();
    assert_eq!(generous.combine_factors(100_000_000, 100_000_000, 100_000_000), 100_100_000);
}

use future_indices::weighting::{
    CompanyMetrics, IndexConstituent, WeightingAlgorithm, WeightingError,
};

/// A fraction of the index, in parts per billion.
fn frac(x: f64) -> u32 {
    (x * 1e9).round() as u32
}

/// A number of points, in millionths of a point.
fn pts(x: f64) -> u32 {
    (x * 1e6).round() as u32
}

/// A signed number of points, in millionths of a point.
fn spts(x: f64) -> i64 {
    (x * 1e6).round() as i64
}

fn company(
    ticker: &str,
    name: &str,
    cap: f64,
    space: f64,
    growth: f64,
    segments: Option<&str>,
) -> CompanyMetrics {
    CompanyMetrics {
        ticker: ticker.to_string(),
        name: name.to_string(),
        market_cap: cap as u64,
        space_revenue_pct: pts(space),
        revenue_growth_rate: spts(growth),
        segments: segments.map(|s| s.to_string()),
    }
}

fn five_companies() -> Vec<CompanyMetrics> {
    vec![
        company("ASTS", "AST SpaceMobile", 19.2e9, 90.0, 120.0, Some("Satellites")),
        company("RKLB", "Rocket Lab", 25.0e9, 80.0, 50.0, Some("Launch")),
        company("IRDM", "Iridium", 1.8e9, 50.0, 5.0, Some("Satellites")),
        company("GSAT", "Globalstar", 6.4e9, 30.0, 15.0, Some("Satellites")),
        company("SPCE", "Virgin Galactic", 0.2e9, 50.0, -20.0, Some("Launch")),
    ]
}

fn tickers(constituents: &[IndexConstituent]) -> Vec<String> {
    constituents.iter().map(|c| c.ticker.clone()).collect()
}

fn weights(constituents: &[IndexConstituent]) -> Vec<u32> {
    constituents.iter().map(|c| c.weight).collect()
}

#[test]
fn test_weighting_algorithm_creation() {
    let algo = WeightingAlgorithm::default();
    assert_eq!(algo.space_revenue_weight, frac(0.4));
    assert_eq!(algo.market_cap_weight, frac(0.3));
    assert_eq!(algo.growth_weight, frac(0.3));
}

#[test]
fn test_weights_validation() {
    let result = WeightingAlgorithm::new(frac(0.5), frac(0.3), frac(0.1), frac(0.15), frac(0.01));
    assert!(result.is_err());

    let result = WeightingAlgorithm::new(frac(0.4), frac(0.3), frac(0.3), frac(0.15), frac(0.01));
    assert!(result.is_ok());
}

#[test]
fn test_market_cap_normalization() {
    let algo = WeightingAlgorithm::default();
    let market_caps: Vec<u64> = vec![1e9 as u64, 10e9 as u64, 100e9 as u64];

    let normalized = algo.normalize_market_cap(&market_caps);

    assert_eq!(normalized.len(), 3);
    assert!(normalized[0] < normalized[1]);
    assert!(normalized[1] < normalized[2]);
    assert!(normalized[2] <= pts(100.0));
    assert!(normalized[0] >= pts(0.0));
}

#[test]
fn test_growth_normalization() {
    let algo = WeightingAlgorithm::default();
    let growth_rates = vec![spts(-100.0), spts(0.0), spts(50.0), spts(300.0)];

    let normalized = algo.normalize_growth(&growth_rates);

    assert_eq!(normalized.len(), 4);
    // -100 is clipped to -50, 300 is clipped to 200
    assert!(normalized[0] >= pts(0.0)); // the smallest stands at the bottom of the scale
    assert!(normalized[3] <= pts(100.0)); // the largest stands at its top
}

#[test]
fn test_calculate_weights() {
    let algo = WeightingAlgorithm::default();

    let constituents = algo.calculate_weights(five_companies());

    assert_eq!(constituents.len(), 5);

    let total_weight: u64 = constituents.iter().map(|c| c.weight as u64).sum();
    assert!((total_weight as f64 / 1e9 - 1.0).abs() < 0.001);

    for (i, c) in constituents.iter().enumerate() {
        assert_eq!(c.rank, i + 1);
    }

    for i in 0..constituents.len() - 1 {
        assert!(constituents[i].weight >= constituents[i + 1].weight);
    }

    for c in &constituents {
        assert!(c.weight > 0);
        assert!(c.weight < frac(1.0));
    }
}

#[test]
fn test_summary_stats() {
    let algo = WeightingAlgorithm::default();

    let companies = vec![
        company("TEST1", "Test Company 1", 10e9, 80.0, 50.0, None),
        company("TEST2", "Test Company 2", 5e9, 60.0, 30.0, None),
    ];

    let constituents = algo.calculate_weights(companies);
    let stats = algo.summary_stats(&constituents).unwrap();

    assert_eq!(stats.num_constituents, 2);
    assert!((stats.total_weight as f64 / 1e9 - 1.0).abs() < 0.001);
    assert!(stats.weighted_avg_space_rev_pct > 0);
    assert!(stats.weighted_avg_growth > 0);
    assert!(stats.max_weight >= stats.min_weight);
}

#[test]
fn test_empty_input() {
    let algo = WeightingAlgorithm::default();
    let constituents = algo.calculate_weights(vec![]);
    assert_eq!(constituents.len(), 0);

    let stats = algo.summary_stats(&constituents);
    assert!(stats.is_none());
}

#[test]
fn default_configuration_has_the_standard_bounds() {
    let algo = WeightingAlgorithm::default();
    assert_eq!(algo.max_position_size, frac(0.10));
    assert_eq!(algo.min_position_size, frac(0.01));
    assert_eq!(
        WeightingAlgorithm::new(frac(0.4), frac(0.3), frac(0.3), frac(0.10), frac(0.01)),
        Ok(algo)
    );
}

#[test]
fn configuration_is_refused_when_weights_sum_to_less_or_more_than_one() {
    let low = WeightingAlgorithm::new(frac(0.4), frac(0.2), frac(0.2), frac(0.10), frac(0.01));
    assert_eq!(low, Err(WeightingError::InvalidConfiguration { total: 800_000_000 }));
    let high = WeightingAlgorithm::new(frac(0.5), frac(0.4), frac(0.3), frac(0.10), frac(0.01));
    assert_eq!(high, Err(WeightingError::InvalidConfiguration { total: 1_200_000_000 }));
    let exact = WeightingAlgorithm::new(frac(0.4), frac(0.3), frac(0.3), frac(0.10), frac(0.01));
    assert!(exact.is_ok());
}

#[test]
fn configuration_tolerates_a_thousandth_and_no_more() {
    assert!(WeightingAlgorithm::new(400_000_000, 300_000_000, 301_000_000, 1, 1).is_ok());
    assert!(WeightingAlgorithm::new(400_000_000, 300_000_000, 299_000_000, 1, 1).is_ok());
    assert_eq!(
        WeightingAlgorithm::new(400_000_000, 300_000_000, 301_000_001, 1, 1),
        Err(WeightingError::InvalidConfiguration { total: 1_001_000_001 })
    );
    assert_eq!(
        WeightingAlgorithm::new(400_000_000, 300_000_000, 298_999_999, 1, 1),
        Err(WeightingError::InvalidConfiguration { total: 998_999_999 })
    );
}

#[test]
fn configuration_sum_does_not_wrap() {
    assert_eq!(
        WeightingAlgorithm::new(u32::MAX, u32::MAX, u32::MAX, 0, 0),
        Err(WeightingError::InvalidConfiguration { total: 3 * (u32::MAX as u64) })
    );
}

#[test]
fn position_bounds_are_taken_as_they_are() {
    let algo = WeightingAlgorithm::new(frac(0.4), frac(0.3), frac(0.3), frac(0.01), frac(0.10))
        .unwrap();
    assert_eq!(algo.max_position_size, frac(0.01));
    assert_eq!(algo.min_position_size, frac(0.10));
}

#[test]
fn market_cap_factors_of_three_decades() {
    let algo = WeightingAlgorithm::default();
    let normalized = algo.normalize_market_cap(&[1e9 as u64, 10e9 as u64, 100e9 as u64]);
    assert_eq!(normalized, vec![0, pts(50.0), pts(100.0)]);
}

#[test]
fn market_cap_factors_of_the_five_companies() {
    let algo = WeightingAlgorithm::default();
    let caps: Vec<u64> = five_companies().iter().map(|c| c.market_cap).collect();
    assert_eq!(
        algo.normalize_market_cap(&caps),
        vec![94_532_943, 100_000_000, 45_507_078, 71_779_403, 0]
    );
}

#[test]
fn market_cap_factors_are_neutral_without_spread() {
    let algo = WeightingAlgorithm::default();
    assert_eq!(algo.normalize_market_cap(&[0, 0, 0]), vec![pts(50.0); 3]);
    assert_eq!(algo.normalize_market_cap(&[5, 5, 5]), vec![pts(50.0); 3]);
    assert_eq!(algo.normalize_market_cap(&[7]), vec![pts(50.0)]);
    // One market value above zero spans no range, whatever else is in the batch.
    assert_eq!(algo.normalize_market_cap(&[0, 1000, 1000]), vec![pts(50.0); 3]);
    // A spread below a ten-thousandth of a decade does not count.
    assert_eq!(algo.normalize_market_cap(&[1_000_000, 1_000_200]), vec![pts(50.0); 2]);
    assert_eq!(algo.normalize_market_cap(&[1_000_000, 1_000_300]), vec![0, pts(100.0)]);
}

#[test]
fn market_cap_factor_of_a_company_without_market_value_is_zero() {
    let algo = WeightingAlgorithm::default();
    // A market value of one has the logarithm zero and counts like none.
    assert_eq!(algo.normalize_market_cap(&[0, 1, 10, 100]), vec![0, 0, 0, pts(100.0)]);
}

#[test]
fn market_cap_factors_of_an_empty_batch() {
    let algo = WeightingAlgorithm::default();
    assert_eq!(algo.normalize_market_cap(&[]), Vec::<u32>::new());
    assert_eq!(algo.normalize_growth(&[]), Vec::<u32>::new());
}

#[test]
fn market_cap_factor_grows_with_market_value() {
    let algo = WeightingAlgorithm::default();
    let caps: Vec<u64> = vec![3, 1_000_000, 0, 77, 5_000_000_000, 1, 77, u64::MAX, 12];
    let factors = algo.normalize_market_cap(&caps);
    for i in 0..caps.len() {
        for j in 0..caps.len() {
            if caps[i] <= caps[j] {
                assert!(factors[i] <= factors[j]);
            }
        }
    }
    assert_eq!(factors[7], pts(100.0));
}

#[test]
fn growth_factors_clip_before_scaling() {
    let algo = WeightingAlgorithm::default();
    let normalized = algo.normalize_growth(&[spts(300.0), spts(200.0), spts(-50.0), spts(-70.0), spts(75.0)]);
    assert_eq!(normalized, vec![pts(100.0), pts(100.0), 0, 0, pts(50.0)]);
}

#[test]
fn growth_factors_of_the_extremes() {
    let algo = WeightingAlgorithm::default();
    let normalized = algo.normalize_growth(&[spts(-100.0), spts(0.0), spts(50.0), spts(300.0)]);
    assert_eq!(normalized, vec![0, pts(20.0), pts(40.0), pts(100.0)]);
}

#[test]
fn growth_factors_round_down() {
    let algo = WeightingAlgorithm::default();
    assert_eq!(
        algo.normalize_growth(&[spts(10.0), spts(20.0), spts(40.0)]),
        vec![0, 33_333_333, pts(100.0)]
    );
}

#[test]
fn growth_factors_are_neutral_without_spread() {
    let algo = WeightingAlgorithm::default();
    assert_eq!(algo.normalize_growth(&[7, 7, 7]), vec![pts(50.0); 3]);
    assert_eq!(algo.normalize_growth(&[0, 99]), vec![pts(50.0); 2]);
    assert_eq!(algo.normalize_growth(&[0, 100]), vec![0, pts(100.0)]);
    assert_eq!(algo.normalize_growth(&[i64::MIN, i64::MIN]), vec![pts(50.0); 2]);
    assert_eq!(algo.normalize_growth(&[i64::MIN, i64::MAX]), vec![0, pts(100.0)]);
}

#[test]
fn combined_score_is_the_weighted_sum() {
    let algo = WeightingAlgorithm::default();
    assert_eq!(algo.combine_factors(pts(90.0), 94_532_943, pts(100.0)), 94_359_882);
    assert_eq!(algo.combine_factors(pts(100.0), pts(100.0), pts(100.0)), 100_000_000);
    assert_eq!(algo.combine_factors(0, 0, 0), 0);
    assert_eq!(algo.combine_factors(1, 1, 1), 1);
    assert_eq!(algo.combine_factors(2, 0, 0), 0);
    assert_eq!(algo.combine_factors(u32::MAX, u32::MAX, u32::MAX), u32::MAX as u64);
}

#[test]
fn five_companies_in_full() {
    let algo = WeightingAlgorithm::default();
    let constituents = algo.calculate_weights(five_companies());
    assert_eq!(tickers(&constituents), vec!["ASTS", "RKLB", "IRDM", "GSAT", "SPCE"]);
    let scores: Vec<u64> = constituents.iter().map(|c| c.raw_score).collect();
    assert_eq!(scores, vec![94_359_882, 77_000_000, 39_009_266, 41_033_820, 20_000_000]);
    // Four shares are held to the upper bound; what the bounds leave is shared out again.
    assert_eq!(
        weights(&constituents),
        vec![211_108_013, 211_108_013, 211_108_013, 211_108_013, 155_567_946]
    );
    let first = &constituents[0];
    assert_eq!(first.name, "AST SpaceMobile");
    assert_eq!(first.market_cap, 19_200_000_000);
    assert_eq!(first.space_revenue_pct, pts(90.0));
    assert_eq!(first.revenue_growth_rate, spts(120.0));
    assert_eq!(first.segments.as_deref(), Some("Satellites"));
    assert_eq!(first.rank, 1);
    let heaviest = constituents.iter().map(|c| c.weight).max().unwrap();
    assert_eq!(first.weight, heaviest);
}

#[test]
fn bounds_are_applied_before_the_last_step_only() {
    let algo = WeightingAlgorithm::default();
    let constituents = algo.calculate_weights(five_companies());
    for c in &constituents {
        assert!(c.weight > algo.max_position_size);
    }
}

#[test]
fn unbounded_weights_follow_the_scores() {
    let algo = WeightingAlgorithm::new(frac(0.4), frac(0.3), frac(0.3), frac(1.0), 0).unwrap();
    let constituents = algo.calculate_weights(five_companies());
    assert_eq!(tickers(&constituents), vec!["ASTS", "RKLB", "GSAT", "IRDM", "SPCE"]);
    assert_eq!(
        weights(&constituents),
        vec![347_674_466, 283_710_972, 151_191_493, 143_731_906, 73_691_161]
    );
    let ranks: Vec<usize> = constituents.iter().map(|c| c.rank).collect();
    assert_eq!(ranks, vec![1, 2, 3, 4, 5]);
}

#[test]
fn equal_weights_keep_the_order_of_the_batch() {
    let algo = WeightingAlgorithm::default();
    let constituents = algo.calculate_weights(vec![
        company("AAA", "First", 1e9, 50.0, 0.0, None),
        company("BBB", "Second", 1e10, 70.0, 10.0, None),
        company("AAA", "Third", 1e9, 50.0, 0.0, None),
    ]);
    let names: Vec<&str> = constituents.iter().map(|c| c.name.as_str()).collect();
    assert_eq!(names, vec!["First", "Second", "Third"]);
    assert_eq!(weights(&constituents), vec![333_333_333; 3]);
    let scores: Vec<u64> = constituents.iter().map(|c| c.raw_score).collect();
    assert_eq!(scores, vec![20_000_000, 88_000_000, 20_000_000]);
}

#[test]
fn a_single_company_is_the_whole_index() {
    let algo = WeightingAlgorithm::default();
    let constituents = algo.calculate_weights(vec![company("ONE", "Only", 5e9, 50.0, 10.0, None)]);
    assert_eq!(constituents.len(), 1);
    assert_eq!(constituents[0].weight, frac(1.0));
    assert_eq!(constituents[0].raw_score, 50_000_000);
    assert_eq!(constituents[0].rank, 1);
}

#[test]
fn a_batch_without_scores_is_shared_out_equally() {
    let algo = WeightingAlgorithm::new(frac(1.0), 0, 0, frac(0.10), frac(0.01)).unwrap();
    let constituents = algo.calculate_weights(vec![
        company("A", "A", 1.0, 0.0, 0.0, None),
        company("B", "B", 2.0, 0.0, 0.0, None),
        company("C", "C", 3.0, 0.0, 0.0, None),
    ]);
    assert_eq!(weights(&constituents), vec![333_333_333; 3]);
    assert_eq!(tickers(&constituents), vec!["A", "B", "C"]);
    for c in &constituents {
        assert_eq!(c.raw_score, 0);
    }
}

#[test]
fn a_batch_without_bounded_shares_is_shared_out_equally() {
    let algo = WeightingAlgorithm::new(frac(0.4), frac(0.3), frac(0.3), 0, 0).unwrap();
    let constituents = algo.calculate_weights(five_companies());
    assert_eq!(weights(&constituents), vec![200_000_000; 5]);
    assert_eq!(tickers(&constituents), vec!["ASTS", "RKLB", "IRDM", "GSAT", "SPCE"]);
}

#[test]
fn without_a_lower_bound_a_weight_can_be_nothing() {
    let algo = WeightingAlgorithm::new(frac(0.4), frac(0.3), frac(0.3), frac(0.10), 0).unwrap();
    let constituents = algo.calculate_weights(vec![
        company("A", "A", 1e9, 90.0, 100.0, None),
        company("B", "B", 1e10, 50.0, 50.0, None),
        company("C", "C", 0.0, 0.0, -50.0, None),
    ]);
    assert_eq!(tickers(&constituents), vec!["A", "B", "C"]);
    assert_eq!(weights(&constituents), vec![500_000_000, 500_000_000, 0]);
    let scores: Vec<u64> = constituents.iter().map(|c| c.raw_score).collect();
    assert_eq!(scores, vec![66_000_000, 69_999_999, 0]);
}

#[test]
fn a_lower_bound_above_the_upper_one_holds_every_share_to_a_bound() {
    let algo = WeightingAlgorithm::new(frac(0.4), frac(0.3), frac(0.3), frac(0.01), frac(0.10))
        .unwrap();
    let constituents = algo.calculate_weights(vec![
        company("A", "A", 1e9, 90.0, 0.0, None),
        company("B", "B", 1e10, 10.0, 10.0, None),
        company("C", "C", 1e11, 50.0, 20.0, None),
    ]);
    assert_eq!(weights(&constituents), vec![333_333_333; 3]);
}

#[test]
fn weights_sum_to_one_within_rounding() {
    let algo = WeightingAlgorithm::default();
    for n in 1..40usize {
        let companies: Vec<CompanyMetrics> = (0..n)
            .map(|i| {
                company(
                    "T",
                    "N",
                    (1 + i * i * 1000) as f64,
                    ((i * 37) % 101) as f64,
                    (i as f64) * 9.0 - 60.0,
                    None,
                )
            })
            .collect();
        let constituents = algo.calculate_weights(companies);
        let total: u64 = constituents.iter().map(|c| c.weight as u64).sum();
        assert!(total <= 1_000_000_000);
        assert!(total + (n as u64) > 1_000_000_000);
        for (k, c) in constituents.iter().enumerate() {
            assert_eq!(c.rank, k + 1);
            if n >= 2 {
                assert!(c.weight > 0 && c.weight < 1_000_000_000);
            }
            if k > 0 {
                assert!(constituents[k - 1].weight >= c.weight);
            }
        }
    }
}

#[test]
fn summary_of_two_companies() {
    let algo = WeightingAlgorithm::default();
    let constituents = algo.calculate_weights(vec![
        company("TEST1", "Test Company 1", 10e9, 80.0, 50.0, None),
        company("TEST2", "Test Company 2", 5e9, 60.0, 30.0, None),
    ]);
    assert_eq!(weights(&constituents), vec![500_000_000, 500_000_000]);
    let stats = algo.summary_stats(&constituents).unwrap();
    assert_eq!(stats.num_constituents, 2);
    assert_eq!(stats.total_weight, 1_000_000_000);
    assert_eq!(stats.weighted_avg_market_cap, 7_500_000_000);
    assert_eq!(stats.weighted_avg_space_rev_pct, 70_000_000);
    assert_eq!(stats.weighted_avg_growth, 40_000_000);
    assert_eq!(stats.max_weight, 500_000_000);
    assert_eq!(stats.min_weight, 500_000_000);
}

#[test]
fn summary_rounds_a_negative_average_toward_zero() {
    let algo = WeightingAlgorithm::default();
    let constituent = IndexConstituent {
        ticker: "X".to_string(),
        name: "X".to_string(),
        market_cap: 3,
        space_revenue_pct: 7,
        revenue_growth_rate: -7,
        raw_score: 0,
        weight: 500_000_000,
        rank: 1,
        segments: None,
    };
    let other = IndexConstituent { weight: 250_000_000, rank: 2, ..constituent.clone() };
    let stats = algo.summary_stats(&[constituent, other]).unwrap();
    assert_eq!(stats.total_weight, 750_000_000);
    // 3 * 0.75 = 2.25, 7 * 0.75 = 5.25, -7 * 0.75 = -5.25
    assert_eq!(stats.weighted_avg_market_cap, 2);
    assert_eq!(stats.weighted_avg_space_rev_pct, 5);
    assert_eq!(stats.weighted_avg_growth, -5);
    assert_eq!(stats.max_weight, 500_000_000);
    assert_eq!(stats.min_weight, 250_000_000);
}

#[test]
fn summary_of_all_zero_data_is_not_absent() {
    let algo = WeightingAlgorithm::default();
    let constituent = IndexConstituent {
        ticker: String::new(),
        name: String::new(),
        market_cap: 0,
        space_revenue_pct: 0,
        revenue_growth_rate: 0,
        raw_score: 0,
        weight: 0,
        rank: 1,
        segments: None,
    };
    let stats = algo.summary_stats(&[constituent]).unwrap();
    assert_eq!(stats.num_constituents, 1);
    assert_eq!(stats.total_weight, 0);
    assert_eq!(stats.weighted_avg_market_cap, 0);
    assert_eq!(stats.max_weight, 0);
    assert_eq!(stats.min_weight, 0);
}

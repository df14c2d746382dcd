use future_indices::calendar::CalendarDate;
use future_indices::newsletter::{
    format_holdings, generate_quarterly_report, round_half_even, ConvertKitClient, HoldingData,
    NewsletterData, RebalancingChanges, Subscriber, SubscriptionTier,
};

/// A number of points, in millionths of a point.
fn spts(x: f64) -> i64 {
    (x * 1e6).round() as i64
}

/// A fraction of the index, in parts per billion.
fn frac(x: f64) -> u32 {
    (x * 1e9).round() as u32
}

fn holding(ticker: &str, name: &str, weight: u32) -> HoldingData {
    HoldingData { ticker: ticker.to_string(), company_name: name.to_string(), weight }
}

fn letter(holdings: Vec<HoldingData>, added: Vec<&str>, removed: Vec<&str>) -> NewsletterData {
    NewsletterData {
        index_name: "SPACEINFRA".to_string(),
        period: "Q4 2024".to_string(),
        quarter: "Q4".to_string(),
        total_return: spts(25.5),
        ytd_return: spts(83.0),
        vs_sp500: spts(55.0),
        top_holdings: holdings,
        rebalancing_changes: RebalancingChanges {
            added: added.into_iter().map(|s| s.to_string()).collect(),
            removed: removed.into_iter().map(|s| s.to_string()).collect(),
            date: CalendarDate { year: 2024, month: 12, day: 31 },
        },
    }
}

#[test]
fn test_client_creation() {
    let client = ConvertKitClient::new("test_key".to_string(), "test_secret".to_string());
    assert_eq!(client.base_url(), "https://api.convertkit.com/v3");
}

#[test]
fn test_newsletter_data_creation() {
    let data = NewsletterData {
        index_name: "SPACEINFRA".to_string(),
        period: "Q4 2024".to_string(),
        quarter: "Q4".to_string(),
        total_return: spts(25.5),
        ytd_return: spts(83.0),
        vs_sp500: spts(55.0),
        top_holdings: vec![],
        rebalancing_changes: RebalancingChanges {
            added: vec![],
            removed: vec![],
            date: CalendarDate { year: 2024, month: 12, day: 31 },
        },
    };
    assert_eq!(data.index_name, "SPACEINFRA");
}

#[test]
fn test_template_generation() {
    let data = NewsletterData {
        index_name: "SPACEINFRA".to_string(),
        period: "Q4 2024".to_string(),
        quarter: "Q4".to_string(),
        total_return: spts(25.5),
        ytd_return: spts(83.0),
        vs_sp500: spts(55.0),
        top_holdings: vec![HoldingData {
            ticker: "RKLB".to_string(),
            company_name: "Rocket Lab".to_string(),
            weight: frac(0.10),
        }],
        rebalancing_changes: RebalancingChanges {
            added: vec!["LUNR".to_string()],
            removed: vec![],
            date: CalendarDate { year: 2024, month: 12, day: 31 },
        },
    };

    let email = generate_quarterly_report(&data);
    assert!(email.contains("SPACEINFRA"));
    assert!(email.contains("25.5%"));
    assert!(email.contains("RKLB"));
}

#[test]
fn client_keeps_key_and_secret() {
    let client = ConvertKitClient::new("test_key".to_string(), "test_secret".to_string());
    assert_eq!(client.api_key(), "test_key");
    assert_eq!(client.api_secret(), "test_secret");
}

#[test]
fn subscriber_has_a_tier() {
    let subscriber = Subscriber {
        email: "test@example.com".to_string(),
        first_name: Some("Test".to_string()),
        tier: SubscriptionTier::Free,
    };
    assert_eq!(subscriber.tier, SubscriptionTier::Free);
    assert_ne!(subscriber.tier, SubscriptionTier::Paid);
}

#[test]
fn letter_in_full() {
    let data = letter(vec![holding("RKLB", "Rocket Lab", frac(0.10))], vec!["LUNR"], vec![]);
    assert_eq!(
        generate_quarterly_report(&data),
        "\n# SPACEINFRA - Q4 2024 Performance Update\n\n## QUARTERLY PERFORMANCE\n- Return: 25.5%\n- YTD: 83.0%\n- vs S&P 500: 55.0%\n\n## TOP HOLDINGS\n1. RKLB - Rocket Lab (10.0%)\n\n## REBALANCING CHANGES\nAdded: LUNR\nRemoved: None\n\n---\nRead full report at https://futureeconomy.indices/spaceinfra\n\nUpgrade to paid for weekly updates!\n"
    );
}

#[test]
fn letter_with_losses_and_changes() {
    let mut data = letter(vec![], vec!["LUNR", "RDW", "PL"], vec!["SPCE", "MNTS"]);
    data.index_name = "AiInfra".to_string();
    data.total_return = spts(-3.25);
    data.ytd_return = -40_000;
    data.vs_sp500 = 0;
    let email = generate_quarterly_report(&data);
    assert!(email.starts_with("\n# AiInfra - Q4 2024 Performance Update\n"));
    assert!(email.contains("- Return: -3.2%\n- YTD: -0.0%\n- vs S&P 500: 0.0%\n"));
    assert!(email.contains("## TOP HOLDINGS\n\n\n## REBALANCING CHANGES\n"));
    assert!(email.contains("Added: LUNR, RDW, PL\nRemoved: SPCE, MNTS\n"));
    assert!(email.contains("https://futureeconomy.indices/aiinfra\n"));
}

#[test]
fn holdings_are_numbered_from_one() {
    let holdings = vec![
        holding("RKLB", "Rocket Lab", frac(0.10)),
        holding("ASTS", "AST SpaceMobile", frac(0.0955)),
        holding("IRDM", "Iridium", 4_321_000),
    ];
    assert_eq!(
        format_holdings(&holdings),
        "1. RKLB - Rocket Lab (10.0%)\n2. ASTS - AST SpaceMobile (9.6%)\n3. IRDM - Iridium (0.4%)"
    );
    assert_eq!(format_holdings(&[]), "");
    assert_eq!(format_holdings(&holdings[..1]), "1. RKLB - Rocket Lab (10.0%)");
}

#[test]
fn shares_round_a_half_to_the_even_tenth() {
    let line = |weight: u32| format_holdings(&[holding("T", "N", weight)]);
    assert_eq!(line(2_500_000), "1. T - N (0.2%)");
    assert_eq!(line(2_500_001), "1. T - N (0.3%)");
    assert_eq!(line(3_500_000), "1. T - N (0.4%)");
    assert_eq!(line(3_499_999), "1. T - N (0.3%)");
    assert_eq!(line(0), "1. T - N (0.0%)");
    assert_eq!(line(1_000_000_000), "1. T - N (100.0%)");
    assert_eq!(line(u32::MAX), "1. T - N (429.5%)");
}

#[test]
fn rounding_a_half_to_the_even_neighbour() {
    assert_eq!(round_half_even(0, 10), 0);
    assert_eq!(round_half_even(4, 10), 0);
    assert_eq!(round_half_even(5, 10), 0);
    assert_eq!(round_half_even(6, 10), 1);
    assert_eq!(round_half_even(15, 10), 2);
    assert_eq!(round_half_even(25, 10), 2);
    assert_eq!(round_half_even(7, 1), 7);
    assert_eq!(round_half_even(u64::MAX, 1), u64::MAX);
    assert_eq!(round_half_even(u64::MAX, 100_000), 184_467_440_737_096);
    assert_eq!(round_half_even(1, 3), 0);
    assert_eq!(round_half_even(2, 3), 1);
}

#[test]
fn returns_of_extreme_size() {
    let mut data = letter(vec![], vec![], vec![]);
    data.total_return = i64::MIN;
    data.ytd_return = i64::MAX;
    let email = generate_quarterly_report(&data);
    assert!(email.contains("- Return: -9223372036854.8%\n- YTD: 9223372036854.8%\n"));
}

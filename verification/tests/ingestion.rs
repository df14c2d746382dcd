use future_indices::ingestion::{
    aggregates_endpoint, calculate_revenue_growth, fill_in, financial_results, market_cap_from,
    needs_details, next_step, search_results, ticker_details_endpoint, Attempt, Financial,
    FinancialStatements, FinancialValue, FinancialsResponse, IncomeStatement, NextStep,
    SearchTickersResponse, TickerDetails, TickerDetailsResponse, TickerSearchResult, MAX_RETRIES,
    RATE_LIMIT_DELAY_MS,
};

fn report(year: &str, revenue: Option<i64>) -> Financial {
    Financial {
        fiscal_year: Some(year.to_string()),
        fiscal_period: None,
        start_date: None,
        end_date: None,
        financials: Some(FinancialStatements {
            income_statement: Some(IncomeStatement {
                revenues: Some(FinancialValue { value: revenue, unit: Some("USD".to_string()) }),
                cost_of_revenue: None,
                gross_profit: None,
                net_income_loss: None,
            }),
            balance_sheet: None,
            cash_flow_statement: None,
        }),
    }
}

fn details(name: &str, description: Option<&str>, market_cap: Option<i64>) -> TickerDetails {
    TickerDetails {
        ticker: "RKLB".to_string(),
        name: name.to_string(),
        market_cap,
        description: description.map(|d| d.to_string()),
        primary_exchange: None,
        locale: None,
    }
}

#[test]
fn test_revenue_growth_calculation() {
    let financials = vec![
        Financial {
            fiscal_year: Some("2024".to_string()),
            fiscal_period: None,
            start_date: None,
            end_date: None,
            financials: Some(FinancialStatements {
                income_statement: Some(IncomeStatement {
                    revenues: Some(FinancialValue {
                        value: Some(100_000_000),
                        unit: Some("USD".to_string()),
                    }),
                    cost_of_revenue: None,
                    gross_profit: None,
                    net_income_loss: None,
                }),
                balance_sheet: None,
                cash_flow_statement: None,
            }),
        },
        Financial {
            fiscal_year: Some("2023".to_string()),
            fiscal_period: None,
            start_date: None,
            end_date: None,
            financials: Some(FinancialStatements {
                income_statement: Some(IncomeStatement {
                    revenues: Some(FinancialValue {
                        value: Some(80_000_000),
                        unit: Some("USD".to_string()),
                    }),
                    cost_of_revenue: None,
                    gross_profit: None,
                    net_income_loss: None,
                }),
                balance_sheet: None,
                cash_flow_statement: None,
            }),
        },
    ];

    let growth = calculate_revenue_growth(&financials);
    assert!(growth.is_some());
    assert!((growth.unwrap() as f64 / 1e6 - 25.0).abs() < 0.01); // 25% growth
    assert_eq!(growth, Some(25_000_000));
}

#[test]
fn revenue_growth_rounds_toward_zero() {
    let up = calculate_revenue_growth(&[report("2024", Some(4)), report("2023", Some(3))]);
    assert_eq!(up, Some(33_333_333));
    let down = calculate_revenue_growth(&[report("2024", Some(2)), report("2023", Some(3))]);
    assert_eq!(down, Some(-33_333_333));
    let from_loss = calculate_revenue_growth(&[report("2024", Some(1)), report("2023", Some(-3))]);
    assert_eq!(from_loss, Some(-133_333_333));
    let deeper_loss =
        calculate_revenue_growth(&[report("2024", Some(-4)), report("2023", Some(-3))]);
    assert_eq!(deeper_loss, Some(33_333_333));
}

#[test]
fn revenue_growth_of_extremes_does_not_overflow() {
    let g = calculate_revenue_growth(&[report("2024", Some(i64::MAX)), report("2023", Some(-1))]);
    assert_eq!(g, Some(-((i64::MAX as i128 + 1) * 100_000_000)));
    let g = calculate_revenue_growth(&[report("2024", Some(i64::MIN)), report("2023", Some(1))]);
    assert_eq!(g, Some((i64::MIN as i128 - 1) * 100_000_000));
    let g = calculate_revenue_growth(&[report("2024", Some(0)), report("2023", Some(i64::MIN))]);
    assert_eq!(g, Some(-100_000_000));
}

#[test]
fn revenue_growth_needs_two_revenues_and_a_base() {
    assert_eq!(calculate_revenue_growth(&[]), None);
    assert_eq!(calculate_revenue_growth(&[report("2024", Some(5))]), None);
    assert_eq!(calculate_revenue_growth(&[report("2024", Some(5)), report("2023", Some(0))]), None);
    assert_eq!(calculate_revenue_growth(&[report("2024", None), report("2023", Some(5))]), None);
    assert_eq!(calculate_revenue_growth(&[report("2024", Some(5)), report("2023", None)]), None);
    let mut bare = report("2023", Some(5));
    bare.financials = None;
    assert_eq!(calculate_revenue_growth(&[report("2024", Some(5)), bare]), None);
    let mut no_income = report("2024", Some(5));
    no_income.financials.as_mut().unwrap().income_statement = None;
    assert_eq!(calculate_revenue_growth(&[no_income, report("2023", Some(5))]), None);
    // Reports after the second do not count.
    assert_eq!(
        calculate_revenue_growth(&[
            report("2024", Some(6)),
            report("2023", Some(5)),
            report("2022", None)
        ]),
        Some(20_000_000)
    );
}

#[test]
fn an_answer_of_success_is_accepted() {
    for status in [200u16, 201, 204, 299] {
        for retries in 0..5 {
            assert_eq!(next_step(retries, Attempt::Answered { status }), NextStep::Accept);
        }
    }
}

#[test]
fn too_many_requests_backs_off_twice_as_long_each_time() {
    let told_off = Attempt::Answered { status: 429 };
    assert_eq!(next_step(0, told_off), NextStep::RetryAfter { wait_ms: 1_000 });
    assert_eq!(next_step(1, told_off), NextStep::RetryAfter { wait_ms: 2_000 });
    assert_eq!(next_step(2, told_off), NextStep::RetryAfter { wait_ms: 4_000 });
    assert_eq!(next_step(3, told_off), NextStep::RejectStatus { status: 429 });
    assert_eq!(next_step(u32::MAX, told_off), NextStep::RejectStatus { status: 429 });
}

#[test]
fn a_server_error_is_tried_again_three_times() {
    for status in [500u16, 502, 503, 599] {
        let failed = Attempt::Answered { status };
        for retries in 0..MAX_RETRIES {
            assert_eq!(next_step(retries, failed), NextStep::RetryAfter { wait_ms: 2_000 });
        }
        assert_eq!(next_step(MAX_RETRIES, failed), NextStep::RejectStatus { status });
    }
}

#[test]
fn another_status_is_rejected_at_once() {
    for status in [0u16, 100, 199, 300, 301, 400, 404, 428, 430, 499, 600, u16::MAX] {
        assert_eq!(
            next_step(0, Attempt::Answered { status }),
            NextStep::RejectStatus { status }
        );
    }
}

#[test]
fn a_request_without_answer_is_tried_again_three_times() {
    for retries in 0..MAX_RETRIES {
        assert_eq!(next_step(retries, Attempt::Failed), NextStep::RetryAfter { wait_ms: 2_000 });
    }
    assert_eq!(next_step(MAX_RETRIES, Attempt::Failed), NextStep::RejectFailure);
    assert_eq!(RATE_LIMIT_DELAY_MS, 200);
}

#[test]
fn endpoints() {
    assert_eq!(ticker_details_endpoint("RKLB"), "/v3/reference/tickers/RKLB");
    assert_eq!(
        aggregates_endpoint("RKLB", 1, "day", "2024-01-01", "2024-12-31"),
        "/v2/aggs/ticker/RKLB/range/1/day/2024-01-01/2024-12-31"
    );
    assert_eq!(
        aggregates_endpoint("A", u32::MAX, "week", "x", "y"),
        "/v2/aggs/ticker/A/range/4294967295/week/x/y"
    );
    assert_eq!(aggregates_endpoint("", 0, "", "", ""), "/v2/aggs/ticker//range/0///");
}

#[test]
fn answers_without_results_are_empty() {
    assert!(financial_results(FinancialsResponse { results: None }).is_empty());
    assert!(search_results(SearchTickersResponse { results: None }).is_empty());
    let reports = financial_results(FinancialsResponse {
        results: Some(vec![report("2024", Some(1)), report("2023", Some(2))]),
    });
    assert_eq!(reports.len(), 2);
    assert_eq!(reports[1].fiscal_year.as_deref(), Some("2023"));
    let found = search_results(SearchTickersResponse {
        results: Some(vec![TickerSearchResult {
            ticker: "ASTS".to_string(),
            name: "AST SpaceMobile".to_string(),
            market: None,
            locale: None,
            primary_exchange: None,
            active: Some(true),
        }]),
    });
    assert_eq!(found.len(), 1);
    assert_eq!(found[0].ticker, "ASTS");
}

#[test]
fn market_cap_of_an_answer() {
    assert_eq!(market_cap_from(None), None);
    let answer = TickerDetailsResponse { results: details("Rocket Lab", None, Some(25_000_000_000)) };
    assert_eq!(market_cap_from(Some(answer)), Some(25_000_000_000));
    let answer = TickerDetailsResponse { results: details("Rocket Lab", None, None) };
    assert_eq!(market_cap_from(Some(answer)), None);
}

#[test]
fn details_fill_in_what_is_not_given() {
    assert!(needs_details(&None, &Some("d".to_string())));
    assert!(needs_details(&Some("n".to_string()), &None));
    assert!(needs_details(&None, &None));
    assert!(!needs_details(&Some("n".to_string()), &Some("d".to_string())));
    let provider = details("Rocket Lab USA", Some("Launch provider"), None);
    assert_eq!(
        fill_in(None, None, provider.clone()),
        ("Rocket Lab USA".to_string(), "Launch provider".to_string())
    );
    assert_eq!(
        fill_in(Some("RL".to_string()), None, provider.clone()),
        ("RL".to_string(), "Launch provider".to_string())
    );
    assert_eq!(
        fill_in(None, Some("Rockets".to_string()), provider),
        ("Rocket Lab USA".to_string(), "Rockets".to_string())
    );
    assert_eq!(
        fill_in(None, None, details("Rocket Lab USA", None, None)),
        ("Rocket Lab USA".to_string(), String::new())
    );
}

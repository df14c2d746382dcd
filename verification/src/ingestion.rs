//! Market data as a provider reports it, and what is decided about it without
//! talking to the provider: how revenue grew, what is asked for, and what to
//! do after a request.

use crate::text::{decimal, push_decimal};
use vstd::arithmetic::power2::{lemma2_to64, pow2};
use vstd::prelude::*;
use vstd::string::*;

verus! {

/// The answer to a request for one ticker's details.
#[derive(Debug, Clone)]
pub struct TickerDetailsResponse {
    pub results: TickerDetails,
}

/// What the provider knows of one ticker.
#[derive(Debug, Clone)]
pub struct TickerDetails {
    pub ticker: String,
    pub name: String,
    pub market_cap: Option<i64>,
    pub description: Option<String>,
    pub primary_exchange: Option<String>,
    pub locale: Option<String>,
}

/// The answer to a search for tickers.
#[derive(Debug, Clone)]
pub struct SearchTickersResponse {
    pub results: Option<Vec<TickerSearchResult>>,
}

/// One ticker that a search found.
#[derive(Debug, Clone)]
pub struct TickerSearchResult {
    pub ticker: String,
    pub name: String,
    pub market: Option<String>,
    pub locale: Option<String>,
    pub primary_exchange: Option<String>,
    pub active: Option<bool>,
}

/// The answer to a request for financial reports.
#[derive(Debug, Clone)]
pub struct FinancialsResponse {
    pub results: Option<Vec<Financial>>,
}

/// One financial report.
#[derive(Debug, Clone)]
pub struct Financial {
    pub fiscal_year: Option<String>,
    pub fiscal_period: Option<String>,
    pub start_date: Option<String>,
    pub end_date: Option<String>,
    pub financials: Option<FinancialStatements>,
}

/// The statements of one report.
#[derive(Debug, Clone)]
pub struct FinancialStatements {
    pub income_statement: Option<IncomeStatement>,
    pub balance_sheet: Option<BalanceSheet>,
    pub cash_flow_statement: Option<CashFlowStatement>,
}

#[derive(Debug, Clone)]
pub struct IncomeStatement {
    pub revenues: Option<FinancialValue>,
    pub cost_of_revenue: Option<FinancialValue>,
    pub gross_profit: Option<FinancialValue>,
    pub net_income_loss: Option<FinancialValue>,
}

#[derive(Debug, Clone)]
pub struct BalanceSheet {
    pub assets: Option<FinancialValue>,
    pub liabilities: Option<FinancialValue>,
    pub equity: Option<FinancialValue>,
}

#[derive(Debug, Clone)]
pub struct CashFlowStatement {
    pub net_cash_flow_from_operating_activities: Option<FinancialValue>,
    pub net_cash_flow_from_investing_activities: Option<FinancialValue>,
    pub net_cash_flow_from_financing_activities: Option<FinancialValue>,
}

/// One figure of a statement, in whole units of its currency.
#[derive(Debug, Clone)]
pub struct FinancialValue {
    pub value: Option<i64>,
    pub unit: Option<String>,
}

/// The pause before every request, in milliseconds.
pub const RATE_LIMIT_DELAY_MS: u64 = 200;

/// How often a request is tried again.
pub const MAX_RETRIES: u32 = 3;

/// The pause before a request is tried again after a server error or a
/// failure to get an answer, in milliseconds.
pub const RETRY_DELAY_MS: u64 = 2_000;

/// The status with which a server says that it is asked too often.
pub const TOO_MANY_REQUESTS: u16 = 429;

/// One hundred points in millionths of a point, the unit of a growth rate.
pub const GROWTH_UNIT: i128 = 100_000_000;

/// The revenue that a report states, where it states one.
pub open spec fn revenue_of(report: Financial) -> Option<i64> {
    match report.financials {
        Some(statements) => match statements.income_statement {
            Some(income) => match income.revenues {
                Some(figure) => figure.value,
                None => None,
            },
            None => None,
        },
        None => None,
    }
}

/// The size of a number.
pub open spec fn magnitude(x: int) -> int {
    if x < 0 {
        -x
    } else {
        x
    }
}

/// The quotient of two numbers, rounded toward zero.
pub open spec fn quotient_toward_zero(n: int, d: int) -> int {
    if (n >= 0) == (d > 0) {
        magnitude(n) / magnitude(d)
    } else {
        -(magnitude(n) / magnitude(d))
    }
}

/// By how much revenue grew from `previous` to `latest`, in millionths of a
/// point of `previous`, rounded toward zero.
pub open spec fn growth_between(latest: int, previous: int) -> int {
    quotient_toward_zero((latest - previous) * (GROWTH_UNIT as int), previous)
}

/// The growth of revenue that a list of reports shows, newest report first:
/// from the second report to the first. There is none where the list is
/// shorter than two, where one of the two states no revenue, or where the
/// earlier revenue is zero.
pub open spec fn revenue_growth(reports: Seq<Financial>) -> Option<i128> {
    if reports.len() < 2 {
        None
    } else {
        match (revenue_of(reports[0]), revenue_of(reports[1])) {
            (Some(latest), Some(previous)) => if previous == 0 {
                None
            } else {
                Some(growth_between(latest as int, previous as int) as i128)
            },
            _ => None,
        }
    }
}

/// The revenue that a report states, where it states one.
pub fn stated_revenue(report: &Financial) -> (r: Option<i64>)
    ensures
        r == revenue_of(*report),
{
    match &report.financials {
        Some(statements) => match &statements.income_statement {
            Some(income) => match &income.revenues {
                Some(figure) => figure.value,
                None => None,
            },
            None => None,
        },
        None => None,
    }
}

/// The growth of revenue that a list of reports shows, newest report first.
pub fn calculate_revenue_growth(financials: &[Financial]) -> (r: Option<i128>)
    ensures
        r == revenue_growth(financials@),
{
    if financials.len() < 2 {
        return None;
    }
    let latest: i64 = match stated_revenue(&financials[0]) {
        Some(v) => v,
        None => {
            return None;
        },
    };
    let previous: i64 = match stated_revenue(&financials[1]) {
        Some(v) => v,
        None => {
            return None;
        },
    };
    if previous == 0 {
        return None;
    }
    let change: i128 = latest as i128 - previous as i128;
    proof {
        let c = change as int;
        assert(-0x1_0000_0000_0000_0000 * 100_000_000 <= c * 100_000_000 <= 0x1_0000_0000_0000_0000
            * 100_000_000);
    }
    let scaled: i128 = change * GROWTH_UNIT;
    let top: u128 = if scaled < 0 {
        (-scaled) as u128
    } else {
        scaled as u128
    };
    let bottom: u128 = if previous < 0 {
        (-(previous as i128)) as u128
    } else {
        previous as u128
    };
    let size: u128 = top / bottom;
    proof {
        let t = top as int;
        let b = bottom as int;
        assert(0 <= t / b <= t) by (nonlinear_arith)
            requires
                0 <= t,
                1 <= b,
        ;
    }
    if (scaled >= 0) == (previous > 0) {
        Some(size as i128)
    } else {
        Some(-(size as i128))
    }
}

/// The reports of an answer; none where the answer holds none.
pub fn financial_results(response: FinancialsResponse) -> (r: Vec<Financial>)
    ensures
        response.results is Some ==> r == response.results->Some_0,
        response.results is None ==> r@.len() == 0,
{
    match response.results {
        Some(list) => list,
        None => Vec::new(),
    }
}

/// The tickers of an answer; none where the answer holds none.
pub fn search_results(response: SearchTickersResponse) -> (r: Vec<TickerSearchResult>)
    ensures
        response.results is Some ==> r == response.results->Some_0,
        response.results is None ==> r@.len() == 0,
{
    match response.results {
        Some(list) => list,
        None => Vec::new(),
    }
}

/// The market value that an answer about a ticker states; none where the
/// request failed.
pub fn market_cap_from(answer: Option<TickerDetailsResponse>) -> (r: Option<i64>)
    ensures
        r == match answer {
            Some(response) => response.results.market_cap,
            None => None,
        },
{
    match answer {
        Some(response) => response.results.market_cap,
        None => None,
    }
}

/// Tells whether the provider has to be asked about a company: it has, where
/// the name or the description is not given.
pub fn needs_details(name: &Option<String>, description: &Option<String>) -> (r: bool)
    ensures
        r == (*name is None || *description is None),
{
    name.is_none() || description.is_none()
}

/// The name and the description of a company: each as it is given, else as
/// the provider's details state it; a description that nobody states is
/// empty.
pub fn fill_in(name: Option<String>, description: Option<String>, details: TickerDetails) -> (r: (
    String,
    String,
))
    ensures
        r.0 == match name {
            Some(n) => n,
            None => details.name,
        },
        match description {
            Some(d) => r.1 == d,
            None => match details.description {
                Some(d) => r.1 == d,
                None => r.1@.len() == 0,
            },
        },
{
    let chosen_name = match name {
        Some(n) => n,
        None => details.name,
    };
    let chosen_description = match description {
        Some(d) => d,
        None => match details.description {
            Some(d) => d,
            None => String::new(),
        },
    };
    (chosen_name, chosen_description)
}

/// How one request ended.
#[derive(Debug, Clone, Copy, PartialEq, Eq)]
pub enum Attempt {
    /// The server answered with this status.
    Answered { status: u16 },
    /// No answer came.
    Failed,
}

/// What to do after a request.
#[derive(Debug, Clone, Copy, PartialEq, Eq)]
pub enum NextStep {
    /// Take the answer.
    Accept,
    /// Wait this many milliseconds and ask again.
    RetryAfter { wait_ms: u64 },
    /// Give up: the server answered with a status that is no success.
    RejectStatus { status: u16 },
    /// Give up: no answer came.
    RejectFailure,
}

/// A status of success: from 200 to 299.
pub open spec fn is_success(status: u16) -> bool {
    200 <= status < 300
}

/// A status of a server error: from 500 to 599.
pub open spec fn is_server_error(status: u16) -> bool {
    500 <= status < 600
}

/// The pause after being told off for asking too often, in milliseconds: one
/// second, doubled with every retry made so far.
pub open spec fn backoff_ms(retries: u32) -> int {
    1_000 * (pow2(retries as nat) as int)
}

/// What to do after a request that followed `retries` retries.
pub open spec fn step_after(retries: u32, attempt: Attempt) -> NextStep {
    match attempt {
        Attempt::Answered { status } => if is_success(status) {
            NextStep::Accept
        } else if status == TOO_MANY_REQUESTS && retries < MAX_RETRIES {
            NextStep::RetryAfter { wait_ms: backoff_ms(retries) as u64 }
        } else if is_server_error(status) && retries < MAX_RETRIES {
            NextStep::RetryAfter { wait_ms: RETRY_DELAY_MS }
        } else {
            NextStep::RejectStatus { status }
        },
        Attempt::Failed => if retries < MAX_RETRIES {
            NextStep::RetryAfter { wait_ms: RETRY_DELAY_MS }
        } else {
            NextStep::RejectFailure
        },
    }
}

/// Decides what to do after a request that followed `retries` retries.
pub fn next_step(retries: u32, attempt: Attempt) -> (r: NextStep)
    ensures
        r == step_after(retries, attempt),
        r is RetryAfter ==> retries < MAX_RETRIES,
{
    match attempt {
        Attempt::Answered { status } => {
            if status >= 200 && status < 300 {
                NextStep::Accept
            } else if status == TOO_MANY_REQUESTS && retries < MAX_RETRIES {
                let mut wait_ms: u64 = 1_000;
                let mut doubled: u32 = 0;
                proof {
                    lemma2_to64();
                }
                while doubled < retries
                    invariant
                        doubled <= retries < MAX_RETRIES,
                        wait_ms == 1_000 * pow2(doubled as nat),
                        wait_ms <= 4_000,
                    decreases retries - doubled,
                {
                    proof {
                        lemma2_to64();
                    }
                    wait_ms = wait_ms * 2;
                    doubled = doubled + 1;
                }
                NextStep::RetryAfter { wait_ms }
            } else if status >= 500 && status < 600 && retries < MAX_RETRIES {
                NextStep::RetryAfter { wait_ms: RETRY_DELAY_MS }
            } else {
                NextStep::RejectStatus { status }
            }
        },
        Attempt::Failed => {
            if retries < MAX_RETRIES {
                NextStep::RetryAfter { wait_ms: RETRY_DELAY_MS }
            } else {
                NextStep::RejectFailure
            }
        },
    }
}

/// Where the details of a ticker are asked for.
pub fn ticker_details_endpoint(ticker: &str) -> (r: String)
    ensures
        r@ == "/v3/reference/tickers/"@ + ticker@,
{
    let mut out = String::from_str("/v3/reference/tickers/");
    out.append(ticker);
    out
}

/// Where the price bars of a ticker are asked for: `multiplier` spans of
/// `timespan` per bar, between two dates that are written as the provider
/// reads them.
pub fn aggregates_endpoint(
    ticker: &str,
    multiplier: u32,
    timespan: &str,
    from_date: &str,
    to_date: &str,
) -> (r: String)
    ensures
        r@ == "/v2/aggs/ticker/"@ + ticker@ + "/range/"@ + decimal(multiplier as nat) + "/"@
            + timespan@ + "/"@ + from_date@ + "/"@ + to_date@,
{
    let mut out = String::from_str("/v2/aggs/ticker/");
    out.append(ticker);
    out.append("/range/");
    push_decimal(&mut out, multiplier as u64);
    out.append("/");
    out.append(timespan);
    out.append("/");
    out.append(from_date);
    out.append("/");
    out.append(to_date);
    out
}

} // verus!

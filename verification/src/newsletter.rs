//! The quarterly letter to subscribers: its figures as text, its list of
//! holdings, and the letter as a whole.

use crate::calendar::CalendarDate;
use crate::text::{decimal, digit_char, lowercase_of, push_decimal, to_lowercase};
use vstd::prelude::*;
use vstd::string::*;

verus! {

/// One holding of the index, as the letter shows it.
#[derive(Debug, Clone)]
pub struct HoldingData {
    pub ticker: String,
    pub company_name: String,
    /// The share of the index, in parts per billion.
    pub weight: u32,
}

/// What changed at the last rebalance.
#[derive(Debug, Clone)]
pub struct RebalancingChanges {
    pub added: Vec<String>,
    pub removed: Vec<String>,
    pub date: CalendarDate,
}

/// What one letter reports. Returns are in millionths of a point.
#[derive(Debug, Clone)]
pub struct NewsletterData {
    pub index_name: String,
    pub period: String,
    pub quarter: String,
    pub total_return: i64,
    pub ytd_return: i64,
    pub vs_sp500: i64,
    pub top_holdings: Vec<HoldingData>,
    pub rebalancing_changes: RebalancingChanges,
}

/// A subscriber's plan.
#[derive(Debug, Clone, Copy, PartialEq, Eq, Structural)]
pub enum SubscriptionTier {
    Free,
    Paid,
}

/// One subscriber of the letter.
#[derive(Debug, Clone)]
pub struct Subscriber {
    pub email: String,
    pub first_name: Option<String>,
    pub tier: SubscriptionTier,
}

/// Access to the mailing service.
pub struct ConvertKitClient {
    api_key: String,
    api_secret: String,
    base_url: String,
}

/// Where the mailing service is reached.
pub const CONVERTKIT_BASE_URL: &'static str = "https://api.convertkit.com/v3";

impl ConvertKitClient {
    /// The key, the secret and the address that the client holds.
    pub closed spec fn view(&self) -> (Seq<char>, Seq<char>, Seq<char>) {
        (self.api_key@, self.api_secret@, self.base_url@)
    }

    /// A client with the given key and secret, for the service's own address.
    pub fn new(api_key: String, api_secret: String) -> (client: Self)
        ensures
            client@ == (api_key@, api_secret@, CONVERTKIT_BASE_URL@),
    {
        ConvertKitClient { api_key, api_secret, base_url: String::from_str(CONVERTKIT_BASE_URL) }
    }

    /// The key.
    pub fn api_key(&self) -> (r: &str)
        ensures
            r@ == self@.0,
    {
        self.api_key.as_str()
    }

    /// The secret.
    pub fn api_secret(&self) -> (r: &str)
        ensures
            r@ == self@.1,
    {
        self.api_secret.as_str()
    }

    /// The address of the service.
    pub fn base_url(&self) -> (r: &str)
        ensures
            r@ == self@.2,
    {
        self.base_url.as_str()
    }
}

/// A number of `1 / unit` rounded to whole numbers, a half to the even
/// neighbour.
pub open spec fn rounded_half_even(n: int, unit: int) -> int {
    let down = n / unit;
    let rest = n % unit;
    if 2 * rest > unit || (2 * rest == unit && down % 2 == 1) {
        down + 1
    } else {
        down
    }
}

/// A count of tenths as text with one decimal place.
pub open spec fn tenths_text(tenths: nat) -> Seq<char> {
    decimal(tenths / 10) + seq!['.', digit_char((tenths % 10) as int)]
}

/// A number of points, given in millionths, as text with one decimal place;
/// a number below zero has a minus sign before it.
pub open spec fn points_text(value: int) -> Seq<char> {
    if value < 0 {
        seq!['-'] + tenths_text(rounded_half_even(-value, 100_000) as nat)
    } else {
        tenths_text(rounded_half_even(value, 100_000) as nat)
    }
}

/// A share of the index, given in parts per billion, as a number of per cent
/// with one decimal place.
pub open spec fn share_text(weight: int) -> Seq<char> {
    tenths_text(rounded_half_even(weight, 1_000_000) as nat)
}

/// The line of the holding at place `i`, counted from zero: its number, its
/// ticker, its name and its share.
pub open spec fn holding_line(i: int, h: HoldingData) -> Seq<char> {
    decimal((i + 1) as nat) + ". "@ + h.ticker@ + " - "@ + h.company_name@ + " ("@ + share_text(
        h.weight as int,
    ) + "%)"@
}

/// The lines of the first `n` holdings, one below the other.
pub open spec fn holding_lines(holdings: Seq<HoldingData>, n: int) -> Seq<char>
    decreases n,
{
    if n <= 0 {
        Seq::empty()
    } else if n == 1 {
        holding_line(0, holdings[0])
    } else {
        holding_lines(holdings, n - 1) + "\n"@ + holding_line(n - 1, holdings[n - 1])
    }
}

/// The first `n` texts of a list, with a separator between each two.
pub open spec fn joined(items: Seq<String>, separator: Seq<char>, n: int) -> Seq<char>
    decreases n,
{
    if n <= 0 {
        Seq::empty()
    } else if n == 1 {
        items[0]@
    } else {
        joined(items, separator, n - 1) + separator + items[n - 1]@
    }
}

/// The tickers of a list, separated by commas; "None" for an empty list.
pub open spec fn ticker_list(tickers: Seq<String>) -> Seq<char> {
    if tickers.len() == 0 {
        "None"@
    } else {
        joined(tickers, ", "@, tickers.len() as int)
    }
}

/// The whole letter.
pub open spec fn quarterly_report(data: NewsletterData) -> Seq<char> {
    "\n# "@ + data.index_name@ + " - "@ + data.period@
        + " Performance Update\n\n## QUARTERLY PERFORMANCE\n- Return: "@ + points_text(
        data.total_return as int,
    ) + "%\n- YTD: "@ + points_text(data.ytd_return as int) + "%\n- vs S&P 500: "@ + points_text(
        data.vs_sp500 as int,
    ) + "%\n\n## TOP HOLDINGS\n"@ + holding_lines(
        data.top_holdings@,
        data.top_holdings@.len() as int,
    ) + "\n\n## REBALANCING CHANGES\nAdded: "@ + ticker_list(data.rebalancing_changes.added@)
        + "\nRemoved: "@ + ticker_list(data.rebalancing_changes.removed@)
        + "\n\n---\nRead full report at https://futureeconomy.indices/"@ + lowercase_of(
        data.index_name@,
    ) + "\n\nUpgrade to paid for weekly updates!\n"@
}

/// Rounds a number of `1 / unit` to whole numbers, a half to the even
/// neighbour.
pub fn round_half_even(n: u64, unit: u64) -> (r: u64)
    requires
        unit > 0,
        unit <= u64::MAX / 2,
    ensures
        r == rounded_half_even(n as int, unit as int),
{
    let down: u64 = n / unit;
    let rest: u64 = n % unit;
    if 2 * rest > unit || (2 * rest == unit && down % 2 == 1) {
        proof {
            let ni = n as int;
            let ui = unit as int;
            assert(ni / ui < ni || ni / ui == 0) by (nonlinear_arith)
                requires
                    ni >= 0,
                    ui >= 1,
                    2 * (ni % ui) >= ui,
            ;
        }
        down + 1
    } else {
        down
    }
}

/// Writes a count of tenths with one decimal place at the end of a text.
pub fn push_tenths(out: &mut String, tenths: u64)
    ensures
        final(out)@ == old(out)@ + tenths_text(tenths as nat),
{
    push_decimal(out, tenths / 10);
    out.append(".");
    push_decimal(out, tenths % 10);
    proof {
        reveal_strlit(".");
        assert("."@ =~= seq!['.']);
        assert(decimal((tenths % 10) as nat) =~= seq![digit_char((tenths % 10) as int)]);
        assert(final(out)@ =~= old(out)@ + tenths_text(tenths as nat));
    }
}

/// Writes a number of points, given in millionths, with one decimal place at
/// the end of a text.
pub fn push_points(out: &mut String, value: i64)
    ensures
        final(out)@ == old(out)@ + points_text(value as int),
{
    if value < 0 {
        out.append("-");
        let size: u64 = if value == i64::MIN {
            0x8000_0000_0000_0000
        } else {
            (-value) as u64
        };
        push_tenths(out, round_half_even(size, 100_000));
        proof {
            reveal_strlit("-");
            assert("-"@ =~= seq!['-']);
            assert(final(out)@ =~= old(out)@ + points_text(value as int));
        }
    } else {
        push_tenths(out, round_half_even(value as u64, 100_000));
    }
}

/// Writes the tickers of a list, separated by commas, at the end of a text;
/// "None" for an empty list.
pub fn push_ticker_list(out: &mut String, tickers: &Vec<String>)
    ensures
        final(out)@ == old(out)@ + ticker_list(tickers@),
{
    if tickers.len() == 0 {
        out.append("None");
        return ;
    }
    let n: usize = tickers.len();
    out.append(tickers[0].as_str());
    let mut i: usize = 1;
    while i < n
        invariant
            1 <= i <= n,
            n == tickers.len(),
            out@ == old(out)@ + joined(tickers@, ", "@, i as int),
        decreases n - i,
    {
        out.append(", ");
        out.append(tickers[i].as_str());
        assert(out@ =~= old(out)@ + joined(tickers@, ", "@, i as int + 1));
        i = i + 1;
    }
}

/// Writes the lines of a list of holdings at the end of a text.
pub fn push_holdings(out: &mut String, holdings: &[HoldingData])
    ensures
        final(out)@ == old(out)@ + holding_lines(holdings@, holdings@.len() as int),
{
    let n: usize = holdings.len();
    let mut i: usize = 0;
    assert(out@ =~= old(out)@ + holding_lines(holdings@, 0));
    while i < n
        invariant
            i <= n,
            n == holdings.len(),
            out@ == old(out)@ + holding_lines(holdings@, i as int),
        decreases n - i,
    {
        if i > 0 {
            out.append("\n");
        }
        let ghost start = out@;
        let h: &HoldingData = &holdings[i];
        push_decimal(out, (i + 1) as u64);
        out.append(". ");
        out.append(h.ticker.as_str());
        out.append(" - ");
        out.append(h.company_name.as_str());
        out.append(" (");
        push_tenths(out, round_half_even(h.weight as u64, 1_000_000));
        out.append("%)");
        proof {
            assert(out@ =~= start + holding_line(i as int, holdings@[i as int]));
            assert(out@ =~= old(out)@ + holding_lines(holdings@, i as int + 1));
        }
        i = i + 1;
    }
}

/// The lines of a list of holdings, one below the other.
pub fn format_holdings(holdings: &[HoldingData]) -> (r: String)
    ensures
        r@ == holding_lines(holdings@, holdings@.len() as int),
{
    let mut out = String::new();
    push_holdings(&mut out, holdings);
    assert(out@ =~= holding_lines(holdings@, holdings@.len() as int));
    out
}

/// The letter that reports a quarter.
pub fn generate_quarterly_report(data: &NewsletterData) -> (r: String)
    ensures
        r@ == quarterly_report(*data),
{
    let mut out = String::from_str("\n# ");
    out.append(data.index_name.as_str());
    out.append(" - ");
    out.append(data.period.as_str());
    out.append(" Performance Update\n\n## QUARTERLY PERFORMANCE\n- Return: ");
    push_points(&mut out, data.total_return);
    out.append("%\n- YTD: ");
    push_points(&mut out, data.ytd_return);
    out.append("%\n- vs S&P 500: ");
    push_points(&mut out, data.vs_sp500);
    out.append("%\n\n## TOP HOLDINGS\n");
    push_holdings(&mut out, data.top_holdings.as_slice());
    out.append("\n\n## REBALANCING CHANGES\nAdded: ");
    push_ticker_list(&mut out, &data.rebalancing_changes.added);
    out.append("\nRemoved: ");
    push_ticker_list(&mut out, &data.rebalancing_changes.removed);
    out.append("\n\n---\nRead full report at https://futureeconomy.indices/");
    let lower = to_lowercase(data.index_name.as_str());
    out.append(lower.as_str());
    out.append("\n\nUpgrade to paid for weekly updates!\n");
    out
}

} // verus!

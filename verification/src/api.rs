//! What the service answers about its indices, as far as it is decided
//! without the database: which indices there are, how they are described, and
//! which answer or error a finding leads to.

use crate::calendar::{date_or_fallback, date_read_from, resolve_date, CalendarDate};
use crate::text::{to_uppercase, uppercase_of};
use vstd::prelude::*;
use vstd::string::*;

verus! {

/// The body of an error answer.
#[derive(Debug, Clone)]
pub struct ErrorResponse {
    pub error: String,
    pub message: String,
}

/// An error answer: the status and the body.
#[derive(Debug, Clone)]
pub struct ApiError {
    pub status: u16,
    pub body: ErrorResponse,
}

/// The period that a request for performance data names.
#[derive(Debug, Clone)]
pub struct PerformanceQuery {
    pub from: Option<String>,
    pub to: Option<String>,
}

/// The indices that the service knows.
#[derive(Debug, Clone, Copy, PartialEq, Eq, Structural)]
pub enum IndexName {
    SpaceInfra,
    AiInfra,
}

/// What the database holds of an index.
#[derive(Debug, Clone)]
pub struct IndexFigures {
    pub index_name: String,
    pub num_constituents: i32,
    /// In whole currency units.
    pub total_market_cap: u64,
    pub last_rebalance: Option<CalendarDate>,
}

/// What the service tells of an index.
#[derive(Debug, Clone)]
pub struct IndexInfo {
    pub name: String,
    pub display_name: String,
    pub description: String,
    pub num_constituents: i32,
    /// In whole currency units.
    pub total_market_cap: u64,
    pub last_rebalance: Option<CalendarDate>,
    pub next_rebalance: Option<CalendarDate>,
    pub inception_date: CalendarDate,
}

/// One constituent of an index as the database holds it, with the company's
/// details.
#[derive(Debug, Clone)]
pub struct CompositionWithCompany {
    pub ticker: String,
    pub company_name: String,
    /// The share of the index, in parts per billion.
    pub weight: u32,
    pub market_cap: Option<i64>,
    /// The share of revenue from the index's theme, in parts per billion.
    pub space_score: Option<u32>,
    pub segments: Option<Vec<String>>,
}

/// One constituent of an index as the service shows it.
#[derive(Debug, Clone)]
pub struct ConstituentInfo {
    pub ticker: String,
    pub company_name: String,
    /// The share of the index, in parts per billion.
    pub weight: u32,
    pub market_cap: Option<i64>,
    /// The share of revenue from the index's theme, in millionths of a point.
    pub space_revenue_pct: Option<u32>,
    pub segments: Option<Vec<String>>,
}

/// What the service tells of the composition of an index.
#[derive(Debug, Clone)]
pub struct IndexCompositionResponse {
    pub index_name: String,
    pub as_of_date: CalendarDate,
    pub constituents: Vec<ConstituentInfo>,
    /// The sum of the weights, in parts per billion.
    pub total_weight: u64,
    pub num_companies: i32,
}

/// The status of an answer that found nothing.
pub const STATUS_NOT_FOUND: u16 = 404;

/// The status of an answer to a request that failed inside the service.
pub const STATUS_INTERNAL_ERROR: u16 = 500;

pub const SPACE_INFRA: &'static str = "SPACEINFRA";

pub const AI_INFRA: &'static str = "AIINFRA";

pub const SPACE_INFRA_DISPLAY_NAME: &'static str = "Space Infrastructure Index";

pub const AI_INFRA_DISPLAY_NAME: &'static str = "AI Infrastructure Index";

pub const SPACE_INFRA_DESCRIPTION: &'static str =
    "Tracks companies in the space infrastructure industry including launch, satellites, ground systems, and components.";

pub const AI_INFRA_DESCRIPTION: &'static str =
    "Tracks companies building the infrastructure for artificial intelligence.";

/// The first day of the period that is reported where a request names none.
pub open spec fn default_period_start() -> CalendarDate {
    CalendarDate { year: 2024, month: 1, day: 1 }
}

/// The last day of the period that is reported where a request names none,
/// and the day as of which a composition is reported where no rebalance is
/// on record.
pub open spec fn default_period_end() -> CalendarDate {
    CalendarDate { year: 2024, month: 12, day: 31 }
}

/// The index that is called by a name in upper case.
pub open spec fn index_called(upper: Seq<char>) -> Option<IndexName> {
    if upper == SPACE_INFRA@ {
        Some(IndexName::SpaceInfra)
    } else if upper == AI_INFRA@ {
        Some(IndexName::AiInfra)
    } else {
        None
    }
}

/// The error with which a name in error is answered.
pub open spec fn is_error(e: ApiError, status: u16, error: Seq<char>, message: Seq<char>) -> bool {
    &&& e.status == status
    &&& e.body.error@ == error
    &&& e.body.message@ == message
}

/// The text that says that a thing with a name is not there.
pub open spec fn index_message(name: Seq<char>, rest: Seq<char>) -> Seq<char> {
    "Index '"@ + name + rest
}

impl IndexName {
    /// The name under which the index is stored.
    pub open spec fn stored_name(self) -> Seq<char> {
        match self {
            IndexName::SpaceInfra => SPACE_INFRA@,
            IndexName::AiInfra => AI_INFRA@,
        }
    }

    /// The name under which the index is shown.
    pub open spec fn shown_name(self) -> Seq<char> {
        match self {
            IndexName::SpaceInfra => SPACE_INFRA_DISPLAY_NAME@,
            IndexName::AiInfra => AI_INFRA_DISPLAY_NAME@,
        }
    }

    /// What is said of the index.
    pub open spec fn shown_description(self) -> Seq<char> {
        match self {
            IndexName::SpaceInfra => SPACE_INFRA_DESCRIPTION@,
            IndexName::AiInfra => AI_INFRA_DESCRIPTION@,
        }
    }

    /// The day on which the index began.
    pub open spec fn began(self) -> CalendarDate {
        match self {
            IndexName::SpaceInfra => CalendarDate { year: 2024, month: 1, day: 1 },
            IndexName::AiInfra => CalendarDate { year: 2025, month: 1, day: 1 },
        }
    }

    /// The day of the next rebalance.
    pub open spec fn rebalances_next(self) -> CalendarDate {
        CalendarDate { year: 2025, month: 3, day: 31 }
    }

    /// The name under which the index is stored.
    pub fn name(self) -> (r: &'static str)
        ensures
            r@ == self.stored_name(),
    {
        match self {
            IndexName::SpaceInfra => SPACE_INFRA,
            IndexName::AiInfra => AI_INFRA,
        }
    }

    /// The name under which the index is shown.
    pub fn display_name(self) -> (r: &'static str)
        ensures
            r@ == self.shown_name(),
    {
        match self {
            IndexName::SpaceInfra => SPACE_INFRA_DISPLAY_NAME,
            IndexName::AiInfra => AI_INFRA_DISPLAY_NAME,
        }
    }

    /// What is said of the index.
    pub fn description(self) -> (r: &'static str)
        ensures
            r@ == self.shown_description(),
    {
        match self {
            IndexName::SpaceInfra => SPACE_INFRA_DESCRIPTION,
            IndexName::AiInfra => AI_INFRA_DESCRIPTION,
        }
    }

    /// The day on which the index began.
    pub fn inception_date(self) -> (r: CalendarDate)
        ensures
            r == self.began(),
    {
        match self {
            IndexName::SpaceInfra => CalendarDate { year: 2024, month: 1, day: 1 },
            IndexName::AiInfra => CalendarDate { year: 2025, month: 1, day: 1 },
        }
    }

    /// The day of the next rebalance.
    pub fn next_rebalance(self) -> (r: CalendarDate)
        ensures
            r == self.rebalances_next(),
    {
        CalendarDate { year: 2025, month: 3, day: 31 }
    }
}

/// All indices, in the order in which they are listed.
pub fn all_indices() -> (r: Vec<IndexName>)
    ensures
        r@ == seq![IndexName::SpaceInfra, IndexName::AiInfra],
{
    let mut r: Vec<IndexName> = Vec::new();
    r.push(IndexName::SpaceInfra);
    r.push(IndexName::AiInfra);
    r
}

/// The index that is called by a name in upper case.
pub fn known_index(upper: &str) -> (r: Option<IndexName>)
    ensures
        r == index_called(upper@),
{
    let name = String::from_str(upper);
    if name == String::from_str(SPACE_INFRA) {
        Some(IndexName::SpaceInfra)
    } else if name == String::from_str(AI_INFRA) {
        Some(IndexName::AiInfra)
    } else {
        None
    }
}

/// An error answer.
pub fn error_answer(status: u16, error: &str, message: String) -> (e: ApiError)
    ensures
        is_error(e, status, error@, message@),
{
    ApiError { status, body: ErrorResponse { error: String::from_str(error), message } }
}

/// The answer that something about an index was not found: the index's name
/// as it was asked for, in quotes, and what is missing.
pub fn not_found(name: &str, rest: &str) -> (e: ApiError)
    ensures
        is_error(e, STATUS_NOT_FOUND, "NOT_FOUND"@, index_message(name@, rest@)),
{
    let mut message = String::from_str("Index '");
    message.append(name);
    message.append(rest);
    error_answer(STATUS_NOT_FOUND, "NOT_FOUND", message)
}

/// The answer that no performance data was found for an index: the index's
/// name as it was asked for, in quotes.
pub fn no_performance_data(name: &str) -> (e: ApiError)
    ensures
        is_error(
            e,
            STATUS_NOT_FOUND,
            "NOT_FOUND"@,
            "No performance data found for index '"@ + name@ + "'"@,
        ),
{
    let mut message = String::from_str("No performance data found for index '");
    message.append(name);
    message.append("'");
    error_answer(STATUS_NOT_FOUND, "NOT_FOUND", message)
}

/// The answer to a request that failed inside the service.
pub fn internal_error(message: &str) -> (e: ApiError)
    ensures
        is_error(e, STATUS_INTERNAL_ERROR, "INTERNAL_SERVER_ERROR"@, message@),
{
    error_answer(STATUS_INTERNAL_ERROR, "INTERNAL_SERVER_ERROR", String::from_str(message))
}

/// The index that a request names, whatever the case of its letters; the
/// answer that there is no such index where the name is none of theirs.
pub fn find_index(name: &str) -> (r: Result<IndexName, ApiError>)
    ensures
        match r {
            Ok(index) => index_called(uppercase_of(name@)) == Some(index),
            Err(e) => index_called(uppercase_of(name@)) is None && is_error(
                e,
                STATUS_NOT_FOUND,
                "NOT_FOUND"@,
                index_message(name@, "' not found"@),
            ),
        },
{
    let upper = to_uppercase(name);
    match known_index(upper.as_str()) {
        Some(index) => Ok(index),
        None => Err(not_found(name, "' not found")),
    }
}

/// `info` tells of `index` what the database holds of it.
pub open spec fn tells_of(info: IndexInfo, index: IndexName, figures: IndexFigures) -> bool {
    &&& info.name == figures.index_name
    &&& info.display_name@ == index.shown_name()
    &&& info.description@ == index.shown_description()
    &&& info.num_constituents == figures.num_constituents
    &&& info.total_market_cap == figures.total_market_cap
    &&& info.last_rebalance == figures.last_rebalance
    &&& info.next_rebalance == Some(index.rebalances_next())
    &&& info.inception_date == index.began()
}

/// `info` tells of `index` that it holds nothing yet.
pub open spec fn tells_of_nothing(info: IndexInfo, index: IndexName) -> bool {
    &&& info.name@ == index.stored_name()
    &&& info.display_name@ == index.shown_name()
    &&& info.description@ == index.shown_description()
    &&& info.num_constituents == 0
    &&& info.total_market_cap == 0
    &&& info.last_rebalance is None
    &&& info.next_rebalance == Some(index.rebalances_next())
    &&& info.inception_date == index.began()
}

/// What the service tells of an index of which the database holds figures.
pub fn describe(index: IndexName, figures: IndexFigures) -> (info: IndexInfo)
    ensures
        tells_of(info, index, figures),
{
    IndexInfo {
        name: figures.index_name,
        display_name: String::from_str(index.display_name()),
        description: String::from_str(index.description()),
        num_constituents: figures.num_constituents,
        total_market_cap: figures.total_market_cap,
        last_rebalance: figures.last_rebalance,
        next_rebalance: Some(index.next_rebalance()),
        inception_date: index.inception_date(),
    }
}

/// What the service tells of an index of which the database holds nothing:
/// an index that is planned is shown empty, any other is not shown.
pub fn placeholder(index: IndexName) -> (r: Option<IndexInfo>)
    ensures
        index == IndexName::AiInfra ==> r is Some && tells_of_nothing(r->Some_0, index),
        index != IndexName::AiInfra ==> r is None,
{
    match index {
        IndexName::AiInfra => Some(
            IndexInfo {
                name: String::from_str(index.name()),
                display_name: String::from_str(index.display_name()),
                description: String::from_str(index.description()),
                num_constituents: 0,
                total_market_cap: 0,
                last_rebalance: None,
                next_rebalance: Some(index.next_rebalance()),
                inception_date: index.inception_date(),
            },
        ),
        IndexName::SpaceInfra => None,
    }
}

/// The entry of an index in the list of all indices, given what the database
/// holds of it; an index that is not shown has none.
pub fn listed_index(index: IndexName, figures: Option<IndexFigures>) -> (r: Option<IndexInfo>)
    ensures
        match figures {
            Some(f) => r is Some && tells_of(r->Some_0, index, f),
            None => if index == IndexName::AiInfra {
                r is Some && tells_of_nothing(r->Some_0, index)
            } else {
                r is None
            },
        },
{
    match figures {
        Some(f) => Some(describe(index, f)),
        None => placeholder(index),
    }
}

/// The answer to a request for one index, given the name as it was asked for
/// and what the database holds of the index.
pub fn index_details(index: IndexName, name: &str, figures: Option<IndexFigures>) -> (r: Result<
    IndexInfo,
    ApiError,
>)
    ensures
        match figures {
            Some(f) => r is Ok && tells_of(r->Ok_0, index, f),
            None => if index == IndexName::AiInfra {
                r is Ok && tells_of_nothing(r->Ok_0, index)
            } else {
                r is Err && is_error(
                    r->Err_0,
                    STATUS_NOT_FOUND,
                    "NOT_FOUND"@,
                    index_message(name@, "' has no data"@),
                )
            },
        },
{
    match listed_index(index, figures) {
        Some(info) => Ok(info),
        None => Err(not_found(name, "' has no data")),
    }
}

/// The period that a request for performance data asks for: each end as the
/// request names it, or the default where it names none that can be read.
pub fn performance_period(query: &PerformanceQuery) -> (r: (CalendarDate, CalendarDate))
    ensures
        r.0 == match query.from {
            Some(t) => date_or_fallback(date_read_from(t@), default_period_start()),
            None => default_period_start(),
        },
        r.1 == match query.to {
            Some(t) => date_or_fallback(date_read_from(t@), default_period_end()),
            None => default_period_end(),
        },
{
    let from = resolve_date(&query.from, CalendarDate { year: 2024, month: 1, day: 1 });
    let to = resolve_date(&query.to, CalendarDate { year: 2024, month: 12, day: 31 });
    (from, to)
}

/// The day as of which a composition is reported: the latest rebalance on
/// record, which comes first in the list, or the default where none is.
pub fn as_of_date(rebalance_dates: &Vec<CalendarDate>) -> (r: CalendarDate)
    ensures
        r == if rebalance_dates.len() > 0 {
            rebalance_dates[0]
        } else {
            default_period_end()
        },
{
    if rebalance_dates.len() > 0 {
        rebalance_dates[0]
    } else {
        CalendarDate { year: 2024, month: 12, day: 31 }
    }
}

/// A share in parts per billion, as millionths of a point, rounded down.
pub open spec fn score_in_points(score: Option<u32>) -> Option<u32> {
    match score {
        Some(s) => Some((s / 10) as u32),
        None => None,
    }
}

/// `info` shows the constituent `row`.
pub open spec fn shows(info: ConstituentInfo, row: CompositionWithCompany) -> bool {
    &&& info.ticker == row.ticker
    &&& info.company_name == row.company_name
    &&& info.weight == row.weight
    &&& info.market_cap == row.market_cap
    &&& info.space_revenue_pct == score_in_points(row.space_score)
    &&& info.segments == row.segments
}

/// The sum of the weights of the first `n` constituents of a list.
pub open spec fn weight_of_first(rows: Seq<CompositionWithCompany>, n: int) -> int
    decreases n,
{
    if n <= 0 {
        0
    } else {
        weight_of_first(rows, n - 1) + rows[n - 1].weight
    }
}

/// `answer` tells of the composition of `index` that `rows` make.
pub open spec fn tells_composition(
    answer: IndexCompositionResponse,
    index: IndexName,
    rows: Seq<CompositionWithCompany>,
    rebalance_dates: Seq<CalendarDate>,
) -> bool {
    &&& answer.index_name@ == index.stored_name()
    &&& answer.as_of_date == if rebalance_dates.len() > 0 {
        rebalance_dates[0]
    } else {
        default_period_end()
    }
    &&& answer.constituents.len() == rows.len()
    &&& forall|i: int| 0 <= i < rows.len() ==> shows(#[trigger] answer.constituents[i], rows[i])
    &&& answer.total_weight == weight_of_first(rows, rows.len() as int)
    &&& answer.num_companies == rows.len()
}

/// The sum of the first weights is at most their number times the largest
/// weight there can be.
proof fn lemma_weight_of_first_bound(rows: Seq<CompositionWithCompany>, n: int)
    requires
        0 <= n,
    ensures
        0 <= weight_of_first(rows, n) <= n * 0xffff_ffff,
    decreases n,
{
    if n > 0 {
        lemma_weight_of_first_bound(rows, n - 1);
    }
}

/// A list in the opposite order.
fn reversed(rows: Vec<CompositionWithCompany>) -> (r: Vec<CompositionWithCompany>)
    ensures
        r@ == rows@.reverse(),
{
    let mut from = rows;
    let mut r: Vec<CompositionWithCompany> = Vec::new();
    let ghost all = from@;
    while from.len() > 0
        invariant
            from@ == all.take(from.len() as int),
            r.len() + from.len() == all.len(),
            forall|j: int| 0 <= j < r.len() ==> r[j] == all[all.len() - 1 - j],
        decreases from.len(),
    {
        match from.pop() {
            Some(row) => r.push(row),
            None => {},
        }
    }
    assert(r@ =~= all.reverse());
    r
}

/// What the service shows of one constituent.
pub fn constituent_info(row: CompositionWithCompany) -> (info: ConstituentInfo)
    ensures
        shows(info, row),
{
    let space_revenue_pct: Option<u32> = match row.space_score {
        Some(s) => Some(s / 10),
        None => None,
    };
    ConstituentInfo {
        ticker: row.ticker,
        company_name: row.company_name,
        weight: row.weight,
        market_cap: row.market_cap,
        space_revenue_pct,
        segments: row.segments,
    }
}

/// The answer to a request for the composition of an index, given the name
/// as it was asked for, the constituents that the database holds, heaviest
/// first, and the days of its rebalances, latest first. An index without
/// constituents has no composition to tell of.
pub fn composition_answer(
    index: IndexName,
    name: &str,
    rows: Vec<CompositionWithCompany>,
    rebalance_dates: &Vec<CalendarDate>,
) -> (r: Result<IndexCompositionResponse, ApiError>)
    requires
        rows.len() <= i32::MAX,
    ensures
        rows.len() == 0 ==> r is Err && is_error(
            r->Err_0,
            STATUS_NOT_FOUND,
            "NOT_FOUND"@,
            index_message(name@, "' has no composition data"@),
        ),
        rows.len() > 0 ==> r is Ok && tells_composition(r->Ok_0, index, rows@, rebalance_dates@),
{
    let n: usize = rows.len();
    if n == 0 {
        return Err(not_found(name, "' has no composition data"));
    }
    let ghost all = rows@;
    let mut rest = reversed(rows);
    let mut constituents: Vec<ConstituentInfo> = Vec::new();
    let mut total_weight: u64 = 0;
    while rest.len() > 0
        invariant
            n == all.len(),
            n <= i32::MAX,
            constituents.len() + rest.len() == n,
            rest@ == all.reverse().take(rest.len() as int),
            forall|j: int|
                0 <= j < constituents.len() ==> shows(#[trigger] constituents[j], all[j]),
            total_weight == weight_of_first(all, constituents.len() as int),
        decreases rest.len(),
    {
        proof {
            lemma_weight_of_first_bound(all, constituents.len() as int + 1);
        }
        match rest.pop() {
            Some(row) => {
                assert(row == all[constituents.len() as int]);
                total_weight = total_weight + row.weight as u64;
                constituents.push(constituent_info(row));
            },
            None => {},
        }
    }
    Ok(
        IndexCompositionResponse {
            index_name: String::from_str(index.name()),
            as_of_date: as_of_date(rebalance_dates),
            constituents,
            total_weight,
            num_companies: n as i32,
        },
    )
}

} // verus!

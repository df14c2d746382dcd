//! Classification of companies by an outside model: what it is asked, where
//! its answer holds the data, and what is recorded of each outcome.

use crate::text::{
    chars_of, contains_text, has_text, lines, lines_of, split, split_on, text_of, texts_of, trim,
    trimmed,
};
use vstd::prelude::*;
use vstd::string::*;

verus! {

/// A company that is to be classified.
#[derive(Debug, Clone)]
pub struct CompanyInfo {
    pub ticker: String,
    pub name: String,
    pub description: String,
    pub context: Option<String>,
}

/// What the model said of one company.
#[derive(Debug, Clone)]
pub struct ClassificationData {
    pub is_space_related: bool,
    /// In millionths of a point.
    pub space_revenue_pct: u32,
    pub confidence: String,
    pub segments: Vec<String>,
    pub reasoning: String,
}

/// The record that is kept of one classification.
#[derive(Debug, Clone)]
pub struct Classification {
    pub ticker: String,
    pub company_name: String,
    pub is_space_related: bool,
    /// In millionths of a point.
    pub space_revenue_pct: u32,
    pub confidence: String,
    pub segments: Vec<String>,
    pub reasoning: String,
    /// The model's answer as it came.
    pub raw_response: String,
}

/// How the data in the model's answer read.
#[derive(Debug, Clone)]
pub enum Decoded {
    /// The answer holds the data.
    Data(ClassificationData),
    /// What looked like the data could not be read, for this reason.
    Malformed(String),
    /// The answer holds nothing that looks like the data.
    Absent,
}

/// The start of the question, up to the ticker.
pub const PROMPT_INTRODUCTION: &'static str = r#"You are an expert analyst specializing in the space infrastructure industry. Your task is to analyze companies and determine their involvement in space infrastructure.

Company Information:
- Ticker: "#;

/// What stands between the ticker and the name.
pub const PROMPT_NAME_LABEL: &'static str = "\n- Name: ";

/// What stands between the name and the description.
pub const PROMPT_DESCRIPTION_LABEL: &'static str = "\n- Description: ";

/// What stands before further context, where there is any.
pub const PROMPT_CONTEXT_LABEL: &'static str = "\nAdditional Context:\n";

/// The task, which ends the question.
pub const PROMPT_TASK: &'static str = r#"

Space Infrastructure Segments:
1. **Launch**: Launch vehicles, launch services, spaceports
2. **Satellites**: Satellite manufacturing, satellite operators, constellation services
3. **Ground**: Ground stations, tracking systems, antenna systems, data centers
4. **Components**: Propulsion systems, sensors, materials, avionics, spacecraft components

Your Analysis Task:
Analyze this company and provide your assessment in the following JSON format:

{
  "is_space_related": true/false,
  "space_revenue_pct": <number 0-100>,
  "confidence": "high/medium/low",
  "segments": [<list of applicable segments from above>],
  "reasoning": "<brief explanation of your assessment>"
}

Guidelines:
- is_space_related: true if ANY meaningful portion of business involves space infrastructure
- space_revenue_pct: Your estimate of what % of total revenue comes from space activities
  - 100% = Pure-play space company (e.g., Rocket Lab, AST SpaceMobile)
  - 50-99% = Primarily space with some other business
  - 10-49% = Significant space division within larger company
  - 1-9% = Minor space involvement
  - 0% = No space involvement
- confidence:
  - "high" = Clear space focus, good information available
  - "medium" = Some space involvement but uncertain extent
  - "low" = Limited information or ambiguous business model
- segments: List ALL applicable segments (can be multiple)
- reasoning: 2-3 sentences explaining your assessment and space_revenue_pct estimate

Important: Be conservative with space_revenue_pct estimates. Only assign high percentages (>50%) for clear pure-play or space-focused companies.

Return ONLY the JSON object, no other text.
"#;

/// The confidence that is recorded where nothing was learned.
pub const LOW_CONFIDENCE: &'static str = "low";

/// The part of the question that holds further context.
pub open spec fn context_part(additional_context: Option<&str>) -> Seq<char> {
    match additional_context {
        Some(context) => PROMPT_CONTEXT_LABEL@ + context@ + "\n"@,
        None => Seq::empty(),
    }
}

/// The question that is put to the model about one company.
pub open spec fn classification_prompt(
    ticker: &str,
    company_name: &str,
    description: &str,
    additional_context: Option<&str>,
) -> Seq<char> {
    PROMPT_INTRODUCTION@ + ticker@ + PROMPT_NAME_LABEL@ + company_name@
        + PROMPT_DESCRIPTION_LABEL@ + description@ + "\n"@ + context_part(additional_context)
        + PROMPT_TASK@
}

/// Writes the question that is put to the model about one company.
pub fn build_classification_prompt(
    ticker: &str,
    company_name: &str,
    description: &str,
    additional_context: Option<&str>,
) -> (prompt: String)
    ensures
        prompt@ == classification_prompt(ticker, company_name, description, additional_context),
{
    let mut prompt = String::from_str(PROMPT_INTRODUCTION);
    prompt.append(ticker);
    prompt.append(PROMPT_NAME_LABEL);
    prompt.append(company_name);
    prompt.append(PROMPT_DESCRIPTION_LABEL);
    prompt.append(description);
    prompt.append("\n");
    let ghost before = prompt@;
    match additional_context {
        Some(context) => {
            prompt.append(PROMPT_CONTEXT_LABEL);
            prompt.append(context);
            prompt.append("\n");
            assert(prompt@ =~= before + context_part(additional_context));
        },
        None => {
            assert(prompt@ =~= before + context_part(additional_context));
        },
    }
    prompt.append(PROMPT_TASK);
    prompt
}

/// The byte that opens the data in an answer.
pub const OPENING_BRACE: u8 = 0x7b;

/// The byte that closes the data in an answer.
pub const CLOSING_BRACE: u8 = 0x7d;

/// `i` is the first place of the byte `b` in `bytes`.
pub open spec fn is_first(bytes: Seq<u8>, b: u8, i: int) -> bool {
    &&& 0 <= i < bytes.len()
    &&& bytes[i] == b
    &&& forall|j: int| 0 <= j < i ==> bytes[j] != b
}

/// `i` is the last place of the byte `b` in `bytes`.
pub open spec fn is_last(bytes: Seq<u8>, b: u8, i: int) -> bool {
    &&& 0 <= i < bytes.len()
    &&& bytes[i] == b
    &&& forall|j: int| i < j < bytes.len() ==> bytes[j] != b
}

/// The data in an answer reaches from `start` to `end`, both included: from
/// the first opening brace to the last closing brace, which comes later.
pub open spec fn spans_json(bytes: Seq<u8>, start: int, end: int) -> bool {
    &&& is_first(bytes, OPENING_BRACE, start)
    &&& is_last(bytes, CLOSING_BRACE, end)
    &&& start < end
}

/// Finds the data in an answer: the places of the first opening brace and of
/// the last closing brace, where the one comes before the other.
pub fn json_span(bytes: &[u8]) -> (r: Option<(usize, usize)>)
    ensures
        match r {
            Some((start, end)) => spans_json(bytes@, start as int, end as int),
            None => forall|start: int, end: int| !spans_json(bytes@, start, end),
        },
{
    let n: usize = bytes.len();
    let mut start: usize = 0;
    while start < n && bytes[start] != OPENING_BRACE
        invariant
            start <= n,
            n == bytes.len(),
            forall|j: int| 0 <= j < start ==> bytes[j] != OPENING_BRACE,
        decreases n - start,
    {
        start = start + 1;
    }
    if start == n {
        assert forall|s: int, e: int| !spans_json(bytes@, s, e) by {
            if is_first(bytes@, OPENING_BRACE, s) {
                assert(bytes[s] == OPENING_BRACE);
            }
        }
        return None;
    }
    let mut end: usize = n;
    while end > 0 && bytes[end - 1] != CLOSING_BRACE
        invariant
            end <= n,
            n == bytes.len(),
            forall|j: int| end <= j < n ==> bytes[j] != CLOSING_BRACE,
        decreases end,
    {
        end = end - 1;
    }
    if end == 0 || start >= end - 1 {
        assert forall|s: int, e: int| !spans_json(bytes@, s, e) by {
            if spans_json(bytes@, s, e) {
                assert(s == start) by {
                    if s < start {
                        assert(bytes[s] != OPENING_BRACE);
                    } else if start < s {
                        assert(bytes[start as int] != OPENING_BRACE);
                    }
                }
                if end == 0 {
                    assert(bytes[e] != CLOSING_BRACE);
                } else {
                    if e < end - 1 {
                        assert(bytes[end - 1] != CLOSING_BRACE);
                    } else if e > end - 1 {
                        assert(bytes[e] != CLOSING_BRACE);
                    }
                }
            }
        }
        return None;
    }
    Some((start, end - 1))
}

/// The record of an answer that held the data.
pub open spec fn recorded_data(
    ticker: &str,
    company_name: &str,
    response_text: &str,
    data: ClassificationData,
    r: Classification,
) -> bool {
    &&& r.ticker@ == ticker@
    &&& r.company_name@ == company_name@
    &&& r.is_space_related == data.is_space_related
    &&& r.space_revenue_pct == data.space_revenue_pct
    &&& r.confidence == data.confidence
    &&& r.segments == data.segments
    &&& r.reasoning == data.reasoning
    &&& r.raw_response@ == response_text@
}

/// The record of an outcome from which nothing was learned: the company is
/// taken not to belong to the theme, with low confidence, for the reason
/// given.
pub open spec fn recorded_nothing(
    ticker: Seq<char>,
    company_name: Seq<char>,
    raw_response: Seq<char>,
    reasoning: Seq<char>,
    r: Classification,
) -> bool {
    &&& r.ticker@ == ticker
    &&& r.company_name@ == company_name
    &&& !r.is_space_related
    &&& r.space_revenue_pct == 0
    &&& r.confidence@ == LOW_CONFIDENCE@
    &&& r.segments@.len() == 0
    &&& r.reasoning@ == reasoning
    &&& r.raw_response@ == raw_response
}

/// The record of an outcome from which nothing was learned.
fn nothing_learned(ticker: &str, company_name: &str, raw_response: &str, reasoning: String) -> (r:
    Classification)
    ensures
        recorded_nothing(ticker@, company_name@, raw_response@, reasoning@, r),
{
    Classification {
        ticker: String::from_str(ticker),
        company_name: String::from_str(company_name),
        is_space_related: false,
        space_revenue_pct: 0,
        confidence: String::from_str(LOW_CONFIDENCE),
        segments: Vec::new(),
        reasoning,
        raw_response: String::from_str(raw_response),
    }
}

/// The record of the model's answer about one company, given how the data in
/// it read.
pub fn parse_response(
    ticker: &str,
    company_name: &str,
    response_text: &str,
    decoded: Decoded,
) -> (r: Classification)
    ensures
        match decoded {
            Decoded::Data(data) => recorded_data(ticker, company_name, response_text, data, r),
            Decoded::Malformed(error) => recorded_nothing(
                ticker@,
                company_name@,
                response_text@,
                "Error parsing AI response: "@ + error@,
                r,
            ),
            Decoded::Absent => recorded_nothing(
                ticker@,
                company_name@,
                response_text@,
                "No JSON found in AI response"@,
                r,
            ),
        },
{
    match decoded {
        Decoded::Data(data) => Classification {
            ticker: String::from_str(ticker),
            company_name: String::from_str(company_name),
            is_space_related: data.is_space_related,
            space_revenue_pct: data.space_revenue_pct,
            confidence: data.confidence,
            segments: data.segments,
            reasoning: data.reasoning,
            raw_response: String::from_str(response_text),
        },
        Decoded::Malformed(error) => {
            let mut reasoning = String::from_str("Error parsing AI response: ");
            reasoning.append(error.as_str());
            nothing_learned(ticker, company_name, response_text, reasoning)
        },
        Decoded::Absent => nothing_learned(
            ticker,
            company_name,
            response_text,
            String::from_str("No JSON found in AI response"),
        ),
    }
}

/// The record of a company about which the model could not be asked, for the
/// reason given.
pub fn failed_classification(company: &CompanyInfo, error: &str) -> (r: Classification)
    ensures
        recorded_nothing(
            company.ticker@,
            company.name@,
            Seq::empty(),
            "Error: "@ + error@,
            r,
        ),
{
    let mut reasoning = String::from_str("Error: ");
    reasoning.append(error);
    proof {
        reveal_strlit("");
        assert(""@ =~= Seq::<char>::empty());
    }
    nothing_learned(company.ticker.as_str(), company.name.as_str(), "", reasoning)
}

/// A line that names the columns of a list of companies.
pub open spec fn is_heading(line: Seq<char>) -> bool {
    has_text(line, "ticker"@) || has_text(line, "symbol"@)
}

/// Line `i` of a list names a company: it has two fields or more between
/// commas, and it is not a heading at the top of the list.
pub open spec fn names_a_company(lines: Seq<Seq<char>>, i: int) -> bool {
    !(i == 0 && is_heading(lines[i])) && split_on(lines[i], ',').len() >= 2
}

/// How many of the first `n` lines of a list name a company.
pub open spec fn companies_before(lines: Seq<Seq<char>>, n: int) -> nat
    decreases n,
{
    if n <= 0 {
        0
    } else if names_a_company(lines, n - 1) {
        companies_before(lines, n - 1) + 1
    } else {
        companies_before(lines, n - 1)
    }
}

/// `company` is what a line names: ticker, name and description are its first
/// three fields without the white space around them; a line of two fields
/// gives no description.
pub open spec fn is_company_of(line: Seq<char>, company: CompanyInfo) -> bool {
    let fields = split_on(line, ',');
    &&& company.ticker@ == trimmed(fields[0])
    &&& company.name@ == trimmed(fields[1])
    &&& company.description@ == if fields.len() > 2 {
        trimmed(fields[2])
    } else {
        Seq::empty()
    }
    &&& company.context is None
}

/// `companies` are the companies that the lines of a list name, in the order
/// of the lines.
pub open spec fn is_company_list(lines: Seq<Seq<char>>, companies: Seq<CompanyInfo>) -> bool {
    &&& companies.len() == companies_before(lines, lines.len() as int)
    &&& forall|i: int|
        0 <= i < lines.len() && #[trigger] names_a_company(lines, i) ==> is_company_of(
            lines[i],
            companies[companies_before(lines, i) as int],
        )
}

/// No more lines name a company than there are lines, and a line that names
/// one has its place in the list.
pub proof fn lemma_companies_before(lines: Seq<Seq<char>>, n: int, i: int)
    requires
        0 <= i < n <= lines.len(),
        names_a_company(lines, i),
    ensures
        companies_before(lines, i) < companies_before(lines, n) <= n,
    decreases n,
{
    if i < n - 1 {
        lemma_companies_before(lines, n - 1, i);
    } else {
        lemma_companies_bound(lines, i);
    }
}

/// No more lines name a company than there are lines.
pub proof fn lemma_companies_bound(lines: Seq<Seq<char>>, n: int)
    requires
        0 <= n,
    ensures
        companies_before(lines, n) <= n,
    decreases n,
{
    if n > 0 {
        lemma_companies_bound(lines, n - 1);
    }
}

/// Tells whether a line names the columns of a list.
pub fn heads_a_list(line: &Vec<char>) -> (r: bool)
    ensures
        r == is_heading(line@),
{
    let ticker = chars_of("ticker");
    let symbol = chars_of("symbol");
    contains_text(line, &ticker) || contains_text(line, &symbol)
}

/// The company that a line of two fields or more names.
pub fn company_from_fields(fields: &Vec<Vec<char>>) -> (company: CompanyInfo)
    requires
        fields.len() >= 2,
    ensures
        company.ticker@ == trimmed(fields[0]@),
        company.name@ == trimmed(fields[1]@),
        company.description@ == if fields.len() > 2 {
            trimmed(fields[2]@)
        } else {
            Seq::empty()
        },
        company.context is None,
{
    let ticker = text_of(&trim(&fields[0]));
    let name = text_of(&trim(&fields[1]));
    let description = if fields.len() > 2 {
        text_of(&trim(&fields[2]))
    } else {
        String::new()
    };
    CompanyInfo { ticker, name, description, context: None }
}

/// The companies that a list names: one on each line, as ticker, name and an
/// optional description between commas. A first line that mentions "ticker"
/// or "symbol" is a heading; a line with fewer than two fields is passed
/// over.
pub fn read_company_list(contents: &str) -> (companies: Vec<CompanyInfo>)
    ensures
        is_company_list(lines_of(contents@), companies@),
{
    let chars = chars_of(contents);
    let all = lines(&chars);
    let ghost spec_lines = lines_of(contents@);
    let n: usize = all.len();
    assert(spec_lines.len() == n) by {
        assert(texts_of(all@).len() == spec_lines.len());
    }
    let mut companies: Vec<CompanyInfo> = Vec::new();
    let mut i: usize = 0;
    while i < n
        invariant
            i <= n,
            n == all.len(),
            spec_lines.len() == n,
            texts_of(all@) == spec_lines,
            companies.len() == companies_before(spec_lines, i as int),
            forall|j: int|
                0 <= j < i && #[trigger] names_a_company(spec_lines, j) ==> is_company_of(
                    spec_lines[j],
                    companies[companies_before(spec_lines, j) as int],
                ),
        decreases n - i,
    {
        let line: &Vec<char> = &all[i];
        assert(line@ == texts_of(all@)[i as int]);
        let ghost before = companies@;
        let heading: bool = i == 0 && heads_a_list(line);
        if !heading {
            let fields = split(line, ',');
            assert(fields.len() == split_on(line@, ',').len()) by {
                assert(texts_of(fields@).len() == split_on(line@, ',').len());
            }
            if fields.len() >= 2 {
                assert(fields[0]@ == texts_of(fields@)[0]);
                assert(fields[1]@ == texts_of(fields@)[1]);
                if fields.len() > 2 {
                    assert(fields[2]@ == texts_of(fields@)[2]);
                }
                companies.push(company_from_fields(&fields));
            }
        }
        proof {
            assert forall|j: int|
                0 <= j < i + 1 && #[trigger] names_a_company(spec_lines, j) implies is_company_of(
                spec_lines[j],
                companies[companies_before(spec_lines, j) as int],
            ) by {
                if j < i {
                    lemma_companies_before(spec_lines, i as int, j);
                    assert(companies[companies_before(spec_lines, j) as int]
                        == before[companies_before(spec_lines, j) as int]);
                }
            }
        }
        i = i + 1;
    }
    companies
}

/// Line `i` of a list is passed over: it has fewer than two fields, and it is
/// not a heading at the top of the list.
pub open spec fn is_passed_over(lines: Seq<Seq<char>>, i: int) -> bool {
    !(i == 0 && is_heading(lines[i])) && split_on(lines[i], ',').len() < 2
}

/// `numbers` are the numbers, counted from one, of the lines of a list that
/// are passed over, in rising order.
pub open spec fn numbers_passed_over(lines: Seq<Seq<char>>, numbers: Seq<usize>) -> bool {
    &&& forall|k: int|
        0 <= k < numbers.len() ==> 1 <= #[trigger] numbers[k] <= lines.len() && is_passed_over(
            lines,
            numbers[k] - 1,
        )
    &&& forall|a: int, b: int|
        0 <= a < b < numbers.len() ==> #[trigger] numbers[a] < #[trigger] numbers[b]
    &&& forall|i: int|
        0 <= i < lines.len() && #[trigger] is_passed_over(lines, i) ==> numbers.contains(
            (i + 1) as usize,
        )
}

/// The numbers, counted from one, of the lines of a list that are passed
/// over for having fewer than two fields.
pub fn passed_over_lines(contents: &str) -> (numbers: Vec<usize>)
    ensures
        numbers_passed_over(lines_of(contents@), numbers@),
{
    let chars = chars_of(contents);
    let all = lines(&chars);
    let ghost spec_lines = lines_of(contents@);
    let n: usize = all.len();
    assert(spec_lines.len() == n) by {
        assert(texts_of(all@).len() == spec_lines.len());
    }
    let mut numbers: Vec<usize> = Vec::new();
    let mut i: usize = 0;
    while i < n
        invariant
            i <= n,
            n == all.len(),
            spec_lines.len() == n,
            texts_of(all@) == spec_lines,
            forall|k: int|
                0 <= k < numbers.len() ==> 1 <= #[trigger] numbers[k] <= i && is_passed_over(
                    spec_lines,
                    numbers[k] - 1,
                ),
            forall|a: int, b: int|
                0 <= a < b < numbers.len() ==> #[trigger] numbers[a] < #[trigger] numbers[b],
            forall|j: int|
                0 <= j < i && #[trigger] is_passed_over(spec_lines, j) ==> numbers@.contains(
                    (j + 1) as usize,
                ),
        decreases n - i,
    {
        let line: &Vec<char> = &all[i];
        assert(line@ == texts_of(all@)[i as int]);
        let ghost before = numbers@;
        let heading: bool = i == 0 && heads_a_list(line);
        if !heading {
            let fields = split(line, ',');
            assert(fields.len() == split_on(line@, ',').len()) by {
                assert(texts_of(fields@).len() == split_on(line@, ',').len());
            }
            if fields.len() < 2 {
                numbers.push(i + 1);
                assert(numbers@[numbers.len() - 1] == i + 1);
            }
        }
        proof {
            assert forall|j: int|
                0 <= j < i + 1 && #[trigger] is_passed_over(
                    spec_lines,
                    j,
                ) implies numbers@.contains((j + 1) as usize) by {
                if j < i {
                    assert(before.contains((j + 1) as usize));
                    let k = choose|k: int| 0 <= k < before.len() && before[k] == (j + 1) as usize;
                    assert(numbers@[k] == (j + 1) as usize);
                }
            }
        }
        i = i + 1;
    }
    numbers
}

} // verus!

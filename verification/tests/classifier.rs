use future_indices::classifier::{
    build_classification_prompt, failed_classification, json_span, parse_response,
    passed_over_lines, read_company_list, Classification,
    ClassificationData, CompanyInfo, Decoded,
};

/// A number of points, in millionths of a point.
fn pts(x: f64) -> u32 {
    (x * 1e6).round() as u32
}

/// Reads the data out of the model's answer.
fn decode(text: &str) -> Decoded {
    let (start, end) = match json_span(text.as_bytes()) {
        Some(span) => span,
        None => return Decoded::Absent,
    };
    let value: serde_json::Value = match serde_json::from_str(&text[start..=end]) {
        Ok(v) => v,
        Err(e) => return Decoded::Malformed(e.to_string()),
    };
    let data = (|| {
        Some(ClassificationData {
            is_space_related: value.get("is_space_related")?.as_bool()?,
            space_revenue_pct: pts(value.get("space_revenue_pct")?.as_f64()?),
            confidence: value.get("confidence")?.as_str()?.to_string(),
            segments: value
                .get("segments")?
                .as_array()?
                .iter()
                .map(|s| s.as_str().map(|t| t.to_string()))
                .collect::<Option<Vec<String>>>()?,
            reasoning: value.get("reasoning")?.as_str()?.to_string(),
        })
    })();
    match data {
        Some(d) => Decoded::Data(d),
        None => Decoded::Malformed("missing field".to_string()),
    }
}

fn triples(companies: &[CompanyInfo]) -> Vec<(&str, &str, &str)> {
    companies
        .iter()
        .map(|c| {
            assert!(c.context.is_none());
            (c.ticker.as_str(), c.name.as_str(), c.description.as_str())
        })
        .collect()
}

#[test]
fn test_prompt_building() {
    let prompt = build_classification_prompt("RKLB", "Rocket Lab", "Space launch provider", None);

    assert!(prompt.contains("RKLB"));
    assert!(prompt.contains("Rocket Lab"));
    assert!(prompt.contains("Space launch provider"));
    assert!(prompt.contains("Space Infrastructure Segments"));
}

#[test]
fn test_json_parsing() {
    let response = r#"{
            "is_space_related": true,
            "space_revenue_pct": 90.0,
            "confidence": "high",
            "segments": ["Launch", "Satellites"],
            "reasoning": "Rocket Lab is a pure-play space company."
        }"#;

    let result = parse_response("RKLB", "Rocket Lab", response, decode(response));

    assert!(result.is_space_related);
    assert_eq!(result.space_revenue_pct, pts(90.0));
    assert_eq!(result.confidence, "high");
    assert_eq!(result.segments.len(), 2);
}

#[test]
fn prompt_in_full() {
    let prompt = build_classification_prompt("T", "N", "D", None);
    assert!(prompt.starts_with(
        "You are an expert analyst specializing in the space infrastructure industry."
    ));
    assert!(prompt.contains("\n\nCompany Information:\n- Ticker: T\n- Name: N\n- Description: D\n\n\nSpace Infrastructure Segments:\n1. **Launch**"));
    assert!(prompt.contains("  \"space_revenue_pct\": <number 0-100>,\n"));
    assert!(prompt.ends_with("Return ONLY the JSON object, no other text.\n"));
    assert!(!prompt.contains("Additional Context"));
    assert_eq!(prompt.len(), 1883);
}

#[test]
fn prompt_with_context() {
    let without = build_classification_prompt("T", "N", "D", None);
    let with = build_classification_prompt("T", "N", "D", Some("Files 10-K yearly"));
    assert!(with.contains("- Description: D\n\nAdditional Context:\nFiles 10-K yearly\n\n\nSpace Infrastructure Segments:"));
    assert_eq!(with.len(), without.len() + "\nAdditional Context:\nFiles 10-K yearly\n".len());
}

#[test]
fn span_of_the_data() {
    assert_eq!(json_span(b"{}"), Some((0, 1)));
    assert_eq!(json_span(b"Here you go: {\"a\": {\"b\": 1}} Thanks!"), Some((13, 27)));
    assert_eq!(json_span(b"{{}}}"), Some((0, 4)));
    assert_eq!(json_span("é{é}é".as_bytes()), Some((2, 5)));
}

#[test]
fn no_span_without_a_pair_of_braces_in_order() {
    assert_eq!(json_span(b""), None);
    assert_eq!(json_span(b"no data"), None);
    assert_eq!(json_span(b"{ never closed"), None);
    assert_eq!(json_span(b"never opened }"), None);
    assert_eq!(json_span(b"} wrong way {"), None);
    assert_eq!(json_span(b"}"), None);
    assert_eq!(json_span(b"{"), None);
}

#[test]
fn answer_with_text_around_the_data() {
    let response = "Sure. {\"is_space_related\": false, \"space_revenue_pct\": 2.5, \"confidence\": \"medium\", \"segments\": [], \"reasoning\": \"Mostly cars.\"} Anything else?";
    let result = parse_response("F", "Ford", response, decode(response));
    assert!(!result.is_space_related);
    assert_eq!(result.ticker, "F");
    assert_eq!(result.company_name, "Ford");
    assert_eq!(result.space_revenue_pct, 2_500_000);
    assert_eq!(result.confidence, "medium");
    assert!(result.segments.is_empty());
    assert_eq!(result.reasoning, "Mostly cars.");
    assert_eq!(result.raw_response, response);
}

fn assert_nothing_learned(result: &Classification, reasoning: &str, raw: &str) {
    assert!(!result.is_space_related);
    assert_eq!(result.space_revenue_pct, 0);
    assert_eq!(result.confidence, "low");
    assert!(result.segments.is_empty());
    assert_eq!(result.reasoning, reasoning);
    assert_eq!(result.raw_response, raw);
}

#[test]
fn answer_without_data() {
    let response = "I cannot help with that.";
    let result = parse_response("RKLB", "Rocket Lab", response, decode(response));
    assert_eq!(result.ticker, "RKLB");
    assert_eq!(result.company_name, "Rocket Lab");
    assert_nothing_learned(&result, "No JSON found in AI response", response);
}

#[test]
fn answer_with_unreadable_data() {
    let response = "{ not json }";
    let decoded = decode(response);
    let error = match &decoded {
        Decoded::Malformed(e) => e.clone(),
        _ => panic!("the data should not be readable"),
    };
    let result = parse_response("RKLB", "Rocket Lab", response, decoded);
    assert_nothing_learned(&result, &format!("Error parsing AI response: {}", error), response);
}

#[test]
fn company_that_could_not_be_asked_about() {
    let company = CompanyInfo {
        ticker: "LUNR".to_string(),
        name: "Intuitive Machines".to_string(),
        description: "Lunar landers".to_string(),
        context: None,
    };
    let result = failed_classification(&company, "timed out");
    assert_eq!(result.ticker, "LUNR");
    assert_eq!(result.company_name, "Intuitive Machines");
    assert_nothing_learned(&result, "Error: timed out", "");
}

#[test]
fn company_list_with_heading() {
    let list = "ticker,name,description\nRKLB, Rocket Lab , Launch provider\nASTS,AST SpaceMobile\n";
    let companies = read_company_list(list);
    assert_eq!(
        triples(&companies),
        vec![("RKLB", "Rocket Lab", "Launch provider"), ("ASTS", "AST SpaceMobile", "")]
    );
}

#[test]
fn company_list_without_heading() {
    let companies = read_company_list("RKLB,Rocket Lab\r\nASTS,AST SpaceMobile,Satellites,more");
    assert_eq!(
        triples(&companies),
        vec![("RKLB", "Rocket Lab", ""), ("ASTS", "AST SpaceMobile", "Satellites")]
    );
}

#[test]
fn company_list_passes_over_short_lines() {
    let companies = read_company_list("Symbol;Name\nonlyone\n\n , \nIRDM,Iridium\n\n");
    assert_eq!(triples(&companies), vec![("", "", ""), ("IRDM", "Iridium", "")]);
}

#[test]
fn company_list_heading_counts_on_the_first_line_only() {
    let companies = read_company_list("A,B\nticker,symbol\n");
    assert_eq!(triples(&companies), vec![("A", "B", ""), ("ticker", "symbol", "")]);
    let companies = read_company_list("my symbol,x\nA,B");
    assert_eq!(triples(&companies), vec![("A", "B", "")]);
    // The heading is told by small letters.
    let companies = read_company_list("Ticker,Name\nA,B");
    assert_eq!(triples(&companies), vec![("Ticker", "Name", ""), ("A", "B", "")]);
}

#[test]
fn company_list_trims_white_space_of_every_kind() {
    let companies = read_company_list("\u{3000}RKLB\t,\u{a0} Rocket\u{2003}Lab \r,\u{85}x\u{2028}\n");
    assert_eq!(triples(&companies), vec![("RKLB", "Rocket\u{2003}Lab", "x")]);
}

#[test]
fn company_list_keeps_a_return_that_no_line_feed_follows() {
    // At the end of the text the return belongs to the last field, where it is white space.
    let companies = read_company_list("A,B\rC\nD,E\r");
    assert_eq!(triples(&companies), vec![("A", "B\rC", ""), ("D", "E", "")]);
    assert!(read_company_list("").is_empty());
    assert!(read_company_list("\n\n").is_empty());
}

#[test]
fn company_list_agrees_with_the_standard_library() {
    let texts = [
        "",
        "\n",
        "a,b",
        "a,b\n",
        "a,b\r\n",
        "a,b\r",
        "a,b\n\r\nc,d\r\r\ne , f,g\n,",
        " x , y , z \n\nticker,q",
        "symbol,1\nsymbol,2\n3",
        "\u{1680}p\u{205f},\u{202f}q\u{2029}",
    ];
    for text in texts {
        let mut expected: Vec<(String, String, String)> = Vec::new();
        for (i, line) in text.lines().enumerate() {
            if i == 0 && (line.contains("ticker") || line.contains("symbol")) {
                continue;
            }
            let parts: Vec<&str> = line.split(',').collect();
            if parts.len() < 2 {
                continue;
            }
            expected.push((
                parts[0].trim().to_string(),
                parts[1].trim().to_string(),
                if parts.len() > 2 { parts[2].trim().to_string() } else { String::new() },
            ));
        }
        let got: Vec<(String, String, String)> = read_company_list(text)
            .into_iter()
            .map(|c| (c.ticker, c.name, c.description))
            .collect();
        assert_eq!(got, expected, "{:?}", text);
    }
}

#[test]
fn lines_that_are_passed_over_are_numbered_from_one() {
    assert_eq!(passed_over_lines("Symbol;Name\nonlyone\n\n , \nIRDM,Iridium\n\n"), vec![1, 2, 3, 6]);
    assert_eq!(passed_over_lines("ticker\nA,B\nC"), vec![3]);
    assert_eq!(passed_over_lines("A\nticker\n"), vec![1, 2]);
    assert_eq!(passed_over_lines("A,B\nC,D"), Vec::<usize>::new());
    assert_eq!(passed_over_lines(""), Vec::<usize>::new());
}

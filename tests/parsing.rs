use polymarket_scraper::json::{Json, JsonNumber};
use polymarket_scraper::market::{parse_markets_from_json, parse_single_market, ParseError};

fn s(text: &str) -> Json {
    Json::Str(text.to_string())
}

fn float(text: &str) -> Json {
    Json::Number(JsonNumber::Float(text.to_string()))
}

fn unsigned(n: u64) -> Json {
    Json::Number(JsonNumber::PosInt(n))
}

fn obj(members: Vec<(&str, Json)>) -> Json {
    Json::Object(members.into_iter().map(|(k, v)| (k.to_string(), v)).collect())
}

fn as_f64(text: &Option<String>) -> Option<f64> {
    text.as_deref().map(|t| t.parse::<f64>().unwrap())
}

#[test]
fn test_parse_single_market() {
    let json = obj(vec![
        ("id", s("test-market-123")),
        ("title", s("Test Market")),
        ("description", s("A test market")),
        ("currentPrice", float("0.65")),
        ("volume", float("1000.0")),
        ("endDate", s("2024-12-31T23:59:59Z")),
    ]);

    let market = parse_single_market(&json).unwrap();
    assert_eq!(market.id, "test-market-123");
    assert_eq!(market.title, "Test Market");
    assert_eq!(market.description, Some("A test market".to_string()));
    assert_eq!(as_f64(&market.current_price), Some(0.65));
    assert_eq!(as_f64(&market.volume), Some(1000.0));
    assert_eq!(market.end_date, Some("2024-12-31T23:59:59Z".to_string()));
}

#[test]
fn test_parse_market_alternative_fields() {
    let json = obj(vec![
        ("slug", s("alternative-id")),
        ("question", s("Alternative Title")),
        ("price", float("0.75")),
        ("volumeNum", float("500.0")),
    ]);

    let market = parse_single_market(&json).unwrap();
    assert_eq!(market.id, "alternative-id");
    assert_eq!(market.title, "Alternative Title");
    assert_eq!(as_f64(&market.current_price), Some(0.75));
    assert_eq!(as_f64(&market.volume), Some(500.0));
}

#[test]
fn test_parse_market_missing_id() {
    let json = obj(vec![("title", s("No ID Market"))]);

    assert!(parse_single_market(&json).is_err());
}

#[test]
fn test_parse_markets_from_json() {
    let json = Json::Array(vec![
        obj(vec![("id", unsigned(1)), ("question", s("Market 1")), ("market_slug", s("market-1"))]),
        obj(vec![("id", unsigned(2)), ("question", s("Market 2")), ("market_slug", s("market-2"))]),
    ]);

    let markets = parse_markets_from_json(&json);
    assert_eq!(markets.len(), 2);
    assert_eq!(markets[0].id, "1");
    assert_eq!(markets[0].title, "Market 1");
    assert_eq!(markets[1].id, "2");
    assert_eq!(markets[1].title, "Market 2");
}

#[test]
fn example_two_records_from_bare_array() {
    let json = Json::Array(vec![
        obj(vec![("id", unsigned(1)), ("question", s("Market 1")), ("market_slug", s("market-1"))]),
        obj(vec![("id", unsigned(2)), ("question", s("Market 2"))]),
    ]);
    let markets = parse_markets_from_json(&json);
    let ids: Vec<&str> = markets.iter().map(|m| m.id.as_str()).collect();
    let titles: Vec<&str> = markets.iter().map(|m| m.title.as_str()).collect();
    assert_eq!(ids, vec!["1", "2"]);
    assert_eq!(titles, vec!["Market 1", "Market 2"]);
}

#[test]
fn example_alternate_identity_record() {
    let json = obj(vec![
        ("slug", s("alt-id")),
        ("question", s("Alt Title")),
        ("price", float("0.75")),
        ("volumeNum", float("500.0")),
    ]);
    let m = parse_single_market(&json).unwrap();
    assert_eq!(m.id, "alt-id");
    assert_eq!(m.title, "Alt Title");
    assert_eq!(as_f64(&m.current_price), Some(0.75));
    assert_eq!(as_f64(&m.volume), Some(500.0));
    assert_eq!(m.description, None);
    assert_eq!(m.end_date, None);
    assert_eq!(m.discovered_at, None);
    assert_eq!(m.updated_at, None);
}

#[test]
fn identity_candidates_in_order() {
    let m = parse_single_market(&obj(vec![("market_slug", s("ms")), ("marketId", s("mid"))])).unwrap();
    assert_eq!(m.id, "mid");
    let m = parse_single_market(&obj(vec![("market_slug", s("ms"))])).unwrap();
    assert_eq!(m.id, "ms");
    let m = parse_single_market(&obj(vec![("id", Json::Bool(true)), ("slug", s("sl"))])).unwrap();
    assert_eq!(m.id, "sl");
    let m = parse_single_market(&obj(vec![("id", float("1.5")), ("slug", s("sl"))])).unwrap();
    assert_eq!(m.id, "sl");
}

#[test]
fn numeric_identity_is_stringified() {
    let m = parse_single_market(&obj(vec![("id", unsigned(18446744073709551615))])).unwrap();
    assert_eq!(m.id, "18446744073709551615");
    let m = parse_single_market(&obj(vec![("id", unsigned(0))])).unwrap();
    assert_eq!(m.id, "0");
    let m = parse_single_market(&obj(vec![("id", Json::Number(JsonNumber::NegInt(-42)))])).unwrap();
    assert_eq!(m.id, "-42");
    let m =
        parse_single_market(&obj(vec![("id", Json::Number(JsonNumber::NegInt(i64::MIN)))])).unwrap();
    assert_eq!(m.id, "-9223372036854775808");
}

#[test]
fn missing_identity_is_an_error() {
    assert_eq!(parse_single_market(&obj(vec![])).err(), Some(ParseError::MissingId));
    assert_eq!(parse_single_market(&obj(vec![("slug", unsigned(3))])).err(), Some(ParseError::MissingId));
    assert_eq!(parse_single_market(&s("id")).err(), Some(ParseError::MissingId));
}

#[test]
fn title_uses_first_present_member() {
    let m = parse_single_market(&obj(vec![("id", unsigned(1)), ("name", s("N"))])).unwrap();
    assert_eq!(m.title, "N");
    let m = parse_single_market(&obj(vec![("id", unsigned(1)), ("question", unsigned(5)), ("title", s("T"))]))
        .unwrap();
    assert_eq!(m.title, "T");
    let m = parse_single_market(&obj(vec![("id", unsigned(1)), ("question", Json::Bool(true)), ("title", s("T"))]))
        .unwrap();
    assert_eq!(m.title, "T");
    let m = parse_single_market(&obj(vec![("id", unsigned(1)), ("question", Json::Null), ("name", unsigned(3))]))
        .unwrap();
    assert_eq!(m.title, "Untitled Market");
    let m = parse_single_market(&obj(vec![("id", unsigned(1))])).unwrap();
    assert_eq!(m.title, "Untitled Market");
}

#[test]
fn description_and_end_date_candidates() {
    let m = parse_single_market(&obj(vec![
        ("id", unsigned(1)),
        ("descriptionText", s("D")),
        ("endTime", s("later")),
        ("end_date", s("soon")),
    ]))
    .unwrap();
    assert_eq!(m.description, Some("D".to_string()));
    assert_eq!(m.end_date, Some("soon".to_string()));
    let m = parse_single_market(&obj(vec![("id", unsigned(1)), ("end_date_iso", s("iso")), ("endDate", s("x"))]))
        .unwrap();
    assert_eq!(m.end_date, Some("iso".to_string()));
}

#[test]
fn non_string_candidates_are_skipped() {
    let m = parse_single_market(&obj(vec![
        ("id", unsigned(1)),
        ("description", Json::Bool(true)),
        ("descriptionText", s("D")),
        ("end_date_iso", unsigned(20240101)),
        ("endDate", Json::Null),
        ("endTime", s("2025-01-01")),
    ]))
    .unwrap();
    assert_eq!(m.description, Some("D".to_string()));
    assert_eq!(m.end_date, Some("2025-01-01".to_string()));
}

#[test]
fn price_prefers_first_token() {
    let tokens = Json::Array(vec![obj(vec![("price", float("0.3"))]), obj(vec![("price", float("0.7"))])]);
    let m = parse_single_market(&obj(vec![("id", unsigned(1)), ("tokens", tokens), ("price", float("0.9"))]))
        .unwrap();
    assert_eq!(as_f64(&m.current_price), Some(0.3));
    let m = parse_single_market(&obj(vec![
        ("id", unsigned(1)),
        ("tokens", Json::Array(vec![])),
        ("currentPrice", s("0.1")),
        ("probability", unsigned(1)),
    ]))
    .unwrap();
    assert_eq!(as_f64(&m.current_price), Some(1.0));
    let m = parse_single_market(&obj(vec![("id", unsigned(1))])).unwrap();
    assert_eq!(m.current_price, None);
}

#[test]
fn volume_accepts_numeric_strings() {
    let m = parse_single_market(&obj(vec![("id", unsigned(1)), ("volume", s("1234.5"))])).unwrap();
    assert_eq!(as_f64(&m.volume), Some(1234.5));
    let m = parse_single_market(&obj(vec![("id", unsigned(1)), ("totalVolume", s("abc"))])).unwrap();
    assert_eq!(m.volume, None);
    let m = parse_single_market(&obj(vec![("id", unsigned(1)), ("volume", s("1e3")), ("totalVolume", unsigned(7))]))
        .unwrap();
    assert_eq!(as_f64(&m.volume), Some(1000.0));
    let m = parse_single_market(&obj(vec![("id", unsigned(1)), ("volumeNum", s(" 5")), ("volume", unsigned(7))]))
        .unwrap();
    assert_eq!(m.volume, Some("7".to_string()));
    let m = parse_single_market(&obj(vec![("id", unsigned(1)), ("volumeNum", Json::Bool(true)), ("volume", unsigned(7))]))
        .unwrap();
    assert_eq!(as_f64(&m.volume), Some(7.0));
    let m = parse_single_market(&obj(vec![("id", unsigned(1)), ("volumeNum", s("x")), ("totalVolume", s("y"))]))
        .unwrap();
    assert_eq!(m.volume, None);
}

#[test]
fn envelope_shapes() {
    let items = || Json::Array(vec![obj(vec![("id", unsigned(7))])]);
    let wrapped = obj(vec![("markets", items())]);
    assert_eq!(parse_markets_from_json(&wrapped)[0].id, "7");
    let legacy = obj(vec![("pageProps", obj(vec![("markets", items())]))]);
    assert_eq!(parse_markets_from_json(&legacy)[0].id, "7");
    let odd = obj(vec![("markets", s("none")), ("pageProps", obj(vec![("markets", items())]))]);
    assert_eq!(parse_markets_from_json(&odd).len(), 1);
    assert_eq!(parse_markets_from_json(&obj(vec![("data", items())])).len(), 0);
    assert_eq!(parse_markets_from_json(&Json::Null).len(), 0);
}

#[test]
fn batch_skips_records_without_identity() {
    let json = Json::Array(vec![
        obj(vec![("id", unsigned(1))]),
        obj(vec![("title", s("no id"))]),
        Json::Null,
        obj(vec![("slug", s("b"))]),
    ]);
    let markets = parse_markets_from_json(&json);
    assert_eq!(markets.len(), 2);
    assert_eq!(markets[0].id, "1");
    assert_eq!(markets[1].id, "b");
}

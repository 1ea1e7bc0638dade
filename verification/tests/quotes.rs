use ticker_quotes::matcher::parse_prices;
use ticker_quotes::matcher::parse_prices_strict;
use ticker_quotes::quote::Quote;
use ticker_quotes::quote::QuoteError;

fn num(v: &Vec<u8>) -> f64 {
    std::str::from_utf8(v).unwrap().parse().unwrap()
}

fn req(tickers: &[&str]) -> Vec<Vec<u8>> {
    tickers.iter().map(|t| t.as_bytes().to_vec()).collect()
}

fn sym_of(q: &Quote) -> &str {
    std::str::from_utf8(&q.symbol).unwrap()
}

#[test]
fn test_parse_prices() {
    let response = r#"[{"symbol":"GOOG","price":2830.42,"change":10.5},{"symbol":"AAPL","price":142.42,"change":-1.2}]"#;
    let tickers = req(&["AAPL", "GOOG"]);
    let quotes = parse_prices(response.as_bytes(), &tickers).unwrap();
    assert_eq!(quotes.len(), 2);

    let aapl_quote = quotes.iter().find(|q| sym_of(q) == "AAPL").unwrap();
    assert_eq!(num(&aapl_quote.price), 142.42);
    assert_eq!(num(aapl_quote.change.as_ref().unwrap()), -1.2);

    let goog_quote = quotes.iter().find(|q| sym_of(q) == "GOOG").unwrap();
    assert_eq!(num(&goog_quote.price), 2830.42);
    assert_eq!(num(goog_quote.change.as_ref().unwrap()), 10.5);
}

#[test]
fn test_parse_prices_not_found() {
    let response = r#"[{"symbol":"GOOG","price":2830.42}]"#;
    let tickers = req(&["AAPL"]);
    assert!(parse_prices_strict(response.as_bytes(), &tickers).is_err());
}

#[test]
fn strict_both_found_in_request_order() {
    let response = r#"[{"symbol":"GOOG","price":2830.42},{"symbol":"AAPL","price":142.42}]"#;
    let tickers = req(&["AAPL", "GOOG"]);
    let quotes = parse_prices_strict(response.as_bytes(), &tickers).unwrap();
    assert_eq!(quotes.len(), 2);
    assert_eq!(sym_of(&quotes[0]), "AAPL");
    assert_eq!(num(&quotes[0].price), 142.42);
    assert_eq!(sym_of(&quotes[1]), "GOOG");
    assert_eq!(num(&quotes[1].price), 2830.42);
}

#[test]
fn strict_missing_ticker_is_named() {
    let response = r#"[{"symbol":"GOOG","price":2830.42}]"#;
    let tickers = req(&["AAPL"]);
    match parse_prices_strict(response.as_bytes(), &tickers) {
        Err(QuoteError::MissingTicker(t)) => assert_eq!(t, b"AAPL".to_vec()),
        _ => panic!("expected a missing-ticker error"),
    }
}

#[test]
fn strict_fail_fast_names_first_missing() {
    let response = r#"[{"symbol":"GOOG","price":2830.42}]"#;
    let tickers = req(&["GOOG", "MSFT", "AAPL"]);
    match parse_prices_strict(response.as_bytes(), &tickers) {
        Err(QuoteError::MissingTicker(t)) => assert_eq!(t, b"MSFT".to_vec()),
        _ => panic!("expected a missing-ticker error"),
    }
}

#[test]
fn strict_last_quote_wins_on_repeated_symbol() {
    let response = r#"[{"symbol":"AAPL","price":1.0},{"symbol":"AAPL","price":2.5}]"#;
    let tickers = req(&["AAPL"]);
    let quotes = parse_prices_strict(response.as_bytes(), &tickers).unwrap();
    assert_eq!(quotes.len(), 1);
    assert_eq!(num(&quotes[0].price), 2.5);
}

#[test]
fn set_both_found_with_exact_change() {
    let response = r#"[{"symbol":"GOOG","price":2830.42,"change":10.5},{"symbol":"AAPL","price":142.42,"change":-1.2}]"#;
    let tickers = req(&["AAPL", "GOOG"]);
    let quotes = parse_prices(response.as_bytes(), &tickers).unwrap();
    assert_eq!(quotes.len(), 2);
    assert_eq!(sym_of(&quotes[0]), "GOOG");
    assert_eq!(num(&quotes[0].price), 2830.42);
    assert_eq!(num(quotes[0].change.as_ref().unwrap()), 10.5);
    assert_eq!(sym_of(&quotes[1]), "AAPL");
    assert_eq!(num(&quotes[1].price), 142.42);
    assert_eq!(num(quotes[1].change.as_ref().unwrap()), -1.2);
}

#[test]
fn set_absent_ticker_yields_empty_result() {
    let response = r#"[{"symbol":"GOOG","price":2830.42}]"#;
    let tickers = req(&["AAPL"]);
    let quotes = parse_prices(response.as_bytes(), &tickers).unwrap();
    assert!(quotes.is_empty());
}

#[test]
fn set_keeps_response_order() {
    let response = r#"[{"symbol":"GOOG","price":1.0},{"symbol":"MSFT","price":2.0},{"symbol":"AAPL","price":3.0}]"#;
    let tickers = req(&["AAPL", "GOOG"]);
    let quotes = parse_prices(response.as_bytes(), &tickers).unwrap();
    assert_eq!(quotes.len(), 2);
    assert_eq!(sym_of(&quotes[0]), "GOOG");
    assert_eq!(sym_of(&quotes[1]), "AAPL");
}

#[test]
fn set_duplicate_request_gives_no_duplicate_output() {
    let response = r#"[{"symbol":"GOOG","price":1.0},{"symbol":"AAPL","price":3.0}]"#;
    let tickers = req(&["AAPL", "AAPL", "AAPL"]);
    let quotes = parse_prices(response.as_bytes(), &tickers).unwrap();
    assert_eq!(quotes.len(), 1);
    assert_eq!(sym_of(&quotes[0]), "AAPL");
}

#[test]
fn set_roundtrip_keeps_every_field_exactly() {
    let response = r#"[{"symbol":"GOOG","price":2830.42,"change":10.5},{"symbol":"AAPL","price":142.42,"change":-1.2}]"#;
    let tickers = req(&["GOOG", "AAPL"]);
    let quotes = parse_prices(response.as_bytes(), &tickers).unwrap();
    assert_eq!(quotes.len(), 2);
    assert_eq!(quotes[0].price, b"2830.42".to_vec());
    assert_eq!(quotes[0].change.as_ref().unwrap(), &b"10.5".to_vec());
    assert_eq!(quotes[1].price, b"142.42".to_vec());
    assert_eq!(quotes[1].change.as_ref().unwrap(), &b"-1.2".to_vec());
}

#[test]
fn set_parse_error_on_bad_body() {
    let tickers = req(&["AAPL"]);
    match parse_prices(b"not json", &tickers) {
        Err(QuoteError::Parse) => {},
        _ => panic!("expected a parse error"),
    }
}

#[test]
fn strict_parse_error_on_bad_body() {
    let tickers = req(&["AAPL"]);
    match parse_prices_strict(b"{}", &tickers) {
        Err(QuoteError::Parse) => {},
        _ => panic!("expected a parse error"),
    }
}

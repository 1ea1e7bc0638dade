use ticker_quotes::matcher::parse_prices;
use ticker_quotes::matcher::parse_prices_strict;
use ticker_quotes::render::render_set;
use ticker_quotes::render::render_strict;
use ticker_quotes::tickers::split_tickers;

fn req(tickers: &[&str]) -> Vec<Vec<u8>> {
    tickers.iter().map(|t| t.as_bytes().to_vec()).collect()
}

#[test]
fn set_line_has_price_and_change() {
    let response = r#"[{"symbol":"GOOG","price":2830.42,"change":10.5},{"symbol":"AAPL","price":142.42,"change":-1.2}]"#;
    let quotes = parse_prices(response.as_bytes(), &req(&["AAPL", "GOOG"])).unwrap();
    let line = render_set(&quotes);
    assert_eq!(
        String::from_utf8(line).unwrap(),
        "GOOG $2830.42 (10.5) AAPL $142.42 (-1.2)"
    );
}

#[test]
fn set_line_omits_absent_change() {
    let response = r#"[{"symbol":"GOOG","price":2830.42}]"#;
    let quotes = parse_prices(response.as_bytes(), &req(&["GOOG"])).unwrap();
    let line = render_set(&quotes);
    assert_eq!(String::from_utf8(line).unwrap(), "GOOG $2830.42");
}

#[test]
fn strict_line_has_no_change_and_no_trailing_space() {
    let response = r#"[{"symbol":"GOOG","price":2830.42,"change":10.5},{"symbol":"AAPL","price":142.42,"change":-1.2}]"#;
    let quotes = parse_prices_strict(response.as_bytes(), &req(&["AAPL", "GOOG"])).unwrap();
    let line = render_strict(&quotes);
    assert_eq!(String::from_utf8(line).unwrap(), "AAPL $142.42 GOOG $2830.42");
}

#[test]
fn empty_selection_renders_an_empty_line() {
    let quotes = parse_prices(b"[]", &req(&["AAPL"])).unwrap();
    assert!(render_set(&quotes).is_empty());
}

#[test]
fn split_on_commas_keeps_order() {
    let ts = split_tickers(b"AAPL,GOOG,MSFT");
    assert_eq!(ts, vec![b"AAPL".to_vec(), b"GOOG".to_vec(), b"MSFT".to_vec()]);
}

#[test]
fn split_keeps_empty_pieces() {
    let ts = split_tickers(b"");
    assert_eq!(ts, vec![b"".to_vec()]);
    let ts = split_tickers(b"A,,B,");
    assert_eq!(ts, vec![b"A".to_vec(), b"".to_vec(), b"B".to_vec(), b"".to_vec()]);
}

#[test]
fn end_to_end_set_pipeline() {
    let response = r#"[{"symbol":"GOOG","price":2830.42,"change":10.5},{"symbol":"AAPL","price":142.42,"change":-1.2}]"#;
    let tickers = split_tickers(b"AAPL,GOOG");
    let quotes = parse_prices(response.as_bytes(), &tickers).unwrap();
    let line = render_set(&quotes);
    assert_eq!(
        String::from_utf8(line).unwrap(),
        "GOOG $2830.42 (10.5) AAPL $142.42 (-1.2)"
    );
}

use ticker_quotes::parse::parse_quotes;
use ticker_quotes::quote::QuoteError;

fn ok(body: &str) -> Vec<ticker_quotes::quote::Quote> {
    parse_quotes(body.as_bytes()).unwrap()
}

fn fails(body: &str) -> bool {
    matches!(parse_quotes(body.as_bytes()), Err(QuoteError::Parse))
}

#[test]
fn empty_array_parses_to_no_quotes() {
    assert!(ok("[]").is_empty());
    assert!(ok("  [ ]  ").is_empty());
}

#[test]
fn change_is_optional() {
    let qs = ok(r#"[{"symbol":"AAPL","price":142.42}]"#);
    assert_eq!(qs.len(), 1);
    assert!(qs[0].change.is_none());
    let qs = ok(r#"[{"symbol":"AAPL","price":142.42,"change":0.08}]"#);
    assert_eq!(qs[0].change.as_ref().unwrap(), &b"0.08".to_vec());
}

#[test]
fn unconsumed_members_are_ignored() {
    let body = r#"[{"symbol":"AAPL","name":"Apple Inc.","price":201.08,"change":0.08,
        "marketCap":3003290664000,"exchange":"NASDAQ","pe":28.36,
        "earningsAnnouncement":"2025-07-30T10:59:00.000+0000",
        "extra":{"nested":[1,2,{"deep":null}],"flag":true,"none":false}}]"#;
    let qs = ok(body);
    assert_eq!(qs.len(), 1);
    assert_eq!(qs[0].symbol, b"AAPL".to_vec());
    assert_eq!(qs[0].price, b"201.08".to_vec());
    assert_eq!(qs[0].change.as_ref().unwrap(), &b"0.08".to_vec());
}

#[test]
fn member_order_does_not_matter() {
    let qs = ok(r#"[{"price":1.5,"change":-2,"symbol":"MSFT"}]"#);
    assert_eq!(qs[0].symbol, b"MSFT".to_vec());
    assert_eq!(qs[0].price, b"1.5".to_vec());
    assert_eq!(qs[0].change.as_ref().unwrap(), &b"-2".to_vec());
}

#[test]
fn number_forms_are_kept_verbatim() {
    let qs = ok(r#"[{"symbol":"A","price":1e3,"change":-0.5E+2},{"symbol":"B","price":0}]"#);
    assert_eq!(qs[0].price, b"1e3".to_vec());
    assert_eq!(qs[0].change.as_ref().unwrap(), &b"-0.5E+2".to_vec());
    assert_eq!(qs[1].price, b"0".to_vec());
}

#[test]
fn string_escapes_are_decoded_in_symbols() {
    let qs = ok(r#"[{"symbol":"AAPL","price":1}]"#);
    assert_eq!(qs[0].symbol, b"AAPL".to_vec());
    let qs = ok(r#"[{"symbol":"A\"B\\C\/D\tE","price":1}]"#);
    assert_eq!(qs[0].symbol, b"A\"B\\C/D\tE".to_vec());
}

#[test]
fn surrogate_pairs_are_decoded() {
    let qs = ok(r#"[{"symbol":"😀","price":1}]"#);
    assert_eq!(qs[0].symbol, "\u{1F600}".as_bytes().to_vec());
    assert!(fails(r#"[{"symbol":"\uD83D","price":1}]"#));
}

#[test]
fn whitespace_between_tokens_is_allowed() {
    let qs = ok(" [ { \"symbol\" : \"A\" , \"price\" : 2 } ,\n {\"symbol\":\"B\",\"price\":3} ] ");
    assert_eq!(qs.len(), 2);
    assert_eq!(qs[0].symbol, b"A".to_vec());
    assert_eq!(qs[1].price, b"3".to_vec());
}

#[test]
fn malformed_bodies_are_parse_errors() {
    assert!(fails(""));
    assert!(fails("null"));
    assert!(fails("{}"));
    assert!(fails("[{]"));
    assert!(fails("[{\"symbol\":\"A\",\"price\":1},]"));
    assert!(fails("[{\"symbol\":\"A\",\"price\":1}"));
    assert!(fails("[{\"symbol\":\"A\",\"price\":1}] x"));
    assert!(fails("[1]"));
    assert!(fails("[\"A\"]"));
}

#[test]
fn shape_mismatches_are_parse_errors() {
    assert!(fails(r#"[{"price":1}]"#));
    assert!(fails(r#"[{"symbol":"A"}]"#));
    assert!(fails(r#"[{"symbol":1,"price":1}]"#));
    assert!(fails(r#"[{"symbol":"A","price":"1"}]"#));
    assert!(fails(r#"[{"symbol":"A","price":1,"change":"x"}]"#));
    assert!(fails(r#"[{"symbol":"A","symbol":"A","price":1}]"#));
    assert!(fails(r#"[{"symbol":"A","price":1,"price":2}]"#));
}

#[test]
fn bad_numbers_are_parse_errors() {
    assert!(fails(r#"[{"symbol":"A","price":01}]"#));
    assert!(fails(r#"[{"symbol":"A","price":1.}]"#));
    assert!(fails(r#"[{"symbol":"A","price":.5}]"#));
    assert!(fails(r#"[{"symbol":"A","price":1e}]"#));
    assert!(fails(r#"[{"symbol":"A","price":- 1}]"#));
}

#[test]
fn bad_strings_are_parse_errors() {
    assert!(fails(r#"[{"symbol":"A"#));
    assert!(fails(r#"[{"symbol":"\x41","price":1}]"#));
    assert!(fails(r#"[{"symbol":"\uZZZZ","price":1}]"#));
}

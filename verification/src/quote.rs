use vstd::prelude::*;

verus! {

/// One ticker's market data, as parsed from the response body.
///
/// `price` and `change` hold the number token exactly as it stood in
/// the response text, so no precision is lost to a numeric conversion;
/// `symbol` holds the decoded string contents.
#[derive(Debug)]
pub struct Quote {
    pub symbol: Vec<u8>,
    pub price: Vec<u8>,
    pub change: Option<Vec<u8>>,
}

/// Mathematical image of a `Quote`: the same three fields as sequences.
#[verifier::ext_equal]
pub struct QuoteView {
    pub symbol: Seq<u8>,
    pub price: Seq<u8>,
    pub change: Option<Seq<u8>>,
}

impl View for Quote {
    type V = QuoteView;

    open spec fn view(&self) -> QuoteView {
        QuoteView {
            symbol: self.symbol@,
            price: self.price@,
            change: match self.change {
                Some(c) => Some(c@),
                None => None,
            },
        }
    }
}

/// The image of a whole parse result: each quote replaced by its view.
pub open spec fn quotes_view(qs: Seq<Quote>) -> Seq<QuoteView> {
    qs.map_values(|q: Quote| q@)
}

/// Why an operation failed: the response body was not a well-formed
/// quote array, or (strict matching only) a requested ticker had no
/// quote; the missing ticker is named.
#[derive(Debug)]
pub enum QuoteError {
    Parse,
    MissingTicker(Vec<u8>),
}

/// The image of an optional byte vector.
pub open spec fn opt_bytes_view(o: Option<Vec<u8>>) -> Option<Seq<u8>> {
    match o {
        Some(v) => Some(v@),
        None => None,
    }
}

} // verus!

//! Verified core of a stock-quote lookup tool.
//!
//! The library parses a JSON response body (an array of quote objects)
//! into quote records and matches them against a requested list of
//! ticker symbols, either strictly (every requested ticker must be
//! present, output in request order) or leniently (keep the quotes
//! whose symbol was requested, in response order).  Everything here is
//! verified; the surrounding program only fetches the body and prints
//! the rendered line.

pub mod matcher;
pub mod parse;
pub mod quote;
pub mod render;
pub mod tickers;

//! The fetch stage: what it hands on for a request once the provider has
//! answered.

use crate::quotes::{Quote, QuoteRequest, Quotes};
use vstd::prelude::*;

verus! {

/// The quotes that the stage hands on for what a provider answered: its
/// quotes, or none where it failed.
pub open spec fn quotes_or_none<E>(fetched: Result<Vec<Quote>, E>) -> Seq<Quote> {
    match fetched {
        Ok(quotes) => quotes@,
        Err(_) => Seq::empty(),
    }
}

/// The stage that gets the quotes of a symbol and period from a provider.
pub struct StockDataDownloader {}

impl StockDataDownloader {
    /// Builds the series for the request `msg` from the provider's answer.
    /// A failure of the provider goes no further: it becomes an empty
    /// series under the same symbol.
    pub fn handle<E>(&self, msg: &QuoteRequest, fetched: Result<Vec<Quote>, E>) -> (r: Quotes)
        ensures
            r.symbol == msg.symbol,
            r.quotes@ == quotes_or_none(fetched),
    {
        let quotes: Vec<Quote> = match fetched {
            Ok(quotes) => quotes,
            Err(_) => Vec::new(),
        };
        Quotes { symbol: msg.symbol.clone(), quotes }
    }
}

} // verus!

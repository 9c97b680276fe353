//! The performance indicators of one symbol over one period, and the stage
//! that derives them from the quotes of that period.

use crate::quotes::{closes, closes_of, sort_by_time, time_ordered, Quote, Quotes};
use crate::signal::{
    base_of, is_max_of, is_min_of, total, MaxPrice, MinPrice, Price, PriceDifference, Ratio,
    WindowedSMA,
};
use vstd::prelude::*;

verus! {

/// The number of quotes that the moving average of a record spans.
pub const SMA_WINDOW: usize = 30;

/// Performance indicators of a stock data time series.
#[derive(Clone, Debug, PartialEq, Eq)]
pub struct PerformanceIndicators {
    pub symbol: String,
    /// The time of the latest quote of the period, in seconds since the Unix
    /// epoch.
    pub timestamp: u64,
    /// The latest price.
    pub price: Price,
    /// The change from the first to the latest price, relative to the first.
    pub pct_change: Ratio,
    pub period_min: Price,
    pub period_max: Price,
    /// The average of the latest `SMA_WINDOW` prices, or zero where the
    /// period has fewer.
    pub last_sma: Ratio,
}

/// The moving average that a record reports for the prices `closes`.
pub open spec fn latest_average_matches(average: Ratio, closes: Seq<Price>) -> bool {
    if closes.len() >= SMA_WINDOW {
        &&& average.num == total(closes.subrange(closes.len() - SMA_WINDOW, closes.len() as int))
        &&& average.den == SMA_WINDOW
    } else {
        &&& average.num == 0
        &&& average.den == 1
    }
}

/// `record` is the summary of the non-empty series `ordered` for `symbol`.
/// Each field is fixed by it: a series has one summary.
pub open spec fn summarizes(
    record: PerformanceIndicators,
    symbol: Seq<char>,
    ordered: Seq<Quote>,
) -> bool {
    let closes = closes_of(ordered);
    &&& record.symbol@ == symbol
    &&& record.timestamp == ordered.last().timestamp
    &&& record.price == closes.last()
    &&& record.pct_change.num == closes.last() - closes.first()
    &&& record.pct_change.den == base_of(closes.first())
    &&& is_min_of(record.period_min, closes)
    &&& is_max_of(record.period_max, closes)
    &&& latest_average_matches(record.last_sma, closes)
}

/// The summary of a series whose quotes stand in order of time.
pub fn summarize(symbol: String, ordered: &[Quote]) -> (record: PerformanceIndicators)
    requires
        ordered@.len() > 0,
    ensures
        summarizes(record, symbol@, ordered@),
{
    let prices: Vec<Price> = closes(ordered);
    let latest: Quote = ordered[ordered.len() - 1];
    let period_max: Price = (MaxPrice {  }).calculate(prices.as_slice()).unwrap();
    let period_min: Price = (MinPrice {  }).calculate(prices.as_slice()).unwrap();
    let (_, pct_change) = (PriceDifference {  }).calculate(prices.as_slice()).unwrap();
    let averages: Vec<Ratio> = (WindowedSMA { window_size: SMA_WINDOW }).calculate(
        prices.as_slice(),
    ).unwrap();
    let last_sma: Ratio = if averages.len() > 0 {
        averages[averages.len() - 1]
    } else {
        Ratio::zero()
    };
    PerformanceIndicators {
        symbol,
        timestamp: latest.timestamp,
        price: latest.close,
        pct_change,
        period_min,
        period_max,
        last_sma,
    }
}

/// The stage that turns the quotes of one fetch into performance indicators.
pub struct StockDataProcessor {}

impl StockDataProcessor {
    /// Derives the indicators of one series. An empty series gives none;
    /// any other is put in order of time first and then summarized.
    pub fn handle(&self, msg: Quotes) -> (r: Option<PerformanceIndicators>)
        ensures
            r.is_none() <==> msg.quotes@.len() == 0,
            r matches Some(record) ==> summarizes(
                record,
                msg.symbol@,
                time_ordered(msg.quotes@),
            ),
    {
        let Quotes { symbol, quotes } = msg;
        let mut quotes = quotes;
        if quotes.len() == 0 {
            return None;
        }
        sort_by_time(&mut quotes);
        Some(summarize(symbol, quotes.as_slice()))
    }
}

} // verus!

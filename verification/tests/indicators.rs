use stock_tracker::indicators::{summarize, SMA_WINDOW};
use stock_tracker::quotes::{Quote, Quotes};
use stock_tracker::signal::Ratio;
use stock_tracker::{PerformanceIndicators, StockDataProcessor};

fn series(symbol: &str, samples: &[(u64, i64)]) -> Quotes {
    Quotes {
        symbol: symbol.to_string(),
        quotes: samples
            .iter()
            .map(|(timestamp, close)| Quote { timestamp: *timestamp, close: *close })
            .collect(),
    }
}

#[test]
fn an_empty_series_gives_no_record() {
    let processor = StockDataProcessor {};
    assert_eq!(processor.handle(series("X", &[])), None);
}

#[test]
fn a_short_series_is_summarized_with_a_zero_average() {
    let processor = StockDataProcessor {};
    let record = processor
        .handle(series("AAPL", &[(3, 500), (1, 200), (5, 100), (2, 300), (4, 600)]))
        .unwrap();
    assert_eq!(
        record,
        PerformanceIndicators {
            symbol: "AAPL".to_string(),
            timestamp: 5,
            price: 100,
            pct_change: Ratio { num: -100, den: 200 },
            period_min: 100,
            period_max: 600,
            last_sma: Ratio { num: 0, den: 1 },
        }
    );
}

#[test]
fn a_single_quote_is_its_own_summary() {
    let processor = StockDataProcessor {};
    let record = processor.handle(series("MSFT", &[(42, 0)])).unwrap();
    assert_eq!(
        record,
        PerformanceIndicators {
            symbol: "MSFT".to_string(),
            timestamp: 42,
            price: 0,
            pct_change: Ratio { num: 0, den: 1 },
            period_min: 0,
            period_max: 0,
            last_sma: Ratio { num: 0, den: 1 },
        }
    );
}

#[test]
fn the_average_spans_the_latest_thirty_quotes() {
    assert_eq!(SMA_WINDOW, 30);
    let processor = StockDataProcessor {};
    // 40 quotes that arrive latest first; the price at time t is 10 * t.
    let samples: Vec<(u64, i64)> = (1..=40u64).rev().map(|t| (t, 10 * t as i64)).collect();
    let record = processor.handle(series("UBER", &samples)).unwrap();
    let latest_thirty: i64 = (11..=40).map(|t| 10 * t).sum();
    assert_eq!(
        record,
        PerformanceIndicators {
            symbol: "UBER".to_string(),
            timestamp: 40,
            price: 400,
            pct_change: Ratio { num: 390, den: 10 },
            period_min: 10,
            period_max: 400,
            last_sma: Ratio { num: latest_thirty as i128, den: 30 },
        }
    );
}

#[test]
fn exactly_thirty_quotes_give_one_average() {
    let processor = StockDataProcessor {};
    let samples: Vec<(u64, i64)> = (0..30u64).map(|t| (t, 7)).collect();
    let record = processor.handle(series("GOOG", &samples)).unwrap();
    assert_eq!(record.last_sma, Ratio { num: 210, den: 30 });
    let samples: Vec<(u64, i64)> = (0..29u64).map(|t| (t, 7)).collect();
    let record = processor.handle(series("GOOG", &samples)).unwrap();
    assert_eq!(record.last_sma, Ratio { num: 0, den: 1 });
}

#[test]
fn quotes_of_one_time_keep_their_arrival_order() {
    let processor = StockDataProcessor {};
    // Two quotes share the latest time: the one that arrived last is the latest price.
    let record = processor.handle(series("X", &[(9, 50), (1, 20), (9, 70), (1, 30)])).unwrap();
    assert_eq!(record.timestamp, 9);
    assert_eq!(record.price, 70);
    // The first price is that of the earliest quote that arrived first.
    assert_eq!(record.pct_change, Ratio { num: 50, den: 20 });
}

#[test]
fn summarize_takes_the_series_as_ordered() {
    let ordered = [Quote { timestamp: 1, close: 0 }, Quote { timestamp: 2, close: 9 }];
    let record = summarize("Z".to_string(), &ordered);
    assert_eq!(
        record,
        PerformanceIndicators {
            symbol: "Z".to_string(),
            timestamp: 2,
            price: 9,
            pct_change: Ratio { num: 9, den: 1 },
            period_min: 0,
            period_max: 9,
            last_sma: Ratio { num: 0, den: 1 },
        }
    );
}

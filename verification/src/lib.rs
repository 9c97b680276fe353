//! Verified building blocks of a stock-tracking pipeline: the indicators of
//! a price series, the stages that fetch, order and summarize quotes, the
//! scheduler that drives them, and the bounded buffer that serves the latest
//! results.

pub mod buffer;
pub mod downloader;
pub mod indicators;
pub mod quotes;
pub mod scheduler;
pub mod signal;

pub use buffer::{BufferDataRequest, BufferSink};
pub use indicators::{PerformanceIndicators, StockDataProcessor};
pub use signal::{MaxPrice, MinPrice, PriceDifference, WindowedSMA};

//! Market data for order-flow charts: fixed-point prices, exchange and stream descriptions,
//! a local order book, a request budget, and the aggregation of trades into candles with
//! per-price footprints and naked points of control.

pub mod adapter;
pub mod bybit;
pub mod chart;
pub mod decimal;
pub mod depth;
pub mod footprint;
pub mod limiter;
pub mod market;
pub mod price;
pub mod streams;
pub mod ticks;
pub mod timeseries;

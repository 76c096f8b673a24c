use orderflow::bybit::quote_size;
use orderflow::bybit::{
    accept_instrument, kline_interval_name, kline_request_limit, market_category, oi_period_name, oi_request_limit,
    open_interest_venue, AdapterError, OpenInterestVenue,
};
use orderflow::bybit::{depth_topic, kline_topic, trade_topic};
use orderflow::market::{Exchange, MarketKind, Ticker, Timeframe};

#[test]
fn open_interest_only_for_perpetual_venues() {
    assert_eq!(open_interest_venue(Exchange::BybitLinear), Ok(OpenInterestVenue::Bybit));
    assert_eq!(open_interest_venue(Exchange::BinanceInverse), Ok(OpenInterestVenue::Binance));
    assert_eq!(
        open_interest_venue(Exchange::BybitSpot),
        Err(AdapterError::InvalidRequest("Invalid exchange".to_string()))
    );
    assert!(matches!(open_interest_venue(Exchange::HyperliquidLinear), Err(AdapterError::InvalidRequest(_))));
}

#[test]
fn request_limits_follow_range() {
    assert_eq!(kline_request_limit(None, Timeframe::M1), 200);
    assert_eq!(kline_request_limit(Some((0, 600_000)), Timeframe::M1), 10);
    assert_eq!(kline_request_limit(Some((0, 6_000_000_000)), Timeframe::M1), 1000);
    assert_eq!(oi_request_limit(Some((1_000, 1_000 + 3 * 300_000 + 5)), Timeframe::M5), 3);
    assert_eq!(oi_request_limit(Some((0, 3_600_000 * 1000)), Timeframe::H1), 200);
}

#[test]
fn bybit_names() {
    assert_eq!(market_category(MarketKind::InversePerps), "inverse");
    assert_eq!(kline_interval_name(Timeframe::H2), "120");
    assert_eq!(kline_interval_name(Timeframe::D1), "D");
    assert_eq!(oi_period_name(Timeframe::M30), "30min");
    assert_eq!(oi_period_name(Timeframe::D1), "1d");
}

#[test]
fn instrument_filter() {
    assert!(accept_instrument("BTCUSDT", Some("LinearPerpetual"), Some("USDT")));
    assert!(accept_instrument("BTCUSD", None, None));
    assert!(!accept_instrument("BTCUSDT", Some("LinearFutures"), Some("USDT")));
    assert!(!accept_instrument("BTCUSDC", None, Some("USDC")));
    assert!(!accept_instrument("BTC-26DEC25", None, None));
}

#[test]
fn quote_sizes_round_to_whole_units() {
    // 0.5 at 3.0 is 1.5, rounded to 2 units of quote currency
    assert_eq!(quote_size(50_000_000, 300_000_000), 200_000_000);
    assert_eq!(quote_size(-50_000_000, 300_000_000), -200_000_000);
    assert_eq!(quote_size(10_000_000, 300_000_000), 0);
}

#[test]
fn subscription_topics() {
    let linear = Ticker::new("BTCUSDT", Exchange::BybitLinear);
    let spot = Ticker::new("BTCUSDT", Exchange::BybitSpot);
    assert_eq!(trade_topic(&linear), "publicTrade.BTCUSDT");
    assert_eq!(depth_topic(&linear), "orderbook.500.BTCUSDT");
    assert_eq!(depth_topic(&spot), "orderbook.200.BTCUSDT");
    assert_eq!(kline_topic(&spot, Timeframe::D1), "kline.D.BTCUSDT");
    assert_eq!(kline_topic(&linear, Timeframe::M15), "kline.15.BTCUSDT");
}

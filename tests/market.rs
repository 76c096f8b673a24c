use orderflow::price::Price;
use orderflow::market::{
    is_symbol_supported, Exchange, MarketKind, SerTicker, StreamConfig, StreamKind, StreamTicksize, TickMultiplier,
    Ticker, TickerInfo, Timeframe,
};
use orderflow::price::PriceStep;

#[test]
fn ticker_keeps_its_symbol() {
    let t = Ticker::new("BTCUSDT", Exchange::BybitLinear);
    assert_eq!(t.to_full_symbol_and_type(), ("BTCUSDT".to_string(), MarketKind::LinearPerps));
    let t = Ticker::new("BTC_USDT_PERP", Exchange::BinanceSpot);
    assert_eq!(t.to_full_symbol_and_type().0, "BTC_USDT_PERP");
    assert_eq!(t.display_symbol_and_type(), ("BTC".to_string(), MarketKind::Spot));
    let t = Ticker::new("", Exchange::BybitInverse);
    assert_eq!(t.to_full_symbol_and_type(), (String::new(), MarketKind::InversePerps));
    assert_eq!(t.market_type(), MarketKind::InversePerps);
}

#[test]
fn symbols_with_other_characters_are_unsupported() {
    assert!(is_symbol_supported("ETHUSDT", Exchange::BybitSpot, false));
    assert!(is_symbol_supported("eth_usdt1", Exchange::BybitSpot, true));
    assert!(!is_symbol_supported("ETH-USDT", Exchange::BybitSpot, false));
    assert!(!is_symbol_supported("ÉTH", Exchange::BybitSpot, false));
}

#[test]
fn timeframe_lengths() {
    assert_eq!(Timeframe::M15.to_minutes(), 15);
    assert_eq!(Timeframe::D1.to_minutes(), 1440);
    assert_eq!(Timeframe::H4.to_milliseconds(), 14_400_000);
    assert_eq!(Timeframe::MS500.to_milliseconds(), 500);
    assert!(!Timeframe::MS100.is_kline());
    assert!(Timeframe::M1.is_kline());
}

#[test]
fn exchange_markets() {
    assert_eq!(Exchange::HyperliquidLinear.market_type(), MarketKind::LinearPerps);
    assert_eq!(Exchange::BinanceInverse.market_type(), MarketKind::InversePerps);
    assert_eq!(Exchange::BybitSpot.market_type(), MarketKind::Spot);
    assert!(Exchange::BybitLinear.is_depth_client_aggr());
    assert!(!Exchange::HyperliquidLinear.is_depth_client_aggr());
    assert!(!Exchange::BinanceSpot.is_depth_client_aggr());
}

#[test]
fn custom_multipliers() {
    assert!(!TickMultiplier(25).is_custom());
    assert!(TickMultiplier(3).is_custom());
    assert!(TickMultiplier(1000).is_custom());
}

#[test]
fn stream_kind_accessors() {
    let t = Ticker::new("SOLUSDT", Exchange::BybitLinear);
    let k = StreamKind::Kline { ticker: t, timeframe: Timeframe::M5 };
    let d = StreamKind::DepthAndTrades { ticker: t, depth_aggr: StreamTicksize::ServerSide(TickMultiplier(10)) };
    assert_eq!(k.ticker(), t);
    assert_eq!(k.as_kline_stream(), Some((t, Timeframe::M5)));
    assert_eq!(k.as_depth_stream(), None);
    assert_eq!(d.as_depth_stream(), Some((t, StreamTicksize::ServerSide(TickMultiplier(10)))));
    assert_eq!(d.as_kline_stream(), None);
}

#[test]
fn ticker_pairs_and_info() {
    let s = SerTicker::new(Exchange::BybitSpot, "ETHUSDT");
    assert_eq!(s.ticker.to_full_symbol_and_type().0, "ETHUSDT");
    assert_eq!(s.ticker.exchange, Exchange::BybitSpot);
    let p = SerTicker::from_parts(Exchange::BinanceLinear, Ticker::new("XRPUSDT", Exchange::BybitLinear));
    assert_eq!(p.exchange, Exchange::BinanceLinear);
    let info = TickerInfo {
        ticker: Ticker::new("XRPUSDT", Exchange::BybitInverse),
        min_ticksize: PriceStep { units: 10_000 },
        min_qty: 100_000_000,
    };
    assert!(info.is_perps());
    assert_eq!(info.market_type(), MarketKind::InversePerps);
    assert_eq!(info.exchange(), Exchange::BybitInverse);
    let cfg = StreamConfig::new(7u32, Exchange::BybitSpot, Some(TickMultiplier(5)));
    assert_eq!(cfg.market_type, MarketKind::Spot);
    assert_eq!(cfg.id, 7);
}

#[test]
fn names_of_timeframes_markets_exchanges() {
    assert_eq!(Timeframe::MS1000.as_str(), "1s");
    assert_eq!(Timeframe::H12.as_str(), "12h");
    assert_eq!(MarketKind::LinearPerps.as_str(), "Linear");
    assert_eq!(Exchange::HyperliquidSpot.display_name(), "Hyperliquid Spot");
    assert_eq!(Exchange::from_display_name("Bybit Inverse"), Some(Exchange::BybitInverse));
    assert_eq!(Exchange::from_display_name("Bybit"), None);
    assert_eq!(Exchange::from_key_name("BinanceSpot"), Some(Exchange::BinanceSpot));
}

#[test]
fn ser_ticker_key_round_trip() {
    let t = SerTicker::new(Exchange::BybitLinear, "BTCUSDT");
    assert_eq!(t.to_key_string(), "BybitLinear:BTCUSDT");
    let back = SerTicker::from_key("BybitLinear:BTCUSDT").unwrap();
    assert_eq!(back, t);
    assert!(SerTicker::from_key("BybitLinear").is_none());
    assert!(SerTicker::from_key("BybitLinear:BTC:USDT").is_none());
    assert!(SerTicker::from_key("Kraken:BTCUSDT").is_none());
    assert!(SerTicker::from_key("BybitLinear:btcusdt").is_none());
}

#[test]
fn multiplier_scales_min_tick() {
    let info = TickerInfo {
        ticker: Ticker::new("BTCUSDT", Exchange::BybitLinear),
        min_ticksize: PriceStep { units: 10_000_000 },
        min_qty: 100_000,
    };
    assert_eq!(TickMultiplier(25).multiply_with_min_tick_size(info).units, 250_000_000);
}

#[test]
fn quote_value_of_sizes() {
    let p = Price::from_units(5_000_000_000);
    assert_eq!(MarketKind::InversePerps.qty_in_quote_value(300, p, false), 300);
    assert_eq!(MarketKind::Spot.qty_in_quote_value(300, p, true), 300);
    assert_eq!(MarketKind::LinearPerps.qty_in_quote_value(200_000_000, p, false), 10_000_000_000);
    assert_eq!(MarketKind::Spot.qty_in_quote_value(-3, Price::from_units(50_000_000), false), -2);
}

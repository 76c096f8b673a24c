use orderflow::market::{Exchange, StreamKind, StreamTicksize, TickMultiplier, Ticker, Timeframe};
use orderflow::streams::UniqueStreams;

fn kline(sym: &str, ex: Exchange, tf: Timeframe) -> StreamKind {
    StreamKind::Kline { ticker: Ticker::new(sym, ex), timeframe: tf }
}

fn depth(sym: &str, ex: Exchange) -> StreamKind {
    StreamKind::DepthAndTrades { ticker: Ticker::new(sym, ex), depth_aggr: StreamTicksize::Client }
}

#[test]
fn duplicate_streams_are_kept_once() {
    let mut u = UniqueStreams::new();
    u.add(kline("BTCUSDT", Exchange::BybitLinear, Timeframe::M1));
    u.add(kline("BTCUSDT", Exchange::BybitLinear, Timeframe::M1));
    u.add(kline("BTCUSDT", Exchange::BybitLinear, Timeframe::M5));
    u.add(depth("BTCUSDT", Exchange::BybitLinear));
    u.add(depth("BTCUSDT", Exchange::BybitLinear));
    assert_eq!(u.kline_streams(None).len(), 2);
    assert_eq!(u.depth_streams(None).len(), 1);
}

#[test]
fn streams_group_by_exchange() {
    let all = vec![
        kline("BTCUSDT", Exchange::BybitLinear, Timeframe::M1),
        depth("ETHUSDT", Exchange::BinanceSpot),
        depth("ETHUSDT", Exchange::BybitLinear),
        StreamKind::DepthAndTrades {
            ticker: Ticker::new("ETHUSDT", Exchange::BybitLinear),
            depth_aggr: StreamTicksize::ServerSide(TickMultiplier(5)),
        },
    ];
    let mut u = UniqueStreams::from(&all);
    assert_eq!(u.depth_streams(Some(Exchange::BybitLinear)).len(), 2);
    assert_eq!(u.depth_streams(Some(Exchange::BinanceSpot)).len(), 1);
    assert_eq!(u.kline_streams(Some(Exchange::BinanceSpot)).len(), 0);
    let combined = u.combined();
    assert_eq!(combined.len(), 2);
    let bybit = combined.iter().find(|(e, _)| *e == Exchange::BybitLinear).unwrap();
    assert_eq!(bybit.1.depth.len(), 2);
    assert_eq!(bybit.1.kline, vec![(Ticker::new("BTCUSDT", Exchange::BybitLinear), Timeframe::M1)]);
    u.extend(&[kline("SOLUSDT", Exchange::BinanceSpot, Timeframe::H1)]);
    let binance = u.combined().iter().find(|(e, _)| *e == Exchange::BinanceSpot).unwrap().1.clone();
    assert_eq!(binance.kline.len(), 1);
    assert_eq!(binance.depth.len(), 1);
}

use orderflow::chart::{Aggregator, Autoscale, Basis, PlotData};
use orderflow::market::{Kline, Timeframe, Trade};
use orderflow::price::{Price, PriceStep};
use orderflow::ticks::TickCount;

#[test]
fn basis_kind() {
    assert!(Basis::Time(Timeframe::M5).is_time());
    assert!(!Basis::Tick(TickCount(100)).is_time());
    assert_ne!(Autoscale::CenterLatest, Autoscale::FitToVisible);
}

fn trade(time: u64, price_units: i64, qty: i64) -> Trade {
    Trade { time, is_sell: false, price: Price::from_units(price_units), qty }
}

#[test]
fn engine_rebuilds_from_retained_trades() {
    let step = PriceStep { units: 1_000_000 };
    let mut engine = Aggregator::new_tick_based(TickCount(2), step, vec![trade(1, 10_000_400_000, 1)]);
    engine.insert_trades_buffer(&[trade(2, 10_000_600_000, 1), trade(3, 10_002_000_000, 1)]);
    assert_eq!(engine.raw_trades.len(), 3);
    match &engine.data_source {
        PlotData::TickBased(a) => {
            assert_eq!(a.datapoints.len(), 2);
            assert_eq!(a.datapoints[0].footprint.trades.len(), 2);
        }
        PlotData::TimeBased(_) => panic!("expected tick basis"),
    }
    engine.change_tick_size(PriceStep { units: 10_000_000 });
    match &engine.data_source {
        PlotData::TickBased(a) => assert_eq!(a.datapoints[0].footprint.trades.len(), 1),
        PlotData::TimeBased(_) => panic!("expected tick basis"),
    }
    engine.set_tick_basis(TickCount(3));
    match &engine.data_source {
        PlotData::TickBased(a) => {
            assert_eq!(a.interval, TickCount(3));
            assert_eq!(a.datapoints.len(), 1);
            assert_eq!(a.datapoints[0].tick_count, 3);
        }
        PlotData::TimeBased(_) => panic!("expected tick basis"),
    }
    let (lo, hi) = engine.visible_price_range(0, 100).unwrap();
    assert_eq!((lo.units, hi.units), (10_000_400_000, 10_002_000_000));
    assert!(engine.visible_price_range(1, 100).is_none());
    engine.clear_trades();
    assert!(engine.raw_trades.is_empty());
    assert!(engine.visible_price_range(0, 0).is_none());
}

#[test]
fn time_engine_keeps_klines() {
    let mut engine = Aggregator::new_time_based(Timeframe::M1, PriceStep { units: 1 });
    let k = Kline {
        time: 60_000,
        open: Price::from_units(5),
        high: Price::from_units(9),
        low: Price::from_units(4),
        close: Price::from_units(6),
        volume: (-1, 3),
    };
    engine.insert_new_klines(&[k]);
    engine.insert_trades_buffer(&[trade(60_001, 5, 1)]);
    assert_eq!(engine.raw_trades.len(), 1);
    assert!(matches!(&engine.data_source, PlotData::TimeBased(ts) if ts.datapoints.len() == 1 && ts.datapoints[0].kline.time == 60_000));
    assert_eq!(engine.visible_price_range(0, 60_000).map(|(l, h)| (l.units, h.units)), Some((4, 9)));
    assert_eq!(engine.visible_price_range(0, 59_999), None);
}

#[test]
fn basis_switch_keeps_trades() {
    let step = PriceStep { units: 1 };
    let mut engine = Aggregator::new_tick_based(TickCount(1), step, vec![trade(1, 10, 1), trade(2, 11, 1)]);
    engine.change_basis(Basis::Time(Timeframe::M5));
    assert!(matches!(&engine.data_source, PlotData::TimeBased(ts) if ts.timeframe == Timeframe::M5 && ts.klines.is_empty()));
    assert!(matches!(&engine.data_source, PlotData::TimeBased(ts) if ts.datapoints.len() == 1 && ts.datapoints[0].tick_count == 2));
    assert_eq!(engine.raw_trades.len(), 2);
    engine.change_basis(Basis::Tick(TickCount(1)));
    assert!(matches!(&engine.data_source, PlotData::TickBased(a) if a.datapoints.len() == 2));
}

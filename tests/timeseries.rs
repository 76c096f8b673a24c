use orderflow::market::{Kline, Timeframe, Trade};
use orderflow::price::PriceStep;
use orderflow::price::Price;
use orderflow::timeseries::TimeSeries;

fn kline(time: u64, low: i64, high: i64) -> Kline {
    Kline {
        time,
        open: Price::from_units(low),
        high: Price::from_units(high),
        low: Price::from_units(low),
        close: Price::from_units(high),
        volume: (-1, 10),
    }
}

#[test]
fn klines_are_kept_in_time_order() {
    let mut ts = TimeSeries::new(Timeframe::M1);
    ts.insert_klines(&[kline(120_000, 5, 9), kline(0, 1, 2), kline(60_000, 3, 4)]);
    ts.insert_klines(&[kline(60_000, 30, 40)]);
    let times: Vec<u64> = ts.klines.iter().map(|k| k.time).collect();
    assert_eq!(times, vec![0, 60_000, 120_000]);
    assert_eq!(ts.klines[1].low.units, 30);
    assert_eq!(ts.latest_kline().unwrap().time, 120_000);
}

#[test]
fn integrity_check_reports_missing_keys() {
    let mut ts = TimeSeries::new(Timeframe::M1);
    ts.insert_klines(&[kline(0, 1, 2), kline(180_000, 1, 2), kline(240_000, 1, 2)]);
    assert_eq!(ts.check_integrity(0, 240_000, 60_000), Some(vec![60_000, 120_000]));
    assert_eq!(ts.check_integrity(180_000, 240_000, 60_000), None);
    assert_eq!(ts.check_integrity(0, 300_000, 60_000), Some(vec![60_000, 120_000, 300_000]));
    assert_eq!(ts.check_integrity(10, 5, 60_000), None);
}

#[test]
fn time_range_min_max() {
    let mut ts = TimeSeries::new(Timeframe::M1);
    ts.insert_klines(&[kline(0, 10, 20), kline(60_000, 5, 15), kline(120_000, 12, 30)]);
    assert_eq!(ts.min_max_price_in_range(0, 60_000), Some((5, 20)));
    assert_eq!(ts.min_max_price_in_range(60_001, 200_000), Some((12, 30)));
    assert_eq!(ts.min_max_price_in_range(200_000, 300_000), None);
    assert!(TimeSeries::new(Timeframe::MS1000).latest_kline().is_none());
}

#[test]
fn trades_fill_time_buckets_with_footprints() {
    let t = |time: u64, price: i64, qty: i64, is_sell: bool| Trade { time, is_sell, price: Price::from_units(price), qty };
    let mut ts = TimeSeries::new(Timeframe::M1);
    ts.insert_trades(&[t(125_000, 100, 2, false), t(61_000, 200, 3, true), t(179_999, 101, 5, true)], PriceStep { units: 1 });
    let times: Vec<u64> = ts.datapoints.iter().map(|d| d.kline.time).collect();
    assert_eq!(times, vec![60_000, 120_000]);
    assert_eq!(ts.datapoints[1].tick_count, 2);
    assert_eq!(ts.datapoints[1].kline.volume, (2, 5));
    assert_eq!(ts.datapoints[1].footprint.trades.len(), 2);
    assert_eq!(ts.datapoints[0].footprint.trades[0].1.sell_qty, 3);
    assert!(ts.klines.is_empty());
}

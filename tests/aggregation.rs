use orderflow::footprint::{ClusterKind, GroupedTrades, KlineTrades, NPoc};
use orderflow::market::Trade;
use orderflow::price::{Price, PriceStep};
use orderflow::ticks::{TickAggr, TickCount};

const STEP: PriceStep = PriceStep { units: 1_000_000 };

fn trade(time: u64, price_units: i64, qty: i64, is_sell: bool) -> Trade {
    Trade { time, is_sell, price: Price::from_units(price_units), qty }
}

#[test]
fn five_trades_fill_one_datapoint() {
    let trades: Vec<Trade> = (0..5).map(|i| trade(i, 10_000_000_000, 1, i % 2 == 0)).collect();
    let aggr = TickAggr::new(TickCount(5), STEP, &trades);
    assert_eq!(aggr.datapoints.len(), 1);
    let dp = &aggr.datapoints[0];
    assert_eq!(dp.tick_count, 5);
    assert!(dp.is_full(TickCount(5)));
    assert_eq!(dp.footprint.trades.len(), 1);
    let (price, g) = dp.footprint.trades[0];
    assert_eq!(price.units, 10_000_000_000);
    assert_eq!(g.buy_qty + g.sell_qty, 5);
    let p = Price::from_units(10_000_000_000);
    assert_eq!(dp.kline.open, p);
    assert_eq!(dp.kline.high, p);
    assert_eq!(dp.kline.low, p);
    assert_eq!(dp.kline.close, p);
    assert_eq!(dp.kline.volume, (2, 3));
}

#[test]
fn closed_datapoints_hold_interval_trades() {
    let trades: Vec<Trade> = (0..7).map(|i| trade(i, 10_000_000_000 + i as i64 * 1_000_000, 2, false)).collect();
    let aggr = TickAggr::new(TickCount(3), STEP, &trades);
    let counts: Vec<usize> = aggr.datapoints.iter().map(|d| d.tick_count).collect();
    assert_eq!(counts, vec![3, 3, 1]);
}

#[test]
fn zero_interval_opens_a_datapoint_per_trade() {
    let trades: Vec<Trade> = (0..3).map(|i| trade(i, 100, 1, false)).collect();
    let aggr = TickAggr::new(TickCount(0), STEP, &trades);
    assert_eq!(aggr.datapoints.len(), 3);
}

#[test]
fn footprint_sums_match_volume() {
    let trades = vec![
        trade(1, 10_000_400_000, 3, false),
        trade(2, 10_000_600_000, 4, true),
        trade(3, 10_001_000_000, 5, false),
        trade(4, 9_999_000_000, 7, true),
    ];
    let aggr = TickAggr::new(TickCount(10), STEP, &trades);
    let dp = &aggr.datapoints[0];
    let buy: i128 = dp.footprint.trades.iter().map(|(_, g)| g.buy_qty).sum();
    let sell: i128 = dp.footprint.trades.iter().map(|(_, g)| g.sell_qty).sum();
    assert_eq!((buy, sell), dp.kline.volume);
    assert_eq!(dp.kline.volume, (8, 11));
    // 100.004 rounds to 100.00, 100.006 to 100.01
    assert_eq!(dp.footprint.trades[0].0.units, 10_000_000_000);
    assert_eq!(dp.footprint.trades[1].0.units, 10_001_000_000);
    assert_eq!(dp.footprint.trades[1].1, GroupedTrades { buy_qty: 5, sell_qty: 4 });
    assert_eq!(dp.kline.high.units, 10_001_000_000);
    assert_eq!(dp.kline.low.units, 9_999_000_000);
}

#[test]
fn compute_poc_picks_first_maximum_per_kind() {
    let mut fp = KlineTrades::new();
    fp.add_trade_to_nearest_bin(&trade(1, 100, 10, false), STEP);
    fp.add_trade_to_nearest_bin(&trade(2, 2_000_000, 6, false), STEP);
    fp.add_trade_to_nearest_bin(&trade(3, 2_000_000, 6, true), STEP);
    fp.add_trade_to_nearest_bin(&trade(4, 3_000_000, 12, true), STEP);
    assert_eq!(fp.compute_poc(ClusterKind::VolumeProfile), Some((Price::from_units(2_000_000), 12)));
    assert_eq!(fp.compute_poc(ClusterKind::DeltaProfile), Some((Price::from_units(3_000_000), 12)));
    assert_eq!(fp.compute_poc(ClusterKind::BidAsk), Some((Price::from_units(3_000_000), 12)));
    assert_eq!(KlineTrades::new().compute_poc(ClusterKind::BidAsk), None);
    fp.calculate_poc();
    assert_eq!(fp.poc_price(), Some(Price::from_units(2_000_000)));
}

#[test]
fn max_qty_by_respects_price_window() {
    let mut fp = KlineTrades::new();
    fp.add_trade_to_nearest_bin(&trade(1, 1_000_000, 10, false), STEP);
    fp.add_trade_to_nearest_bin(&trade(2, 2_000_000, 4, true), STEP);
    fp.add_trade_to_nearest_bin(&trade(3, 2_000_000, 1, false), STEP);
    let hi = Price::from_units(2_000_000);
    let lo = Price::from_units(1_500_000);
    assert_eq!(fp.max_qty_by(hi, lo, ClusterKind::VolumeProfile), 5);
    assert_eq!(fp.max_qty_by(hi, lo, ClusterKind::DeltaProfile), 3);
    assert_eq!(fp.max_qty_by(hi, Price::from_units(0), ClusterKind::BidAsk), 10);
    assert_eq!(fp.max_qty_by(lo, hi, ClusterKind::BidAsk), 0);
}

#[test]
fn later_range_fills_earlier_poc() {
    // first datapoint: POC at 100.00
    let mut trades = vec![
        trade(1, 10_000_000_000, 5, false),
        trade(2, 10_500_000_000, 1, false),
    ];
    // second datapoint entirely above 100.00
    trades.push(trade(3, 10_200_000_000, 1, false));
    trades.push(trade(4, 10_300_000_000, 1, false));
    let mut aggr = TickAggr::new(TickCount(2), STEP, &trades);
    assert_eq!(aggr.datapoints[0].footprint.poc.unwrap().status, NPoc::Naked);
    assert_eq!(aggr.datapoints[1].footprint.poc.unwrap().status, NPoc::Unresolved);
    // third datapoint spans 99.00..101.00
    aggr.insert_trades(&[trade(5, 9_900_000_000, 1, true), trade(6, 10_100_000_000, 1, false)]);
    assert_eq!(aggr.datapoints[0].footprint.poc.unwrap().status, NPoc::Filled { at: 2 });
    // later insertions keep the fill where it is
    aggr.insert_trades(&[trade(7, 10_000_000_000, 1, false), trade(8, 10_000_000_000, 1, false)]);
    assert_eq!(aggr.datapoints[0].footprint.poc.unwrap().status, NPoc::Filled { at: 2 });
}

#[test]
fn poc_stays_naked_without_revisit() {
    let trades = vec![
        trade(1, 10_000_000_000, 5, false),
        trade(2, 10_100_000_000, 1, false),
        trade(3, 10_200_000_000, 1, false),
        trade(4, 10_300_000_000, 1, false),
        trade(5, 10_400_000_000, 1, false),
        trade(6, 10_500_000_000, 1, false),
    ];
    let aggr = TickAggr::new(TickCount(2), STEP, &trades);
    assert_eq!(aggr.datapoints[0].footprint.poc.unwrap().status, NPoc::Naked);
    assert_eq!(aggr.datapoints[1].footprint.poc.unwrap().status, NPoc::Naked);
    assert_eq!(aggr.datapoints[2].footprint.poc.unwrap().status, NPoc::Unresolved);
}

#[test]
fn range_queries_count_from_latest() {
    let trades = vec![
        trade(1, 1_000_000, 1, false),
        trade(2, 5_000_000, 1, false),
        trade(3, 2_000_000, 3, true),
        trade(4, 3_000_000, 1, false),
        trade(5, 9_000_000, 1, false),
    ];
    let aggr = TickAggr::new(TickCount(2), STEP, &trades);
    // reversed indices: 0 -> [9], 1 -> [2, 3], 2 -> [1, 5]
    let (lo, hi) = aggr.min_max_price_in_range_prices(0, 1).unwrap();
    assert_eq!((lo.units, hi.units), (2_000_000, 9_000_000));
    let (lo, hi) = aggr.min_max_price_in_range_prices(1, 5).unwrap();
    assert_eq!((lo.units, hi.units), (1_000_000, 5_000_000));
    assert!(aggr.min_max_price_in_range_prices(2, 1).is_none());
    assert!(aggr.min_max_price_in_range_prices(3, 9).is_none());
    let top = Price::from_units(10_000_000);
    let bottom = Price::from_units(0);
    assert_eq!(aggr.max_qty_idx_range(ClusterKind::VolumeProfile, 0, 2, top, bottom), 3);
    assert_eq!(aggr.max_qty_idx_range(ClusterKind::VolumeProfile, 0, 0, top, bottom), 1);
    assert_eq!(aggr.max_qty_idx_range(ClusterKind::VolumeProfile, 5, 9, top, bottom), 0);
    let (dp, idx) = aggr.latest_dp().unwrap();
    assert_eq!(idx, 2);
    assert_eq!(dp.tick_count, 1);
    assert_eq!(aggr.volume_data(), vec![(0, (2, 0)), (1, (1, 3)), (2, (1, 0))]);
}

#[test]
fn change_tick_size_rebuilds_from_trades() {
    let trades = vec![
        trade(1, 10_000_400_000, 1, false),
        trade(2, 10_000_600_000, 1, false),
    ];
    let mut aggr = TickAggr::new(TickCount(5), STEP, &trades);
    assert_eq!(aggr.datapoints[0].footprint.trades.len(), 2);
    aggr.change_tick_size(PriceStep { units: 10_000_000 }, &trades);
    assert_eq!(aggr.tick_size.units, 10_000_000);
    assert_eq!(aggr.datapoints.len(), 1);
    assert_eq!(aggr.datapoints[0].footprint.trades.len(), 1);
    assert_eq!(aggr.datapoints[0].footprint.trades[0].0.units, 10_000_000_000);
}

#[test]
fn large_trade_quantities_add_up() {
    let big = 4_000_000_000_000_000_000i64;
    let trades = vec![trade(1, 100, big, false), trade(2, 100, big, false), trade(3, 100, big, true)];
    let aggr = TickAggr::new(TickCount(3), STEP, &trades);
    let dp = &aggr.datapoints[0];
    assert_eq!(dp.kline.volume, (2 * big as i128, big as i128));
    assert_eq!(dp.footprint.compute_poc(ClusterKind::VolumeProfile).unwrap().1, 3 * big as i128);
}

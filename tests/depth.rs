use orderflow::depth::{DepthPayload, DepthUpdate, LocalDepthCache, Order};
use orderflow::price::Price;

fn order(price: i64, qty: i64) -> Order {
    Order { price: Price::from_units(price), qty }
}

fn payload(id: u64, bids: Vec<Order>, asks: Vec<Order>) -> DepthPayload {
    DepthPayload { last_update_id: id, time: id * 10, bids, asks }
}

#[test]
fn snapshot_then_diffs_keep_latest_nonzero_levels() {
    let mut cache = LocalDepthCache::new();
    cache.update(DepthUpdate::Snapshot(payload(
        5,
        vec![order(100, 1), order(99, 2), order(98, 0)],
        vec![order(101, 3), order(102, 4)],
    )));
    assert_eq!(cache.depth.bids.len(), 2);
    cache.update(DepthUpdate::Diff(payload(6, vec![order(99, 0), order(97, 7)], vec![order(101, 5)])));
    cache.update(DepthUpdate::Diff(payload(7, vec![order(96, 1), order(96, 0)], vec![order(103, 0), order(104, 2)])));
    let bids: Vec<(i64, i64)> = cache.depth.bids.iter().map(|(p, q)| (*p, *q)).collect();
    let asks: Vec<(i64, i64)> = cache.depth.asks.iter().map(|(p, q)| (*p, *q)).collect();
    assert_eq!(bids, vec![(97, 7), (100, 1)]);
    assert_eq!(asks, vec![(101, 5), (102, 4), (104, 2)]);
    assert_eq!(cache.depth.last_update_id, 7);
    assert_eq!(cache.depth.time, 70);
}

#[test]
fn snapshot_replaces_book() {
    let mut cache = LocalDepthCache::new();
    cache.update(DepthUpdate::Snapshot(payload(1, vec![order(100, 1)], vec![order(101, 1)])));
    cache.update(DepthUpdate::Snapshot(payload(2, vec![order(90, 2)], vec![])));
    let bids: Vec<(i64, i64)> = cache.depth.bids.iter().map(|(p, q)| (*p, *q)).collect();
    assert_eq!(bids, vec![(90, 2)]);
    assert!(cache.depth.asks.is_empty());
}

//! Local order book kept from snapshot and diff messages.
use vstd::prelude::*;
use std::collections::BTreeMap;
use crate::price::Price;

verus! {

/// One price level of a depth message; a quantity of 0 removes the level.
#[derive(Debug, Clone, Copy, PartialEq, Eq)]
pub struct Order {
    pub price: Price,
    pub qty: i64,
}

#[derive(Debug, Clone)]
pub struct DepthPayload {
    pub last_update_id: u64,
    pub time: u64,
    pub bids: Vec<Order>,
    pub asks: Vec<Order>,
}

#[derive(Debug, Clone)]
pub enum DepthUpdate {
    /// Replaces the book.
    Snapshot(DepthPayload),
    /// Changes the listed levels.
    Diff(DepthPayload),
}

/// An order book: quantity by price (in atomic units) on each side.
#[derive(Debug, Clone)]
pub struct Depth {
    pub last_update_id: u64,
    pub time: u64,
    pub bids: BTreeMap<i64, i64>,
    pub asks: BTreeMap<i64, i64>,
}

/// The levels after applying `orders` in turn to `m`: a zero quantity removes its level,
/// any other sets it.
pub open spec fn apply_orders(m: Map<i64, i64>, orders: Seq<Order>) -> Map<i64, i64>
    decreases orders.len(),
{
    if orders.len() == 0 {
        m
    } else {
        let before = apply_orders(m, orders.drop_last());
        let o = orders.last();
        if o.qty == 0 {
            before.remove(o.price.units)
        } else {
            before.insert(o.price.units, o.qty)
        }
    }
}

/// The quantity of the last order at price `p`, if any order has that price.
pub open spec fn latest_qty(orders: Seq<Order>, p: i64) -> Option<i64>
    decreases orders.len(),
{
    if orders.len() == 0 {
        None
    } else if orders.last().price.units == p {
        Some(orders.last().qty)
    } else {
        latest_qty(orders.drop_last(), p)
    }
}

/// All order lists, one after another.
pub open spec fn concat_all(diffs: Seq<Seq<Order>>) -> Seq<Order>
    decreases diffs.len(),
{
    if diffs.len() == 0 {
        Seq::empty()
    } else {
        concat_all(diffs.drop_last()) + diffs.last()
    }
}

/// One side of the book after a snapshot and then each diff in turn.
pub open spec fn side_after(snapshot: Seq<Order>, diffs: Seq<Seq<Order>>) -> Map<i64, i64>
    decreases diffs.len(),
{
    if diffs.len() == 0 {
        apply_orders(Map::empty(), snapshot)
    } else {
        apply_orders(side_after(snapshot, diffs.drop_last()), diffs.last())
    }
}

impl Depth {
    pub fn new() -> (r: Self)
        ensures
            r.bids@ == Map::<i64, i64>::empty(),
            r.asks@ == Map::<i64, i64>::empty(),
            r.last_update_id == 0,
            r.time == 0,
    {
        Depth { last_update_id: 0, time: 0, bids: BTreeMap::new(), asks: BTreeMap::new() }
    }
}

fn apply_side(side: &mut BTreeMap<i64, i64>, orders: &Vec<Order>)
    ensures
        final(side)@ == apply_orders(old(side)@, orders@),
{
    broadcast use vstd::laws_cmp::group_laws_cmp;
    let n = orders.len();
    let mut i: usize = 0;
    while i < n
        invariant
            n == orders@.len(),
            i <= n,
            side@ == apply_orders(old(side)@, orders@.subrange(0, i as int)),
        decreases n - i,
    {
        let o = orders[i];
        if o.qty == 0 {
            side.remove(&o.price.units);
        } else {
            side.insert(o.price.units, o.qty);
        }
        proof {
            assert(orders@.subrange(0, i as int + 1).drop_last() =~= orders@.subrange(0, i as int));
        }
        i = i + 1;
    }
    proof {
        assert(orders@.subrange(0, n as int) =~= orders@);
    }
}

/// The book that depth messages keep up to date.
#[derive(Debug, Clone)]
pub struct LocalDepthCache {
    pub depth: Depth,
}

impl LocalDepthCache {
    pub fn new() -> (r: Self)
        ensures
            r.depth.bids@ == Map::<i64, i64>::empty(),
            r.depth.asks@ == Map::<i64, i64>::empty(),
    {
        LocalDepthCache { depth: Depth::new() }
    }

    /// A snapshot replaces both sides; a diff is applied over them. Sequence ids are recorded,
    /// not checked.
    pub fn update(&mut self, update: DepthUpdate)
        ensures
            match update {
                DepthUpdate::Snapshot(p) => {
                    &&& final(self).depth.bids@ == apply_orders(Map::empty(), p.bids@)
                    &&& final(self).depth.asks@ == apply_orders(Map::empty(), p.asks@)
                    &&& final(self).depth.last_update_id == p.last_update_id
                    &&& final(self).depth.time == p.time
                },
                DepthUpdate::Diff(p) => {
                    &&& final(self).depth.bids@ == apply_orders(old(self).depth.bids@, p.bids@)
                    &&& final(self).depth.asks@ == apply_orders(old(self).depth.asks@, p.asks@)
                    &&& final(self).depth.last_update_id == p.last_update_id
                    &&& final(self).depth.time == p.time
                },
            },
    {
        match update {
            DepthUpdate::Snapshot(p) => {
                let mut bids: BTreeMap<i64, i64> = BTreeMap::new();
                let mut asks: BTreeMap<i64, i64> = BTreeMap::new();
                apply_side(&mut bids, &p.bids);
                apply_side(&mut asks, &p.asks);
                self.depth = Depth { last_update_id: p.last_update_id, time: p.time, bids, asks };
            },
            DepthUpdate::Diff(p) => {
                apply_side(&mut self.depth.bids, &p.bids);
                apply_side(&mut self.depth.asks, &p.asks);
                self.depth.last_update_id = p.last_update_id;
                self.depth.time = p.time;
            },
        }
    }
}

proof fn lemma_apply_concat(m: Map<i64, i64>, a: Seq<Order>, b: Seq<Order>)
    ensures
        apply_orders(m, a + b) == apply_orders(apply_orders(m, a), b),
    decreases b.len(),
{
    if b.len() == 0 {
        assert(a + b =~= a);
    } else {
        lemma_apply_concat(m, a, b.drop_last());
        assert((a + b).drop_last() =~= a + b.drop_last());
    }
}

proof fn lemma_side_after_concat(snapshot: Seq<Order>, diffs: Seq<Seq<Order>>)
    ensures
        side_after(snapshot, diffs) == apply_orders(Map::empty(), snapshot + concat_all(diffs)),
    decreases diffs.len(),
{
    if diffs.len() == 0 {
        assert(snapshot + concat_all(diffs) =~= snapshot);
    } else {
        lemma_side_after_concat(snapshot, diffs.drop_last());
        lemma_apply_concat(Map::empty(), snapshot + concat_all(diffs.drop_last()), diffs.last());
        assert(snapshot + concat_all(diffs) =~= (snapshot + concat_all(diffs.drop_last())) + diffs.last());
    }
}

proof fn lemma_apply_from_empty(orders: Seq<Order>, p: i64)
    ensures
        apply_orders(Map::empty(), orders).contains_key(p) == (latest_qty(orders, p) matches Some(q) && q != 0),
        apply_orders(Map::empty(), orders).contains_key(p) ==> latest_qty(orders, p) == Some(apply_orders(Map::empty(), orders)[p]),
    decreases orders.len(),
{
    if orders.len() > 0 {
        lemma_apply_from_empty(orders.drop_last(), p);
    }
}

/// After a snapshot and then diffs applied in order, a price level is present exactly where
/// some order of the snapshot or of a diff names it and the latest such order has a nonzero
/// quantity; the level then holds that quantity.
pub proof fn lemma_levels_after_snapshot_and_diffs(snapshot: Seq<Order>, diffs: Seq<Seq<Order>>, p: i64)
    ensures
        ({
            let all = snapshot + concat_all(diffs);
            let side = side_after(snapshot, diffs);
            &&& side.contains_key(p) == (latest_qty(all, p) matches Some(q) && q != 0)
            &&& side.contains_key(p) ==> latest_qty(all, p) == Some(side[p])
        }),
{
    lemma_side_after_concat(snapshot, diffs);
    lemma_apply_from_empty(snapshot + concat_all(diffs), p);
}

} // verus!

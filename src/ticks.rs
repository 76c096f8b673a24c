//! Tick-count aggregation: datapoints that close after a fixed number of trades.
use vstd::prelude::*;
use crate::footprint::{
    ClusterKind, GroupedTrades, KlineTrades, NPoc, add_to_levels, bucket_of, bumped, levels_on_step, max_metric_within,
    poc_matches, sum_buy, sum_sell, lemma_add_keeps_step, lemma_bucket_on_step,
};
use crate::market::{Kline, Trade, MAX_PRICE_UNITS, MAX_TRADE_QTY};
use crate::price::{Price, PriceStep, ceil_units, floor_units, lemma_round_in_range};

verus! {

/// Most trades one datapoint holds, on either basis.
pub const MAX_DATAPOINT_TRADES: usize = 4_294_967_295;

/// Number of trades per datapoint.
#[derive(Debug, Clone, Copy, PartialEq, Eq, Hash, Structural)]
pub struct TickCount(pub u16);

/// Trades a datapoint holds once full: the interval, and at least one.
pub open spec fn capacity(n: u16) -> int {
    if n == 0 {
        1
    } else {
        n as int
    }
}

/// The candle that a first trade opens.
pub open spec fn opening_kline(t: Trade) -> Kline {
    Kline {
        time: t.time,
        open: t.price,
        high: t.price,
        low: t.price,
        close: t.price,
        volume: if t.is_sell { (0i128, t.qty as i128) } else { (t.qty as i128, 0i128) },
    }
}

/// The candle after one more trade: range widened to its price, close moved to it, its
/// quantity added to its side.
pub open spec fn kline_after(k: Kline, t: Trade) -> Kline {
    Kline {
        time: k.time,
        open: k.open,
        high: if t.price.units > k.high.units { t.price } else { k.high },
        low: if t.price.units < k.low.units { t.price } else { k.low },
        close: t.price,
        volume: if t.is_sell {
            (k.volume.0, (k.volume.1 + t.qty) as i128)
        } else {
            ((k.volume.0 + t.qty) as i128, k.volume.1)
        },
    }
}

/// What aggregation decides of a datapoint: its trade count, candle and footprint levels.
pub open spec fn shape(dp: TickAccumulation) -> (int, Kline, Seq<(Price, GroupedTrades)>) {
    (dp.tick_count as int, dp.kline, dp.footprint.trades@)
}

pub open spec fn shapes(dps: Seq<TickAccumulation>) -> Seq<(int, Kline, Seq<(Price, GroupedTrades)>)> {
    Seq::new(dps.len(), |i: int| shape(dps[i]))
}

/// One trade absorbed: it opens a datapoint where there is none or the last one holds
/// `interval` trades, else it joins the last one.
pub open spec fn absorb(
    sh: Seq<(int, Kline, Seq<(Price, GroupedTrades)>)>,
    t: Trade,
    interval: u16,
    step: PriceStep,
) -> Seq<(int, Kline, Seq<(Price, GroupedTrades)>)> {
    if sh.len() == 0 || sh.last().0 >= interval {
        sh.push((1, opening_kline(t), seq![(bucket_of(t, step), bumped(GroupedTrades { buy_qty: 0, sell_qty: 0 }, t))]))
    } else {
        let l = sh.last();
        sh.update(sh.len() - 1, (l.0 + 1, kline_after(l.1, t), add_to_levels(l.2, bucket_of(t, step), t)))
    }
}

/// The datapoints after absorbing `trades` in order.
pub open spec fn aggregate(
    sh: Seq<(int, Kline, Seq<(Price, GroupedTrades)>)>,
    trades: Seq<Trade>,
    interval: u16,
    step: PriceStep,
) -> Seq<(int, Kline, Seq<(Price, GroupedTrades)>)>
    decreases trades.len(),
{
    if trades.len() == 0 {
        sh
    } else {
        absorb(aggregate(sh, trades.drop_last(), interval, step), trades.last(), interval, step)
    }
}

#[derive(Debug, Clone)]
pub struct TickAccumulation {
    pub tick_count: usize,
    pub kline: Kline,
    pub footprint: KlineTrades,
}

impl TickAccumulation {
    /// The footprint adds up to the candle's volume, and the candle's range holds its prices.
    pub open spec fn wf(self) -> bool {
        let s = self.footprint.trades@;
        &&& self.footprint.wf()
        &&& 1 <= self.tick_count <= MAX_DATAPOINT_TRADES
        &&& self.kline.volume.0 == sum_buy(s)
        &&& self.kline.volume.1 == sum_sell(s)
        &&& sum_buy(s) + sum_sell(s) <= self.tick_count * MAX_TRADE_QTY
        &&& -MAX_PRICE_UNITS <= self.kline.low.units <= self.kline.high.units <= MAX_PRICE_UNITS
    }

    /// Opens a datapoint with one trade.
    pub fn new(trade: &Trade, step: PriceStep) -> (r: Self)
        requires
            trade.wf(),
            0 < step.units <= MAX_PRICE_UNITS,
        ensures
            r.wf(),
            r.tick_count == 1,
            r.kline == opening_kline(*trade),
            r.footprint.trades@ == seq![(bucket_of(*trade, step), bumped(GroupedTrades { buy_qty: 0, sell_qty: 0 }, *trade))],
            r.footprint.poc.is_none(),
    {
        let mut footprint = KlineTrades::new();
        footprint.add_trade_to_nearest_bin(trade, step);
        let kline = Kline {
            time: trade.time,
            open: trade.price,
            high: trade.price,
            low: trade.price,
            close: trade.price,
            volume: if trade.is_sell { (0, trade.qty as i128) } else { (trade.qty as i128, 0) },
        };
        proof {
            let s = footprint.trades@;
            assert(s.drop_last().len() == 0);
        }
        TickAccumulation { tick_count: 1, kline, footprint }
    }

    /// Adds one trade: widens the range, moves the close, adds the volume to its side.
    pub fn update_with_trade(&mut self, trade: &Trade, step: PriceStep)
        requires
            old(self).wf(),
            old(self).tick_count < MAX_DATAPOINT_TRADES,
            trade.wf(),
            0 < step.units <= MAX_PRICE_UNITS,
        ensures
            final(self).wf(),
            final(self).tick_count == old(self).tick_count + 1,
            final(self).kline == kline_after(old(self).kline, *trade),
            sum_buy(final(self).footprint.trades@) == final(self).kline.volume.0
                == old(self).kline.volume.0 + (if trade.is_sell { 0 } else { trade.qty as int }),
            sum_sell(final(self).footprint.trades@) == final(self).kline.volume.1
                == old(self).kline.volume.1 + (if trade.is_sell { trade.qty as int } else { 0 }),
            final(self).footprint.trades@ == add_to_levels(old(self).footprint.trades@, bucket_of(*trade, step), *trade),
            final(self).footprint.poc == old(self).footprint.poc,
    {
        proof {
            crate::footprint::lemma_sums_nonneg(self.footprint.trades@);
        }
        self.tick_count = self.tick_count + 1;
        if trade.price.units > self.kline.high.units {
            self.kline.high = trade.price;
        }
        if trade.price.units < self.kline.low.units {
            self.kline.low = trade.price;
        }
        self.kline.close = trade.price;
        if trade.is_sell {
            self.kline.volume.1 = self.kline.volume.1 + trade.qty as i128;
        } else {
            self.kline.volume.0 = self.kline.volume.0 + trade.qty as i128;
        }
        self.footprint.add_trade_to_nearest_bin(trade, step);
    }

    /// Largest metric under `cluster_kind` among the footprint levels within `[lowest, highest]`.
    pub fn max_cluster_qty(&self, cluster_kind: ClusterKind, highest: Price, lowest: Price) -> (r: i128)
        requires
            self.wf(),
        ensures
            r == max_metric_within(self.footprint.trades@, cluster_kind, highest.units as int, lowest.units as int),
    {
        self.footprint.max_qty_by(highest, lowest, cluster_kind)
    }

    pub fn is_full(&self, interval: TickCount) -> (r: bool)
        ensures
            r == (self.tick_count >= interval.0),
    {
        self.tick_count >= interval.0 as usize
    }

    pub fn poc_price(&self) -> (r: Option<Price>)
        ensures
            r == (match self.footprint.poc { Some(p) => Some(p.price), None => None }),
    {
        self.footprint.poc_price()
    }

    pub fn set_poc_status(&mut self, status: NPoc)
        ensures
            final(self).tick_count == old(self).tick_count,
            final(self).kline == old(self).kline,
            final(self).footprint.trades == old(self).footprint.trades,
            final(self).footprint.poc == (match old(self).footprint.poc {
                Some(p) => Some(crate::footprint::PointOfControl { status, ..p }),
                None => None,
            }),
    {
        self.footprint.set_poc_status(status);
    }

    pub fn calculate_poc(&mut self)
        requires
            old(self).wf(),
        ensures
            final(self).wf(),
            final(self).tick_count == old(self).tick_count,
            final(self).kline == old(self).kline,
            final(self).footprint.trades == old(self).footprint.trades,
            poc_matches(final(self).footprint.poc, final(self).footprint.trades@),
            final(self).footprint.poc matches Some(p) ==> p.status == NPoc::Unresolved,
    {
        self.footprint.calculate_poc();
    }
}

/// Whether the range of `dp`, floored and ceiled to `step`, reaches `p`.
pub open spec fn covers(dp: TickAccumulation, p: Price, step: PriceStep) -> bool {
    floor_units(dp.kline.low.units as int, step.units as int) <= p.units
        && p.units <= ceil_units(dp.kline.high.units as int, step.units as int)
}

/// The first datapoint from index `j` on whose range reaches `p`.
pub open spec fn first_cover(dps: Seq<TickAccumulation>, p: Price, step: PriceStep, j: int) -> NPoc
    decreases dps.len() - j,
{
    if j < 0 || j >= dps.len() {
        NPoc::Naked
    } else if covers(dps[j], p, step) {
        NPoc::Filled { at: j as u64 }
    } else {
        first_cover(dps, p, step, j + 1)
    }
}

/// The status owed to the point of control of datapoint `i`: unresolved while no later
/// datapoint exists, filled at the first later one whose range reaches it, else naked.
pub open spec fn npoc_status(dps: Seq<TickAccumulation>, i: int, step: PriceStep) -> NPoc {
    if i + 1 >= dps.len() {
        NPoc::Unresolved
    } else {
        match dps[i].footprint.poc {
            Some(p) => first_cover(dps, p.price, step, i + 1),
            None => NPoc::Unresolved,
        }
    }
}

/// The point of control of datapoint `i`, if any, carries the status that `npoc_status` gives.
pub open spec fn status_ok(dps: Seq<TickAccumulation>, i: int, step: PriceStep) -> bool {
    match dps[i].footprint.poc {
        Some(p) => p.status == npoc_status(dps, i, step),
        None => true,
    }
}

pub open spec fn total_ticks(dps: Seq<TickAccumulation>) -> int
    decreases dps.len(),
{
    if dps.len() == 0 {
        0
    } else {
        total_ticks(dps.drop_last()) + dps.last().tick_count
    }
}

pub struct TickAggr {
    pub datapoints: Vec<TickAccumulation>,
    pub interval: TickCount,
    pub tick_size: PriceStep,
}

/// What a datapoint keeps while statuses are recomputed: all but the status of its point of control.
pub open spec fn same_but_status(a: TickAccumulation, b: TickAccumulation) -> bool {
    &&& a.tick_count == b.tick_count
    &&& a.kline == b.kline
    &&& a.footprint.trades == b.footprint.trades
    &&& match (a.footprint.poc, b.footprint.poc) {
        (Some(p), Some(q)) => p.price == q.price && p.volume == q.volume,
        (None, None) => true,
        _ => false,
    }
}

proof fn lemma_first_cover_same(a: Seq<TickAccumulation>, b: Seq<TickAccumulation>, p: Price, step: PriceStep, j: int)
    requires
        a.len() == b.len(),
        forall|k: int| 0 <= k < a.len() ==> (#[trigger] a[k]).kline == b[k].kline,
    ensures
        first_cover(a, p, step, j) == first_cover(b, p, step, j),
    decreases a.len() - j,
{
    if 0 <= j < a.len() {
        lemma_first_cover_same(a, b, p, step, j + 1);
    }
}

proof fn lemma_first_cover_skip(dps: Seq<TickAccumulation>, p: Price, step: PriceStep, j0: int, j: int)
    requires
        0 <= j0 <= j,
        forall|k: int| j0 <= k < j && k < dps.len() ==> !covers(#[trigger] dps[k], p, step),
    ensures
        first_cover(dps, p, step, j0) == first_cover(dps, p, step, j),
    decreases j - j0,
{
    if j0 < j && j0 < dps.len() {
        lemma_first_cover_skip(dps, p, step, j0 + 1, j);
    }
}

proof fn lemma_total_ticks_same(a: Seq<TickAccumulation>, b: Seq<TickAccumulation>)
    requires
        a.len() == b.len(),
        forall|k: int| 0 <= k < a.len() ==> (#[trigger] a[k]).tick_count == b[k].tick_count,
    ensures
        total_ticks(a) == total_ticks(b),
    decreases a.len(),
{
    if a.len() > 0 {
        lemma_total_ticks_same(a.drop_last(), b.drop_last());
    }
}

impl TickAggr {
    /// Everything of `wf` but the statuses of the points of control.
    pub open spec fn wf_shape(self) -> bool {
        let dps = self.datapoints@;
        &&& 0 < self.tick_size.units <= MAX_PRICE_UNITS
        &&& forall|i: int| 0 <= i < dps.len() ==> (#[trigger] dps[i]).wf()
        &&& forall|i: int| 0 <= i < dps.len() ==> (#[trigger] dps[i]).tick_count <= capacity(self.interval.0)
        &&& forall|i: int| 0 <= i < dps.len() - 1 ==> (#[trigger] dps[i]).tick_count == capacity(self.interval.0)
        &&& forall|i: int| 0 <= i < dps.len() ==> poc_matches((#[trigger] dps[i]).footprint.poc, dps[i].footprint.trades@)
        &&& forall|i: int| 0 <= i < dps.len() ==> levels_on_step((#[trigger] dps[i]).footprint.trades@, self.tick_size)
    }

    /// Every datapoint but the last is full, footprints add up to their candles, and each point
    /// of control carries the status that `npoc_status` gives.
    pub open spec fn wf(self) -> bool {
        &&& self.wf_shape()
        &&& forall|i: int| 0 <= i < self.datapoints@.len() ==> #[trigger] status_ok(self.datapoints@, i, self.tick_size)
    }

    /// What insertion keeps of an earlier state: datapoints before the last are untouched and
    /// the range of the last one can only widen.
    pub open spec fn grows_from(self, prev: TickAggr) -> bool {
        let a = prev.datapoints@;
        let b = self.datapoints@;
        &&& self.interval == prev.interval
        &&& self.tick_size == prev.tick_size
        &&& a.len() <= b.len()
        &&& forall|i: int| 0 <= i < a.len() - 1 ==> same_but_status(#[trigger] a[i], b[i])
        &&& a.len() > 0 ==> {
            &&& b[a.len() - 1].kline.low.units <= a[a.len() - 1].kline.low.units
            &&& b[a.len() - 1].kline.high.units >= a[a.len() - 1].kline.high.units
        }
    }

    pub fn new(interval: TickCount, tick_size: PriceStep, raw_trades: &[Trade]) -> (r: Self)
        requires
            0 < tick_size.units <= MAX_PRICE_UNITS,
            forall|i: int| 0 <= i < raw_trades@.len() ==> (#[trigger] raw_trades@[i]).wf(),
        ensures
            r.wf(),
            r.interval == interval,
            r.tick_size == tick_size,
            shapes(r.datapoints@) == aggregate(Seq::empty(), raw_trades@, interval.0, tick_size),
            total_ticks(r.datapoints@) == raw_trades@.len(),
    {
        let mut tick_aggr = TickAggr { datapoints: Vec::new(), interval, tick_size };
        assert(shapes(tick_aggr.datapoints@) =~= Seq::empty());
        tick_aggr.insert_trades(raw_trades);
        tick_aggr
    }

    /// Discards every datapoint and aggregates `raw_trades` again under a new step.
    pub fn change_tick_size(&mut self, tick_size: PriceStep, raw_trades: &[Trade])
        requires
            0 < tick_size.units <= MAX_PRICE_UNITS,
            forall|i: int| 0 <= i < raw_trades@.len() ==> (#[trigger] raw_trades@[i]).wf(),
        ensures
            final(self).wf(),
            final(self).interval == old(self).interval,
            final(self).tick_size == tick_size,
            shapes(final(self).datapoints@) == aggregate(Seq::empty(), raw_trades@, old(self).interval.0, tick_size),
            total_ticks(final(self).datapoints@) == raw_trades@.len(),
    {
        self.tick_size = tick_size;
        self.datapoints.clear();
        assert(shapes(self.datapoints@) =~= Seq::empty());
        self.insert_trades(raw_trades);
    }

    /// The latest datapoint and its index.
    pub fn latest_dp(&self) -> (r: Option<(&TickAccumulation, usize)>)
        ensures
            r.is_none() == (self.datapoints@.len() == 0),
            r matches Some((dp, i)) ==> i == self.datapoints@.len() - 1 && *dp == self.datapoints@[i as int],
    {
        let n = self.datapoints.len();
        if n == 0 {
            None
        } else {
            Some((&self.datapoints[n - 1], n - 1))
        }
    }

    /// Absorbs trades in order: each one joins the open datapoint, or opens a new one where
    /// there is none or it is full. Then the points of control of the datapoints that changed
    /// are recomputed, and every status is set again.
    pub fn insert_trades(&mut self, buffer: &[Trade])
        requires
            old(self).wf(),
            forall|i: int| 0 <= i < buffer@.len() ==> (#[trigger] buffer@[i]).wf(),
        ensures
            final(self).wf(),
            final(self).grows_from(*old(self)),
            shapes(final(self).datapoints@) == aggregate(shapes(old(self).datapoints@), buffer@, old(self).interval.0, old(self).tick_size),
            total_ticks(final(self).datapoints@) == total_ticks(old(self).datapoints@) + buffer@.len(),
    {
        let ghost prev = self.datapoints@;
        let old_len = self.datapoints.len();
        let start: usize = if old_len == 0 { 0 } else { old_len - 1 };
        let n = buffer.len();
        let mut k: usize = 0;
        while k < n
            invariant
                self.interval == old(self).interval,
                self.tick_size == old(self).tick_size,
                0 < self.tick_size.units <= MAX_PRICE_UNITS,
                n == buffer@.len(),
                k <= n,
                forall|i: int| 0 <= i < buffer@.len() ==> (#[trigger] buffer@[i]).wf(),
                prev == old(self).datapoints@,
                old_len == prev.len(),
                start == (if old_len == 0 { 0 } else { old_len - 1 }),
                self.datapoints@.len() >= old_len,
                forall|i: int| 0 <= i < self.datapoints@.len() ==> (#[trigger] self.datapoints@[i]).wf(),
                forall|i: int| 0 <= i < self.datapoints@.len() ==> (#[trigger] self.datapoints@[i]).tick_count <= capacity(self.interval.0),
                forall|i: int| 0 <= i < self.datapoints@.len() - 1 ==> (#[trigger] self.datapoints@[i]).tick_count == capacity(self.interval.0),
                forall|i: int| 0 <= i < start ==> #[trigger] self.datapoints@[i] == prev[i],
                old_len > 0 ==> self.datapoints@[start as int].kline.low.units <= prev[start as int].kline.low.units,
                old_len > 0 ==> self.datapoints@[start as int].kline.high.units >= prev[start as int].kline.high.units,
                total_ticks(self.datapoints@) == total_ticks(prev) + k,
                shapes(self.datapoints@) == aggregate(shapes(prev), buffer@.subrange(0, k as int), self.interval.0, self.tick_size),
                forall|i: int| 0 <= i < self.datapoints@.len() ==> levels_on_step((#[trigger] self.datapoints@[i]).footprint.trades@, self.tick_size),
            decreases n - k,
        {
            let trade = buffer[k];
            let len = self.datapoints.len();
            let ghost before = self.datapoints@;
            proof {
                let sub = buffer@.subrange(0, k as int + 1);
                assert(sub.drop_last() =~= buffer@.subrange(0, k as int));
                assert(sub.last() == trade);
                assert(buffer@[k as int].wf());
                lemma_bucket_on_step(trade, self.tick_size);
            }
            if len == 0 || self.datapoints[len - 1].is_full(self.interval) {
                let dp = TickAccumulation::new(&trade, self.tick_size);
                self.datapoints.push(dp);
                proof {
                    assert(self.datapoints@.drop_last() =~= before);
                    assert(shapes(self.datapoints@) =~= absorb(shapes(before), trade, self.interval.0, self.tick_size));
                    let last = self.datapoints@[self.datapoints@.len() - 1].footprint.trades@;
                    assert forall|j: int| 0 <= j < last.len() implies (#[trigger] last[j]).0.units % self.tick_size.units == 0 by {
                        assert(last[j].0 == bucket_of(trade, self.tick_size));
                    }
                }
            } else {
                self.datapoints[len - 1].update_with_trade(&trade, self.tick_size);
                proof {
                    assert(self.datapoints@.drop_last() =~= before.drop_last());
                    assert(shapes(self.datapoints@) =~= absorb(shapes(before), trade, self.interval.0, self.tick_size));
                    lemma_add_keeps_step(before[len - 1].footprint.trades@, bucket_of(trade, self.tick_size), trade, self.tick_size);
                }
            }
            k = k + 1;
        }
        proof {
            assert(buffer@.subrange(0, n as int) =~= buffer@);
        }
        let ghost aggregated = self.datapoints@;
        let len = self.datapoints.len();
        let mut i: usize = start;
        while i < len
            invariant
                self.interval == old(self).interval,
                self.tick_size == old(self).tick_size,
                0 < self.tick_size.units <= MAX_PRICE_UNITS,
                prev == old(self).datapoints@,
                old(self).wf(),
                old_len == prev.len(),
                start == (if old_len == 0 { 0 } else { old_len - 1 }),
                start <= i <= len,
                len == self.datapoints@.len(),
                len >= old_len,
                forall|j: int| 0 <= j < len ==> (#[trigger] self.datapoints@[j]).wf(),
                forall|j: int| 0 <= j < len ==> (#[trigger] self.datapoints@[j]).tick_count <= capacity(self.interval.0),
                forall|j: int| 0 <= j < len - 1 ==> (#[trigger] self.datapoints@[j]).tick_count == capacity(self.interval.0),
                forall|j: int| 0 <= j < start ==> #[trigger] self.datapoints@[j] == prev[j],
                forall|j: int| start <= j < i ==> poc_matches((#[trigger] self.datapoints@[j]).footprint.poc, self.datapoints@[j].footprint.trades@),
                old_len > 0 ==> self.datapoints@[start as int].kline.low.units <= prev[start as int].kline.low.units,
                old_len > 0 ==> self.datapoints@[start as int].kline.high.units >= prev[start as int].kline.high.units,
                total_ticks(self.datapoints@) == total_ticks(prev) + n,
                shapes(self.datapoints@) == shapes(aggregated),
                forall|j: int| 0 <= j < len ==> levels_on_step((#[trigger] self.datapoints@[j]).footprint.trades@, self.tick_size),
            decreases len - i,
        {
            let ghost before = self.datapoints@;
            self.datapoints[i].calculate_poc();
            proof {
                assert(shapes(self.datapoints@) =~= shapes(before));
            }
            proof {
                assert(self.datapoints@.drop_last().len() == before.drop_last().len());
                if (i as int) < len - 1 {
                    assert(self.datapoints@.drop_last() =~= before.drop_last().update(i as int, self.datapoints@[i as int]));
                    lemma_total_ticks_same(before.drop_last(), self.datapoints@.drop_last());
                } else {
                    assert(self.datapoints@.drop_last() =~= before.drop_last());
                }
            }
            i = i + 1;
        }
        proof {
            assert forall|j: int| 0 <= j < len implies poc_matches((#[trigger] self.datapoints@[j]).footprint.poc, self.datapoints@[j].footprint.trades@) by {
                if j < start {
                    assert(self.datapoints@[j] == prev[j]);
                }
            }
        }
        let ghost mid = self.datapoints@;
        self.update_poc_status();
        proof {
            assert(shapes(self.datapoints@) =~= shapes(mid));
            lemma_total_ticks_same(mid, self.datapoints@);
            assert forall|j: int| 0 <= j < prev.len() - 1 implies same_but_status(#[trigger] prev[j], self.datapoints@[j]) by {
                assert(mid[j] == prev[j]);
            }
        }
    }

    /// Sets the status of every point of control: filled at the first later datapoint whose
    /// range, floored and ceiled to the step, reaches its price; naked where none does.
    pub fn update_poc_status(&mut self)
        requires
            old(self).wf_shape(),
        ensures
            final(self).wf(),
            final(self).interval == old(self).interval,
            final(self).tick_size == old(self).tick_size,
            final(self).datapoints@.len() == old(self).datapoints@.len(),
            forall|i: int| 0 <= i < old(self).datapoints@.len() ==> same_but_status(#[trigger] old(self).datapoints@[i], final(self).datapoints@[i]),
    {
        let ghost orig = self.datapoints@;
        let total = self.datapoints.len();
        let step = self.tick_size;
        let mut i: usize = 0;
        while i < total
            invariant
                old(self).wf_shape(),
                orig == old(self).datapoints@,
                self.interval == old(self).interval,
                self.tick_size == old(self).tick_size,
                step == self.tick_size,
                total == self.datapoints@.len(),
                total == orig.len(),
                i <= total,
                forall|j: int| 0 <= j < total ==> same_but_status(#[trigger] orig[j], self.datapoints@[j]),
                forall|j: int| 0 <= j < total ==> (#[trigger] self.datapoints@[j]).wf(),
                forall|j: int| 0 <= j < i ==> (match (#[trigger] self.datapoints@[j]).footprint.poc {
                    Some(p) => p.status == npoc_status(orig, j, step),
                    None => true,
                }),
            decreases total - i,
        {
            match self.datapoints[i].poc_price() {
                Some(poc_price) => {
                    let mut npoc = NPoc::Unresolved;
                    let mut next: usize = i + 1;
                    let mut found = false;
                    while next < total && !found
                        invariant
                            orig == old(self).datapoints@,
                            old(self).wf_shape(),
                            step == old(self).tick_size,
                            total == self.datapoints@.len(),
                            total == orig.len(),
                            i < total,
                            i + 1 <= next <= total,
                            forall|j: int| 0 <= j < total ==> same_but_status(#[trigger] orig[j], self.datapoints@[j]),
                            !found ==> forall|k: int| i + 1 <= k < next ==> !covers(#[trigger] orig[k], poc_price, step),
                            !found ==> npoc == (if next == i + 1 { NPoc::Unresolved } else { NPoc::Naked }),
                            found ==> next < total && npoc == (NPoc::Filled { at: next as u64 }) && covers(orig[next as int], poc_price, step)
                                && forall|k: int| i + 1 <= k < next ==> !covers(#[trigger] orig[k], poc_price, step),
                        decreases 2 * (total - next) + (if found { 0int } else { 1int }),
                    {
                        let dp_low = self.datapoints[next].kline.low;
                        let dp_high = self.datapoints[next].kline.high;
                        proof {
                            assert(orig[next as int].wf());
                            lemma_round_in_range(dp_low.units as int, step.units as int);
                        }
                        let next_dp_low = dp_low.round_to_side_step(true, step);
                        let next_dp_high = dp_high.round_to_side_step(false, step);
                        if next_dp_low.units <= poc_price.units && next_dp_high.units >= poc_price.units {
                            npoc.filled(next as u64);
                            found = true;
                        } else {
                            npoc.unfilled();
                            next = next + 1;
                        }
                    }
                    proof {
                        let p = orig[i as int].footprint.poc.unwrap();
                        assert(p.price == poc_price);
                        if found {
                            lemma_first_cover_skip(orig, poc_price, step, i + 1, next as int);
                        } else if next > i + 1 {
                            lemma_first_cover_skip(orig, poc_price, step, i + 1, next as int);
                        }
                    }
                    self.datapoints[i].set_poc_status(npoc);
                },
                None => {},
            }
            i = i + 1;
        }
        proof {
            let dps = self.datapoints@;
            assert forall|j: int| 0 <= j < total implies #[trigger] status_ok(dps, j, step) by {
                assert(same_but_status(orig[j], dps[j]));
                assert forall|k: int| 0 <= k < orig.len() implies (#[trigger] orig[k]).kline == dps[k].kline by {
                    assert(same_but_status(orig[k], dps[k]));
                }
                match dps[j].footprint.poc {
                    Some(p) => {
                        let q = orig[j].footprint.poc.unwrap();
                        lemma_first_cover_same(orig, dps, q.price, step, j + 1);
                    },
                    None => {},
                }
            }
            assert forall|j: int| 0 <= j < total implies poc_matches((#[trigger] dps[j]).footprint.poc, dps[j].footprint.trades@) by {
                assert(same_but_status(orig[j], dps[j]));
                assert(poc_matches(orig[j].footprint.poc, orig[j].footprint.trades@));
            }
        }
    }

    /// `(index, (buy, sell))` of every datapoint, in order.
    pub fn volume_data(&self) -> (r: Vec<(u64, (i128, i128))>)
        ensures
            r@.len() == self.datapoints@.len(),
            forall|i: int| 0 <= i < r@.len() ==> #[trigger] r@[i] == (i as u64, self.datapoints@[i].kline.volume),
    {
        let n = self.datapoints.len();
        let mut r: Vec<(u64, (i128, i128))> = Vec::new();
        let mut i: usize = 0;
        while i < n
            invariant
                n == self.datapoints@.len(),
                i <= n,
                r@.len() == i,
                forall|j: int| 0 <= j < i ==> #[trigger] r@[j] == (j as u64, self.datapoints@[j].kline.volume),
            decreases n - i,
        {
            r.push((i as u64, self.datapoints[i].kline.volume));
            i = i + 1;
        }
        r
    }
}

/// Reversed index `r` (0 is the latest datapoint) lies in `[earliest, latest]`.
pub open spec fn in_window(r: int, earliest: int, latest: int) -> bool {
    earliest <= r <= latest
}

/// Least low over the datapoints at reversed indices below `k` that lie in the window.
pub open spec fn window_min_low(dps: Seq<TickAccumulation>, earliest: int, latest: int, k: int) -> Option<int>
    decreases k,
{
    if k <= 0 {
        None
    } else {
        let rest = window_min_low(dps, earliest, latest, k - 1);
        let v = dps[dps.len() - k].kline.low.units as int;
        if in_window(k - 1, earliest, latest) {
            match rest {
                Some(m) => Some(if v < m { v } else { m }),
                None => Some(v),
            }
        } else {
            rest
        }
    }
}

/// Greatest high over the datapoints at reversed indices below `k` that lie in the window.
pub open spec fn window_max_high(dps: Seq<TickAccumulation>, earliest: int, latest: int, k: int) -> Option<int>
    decreases k,
{
    if k <= 0 {
        None
    } else {
        let rest = window_max_high(dps, earliest, latest, k - 1);
        let v = dps[dps.len() - k].kline.high.units as int;
        if in_window(k - 1, earliest, latest) {
            match rest {
                Some(m) => Some(if v > m { v } else { m }),
                None => Some(v),
            }
        } else {
            rest
        }
    }
}

/// Greatest cluster metric over the datapoints at reversed indices below `k` in the window, or 0.
pub open spec fn window_max_cluster(
    dps: Seq<TickAccumulation>,
    kind: ClusterKind,
    earliest: int,
    latest: int,
    highest: int,
    lowest: int,
    k: int,
) -> int
    decreases k,
{
    if k <= 0 {
        0
    } else {
        let rest = window_max_cluster(dps, kind, earliest, latest, highest, lowest, k - 1);
        let v = max_metric_within(dps[dps.len() - k].footprint.trades@, kind, highest, lowest);
        if in_window(k - 1, earliest, latest) && v > rest {
            v
        } else {
            rest
        }
    }
}

pub proof fn lemma_window_some(dps: Seq<TickAccumulation>, earliest: int, latest: int, k: int)
    requires
        0 <= k <= dps.len(),
        0 <= earliest,
    ensures
        window_min_low(dps, earliest, latest, k).is_some() == (earliest <= latest && earliest < k),
        window_max_high(dps, earliest, latest, k).is_some() == (earliest <= latest && earliest < k),
    decreases k,
{
    if k > 0 {
        lemma_window_some(dps, earliest, latest, k - 1);
    }
}

/// Reversed indices past the last datapoint change nothing in a window.
pub proof fn lemma_window_clamp(dps: Seq<TickAccumulation>, earliest: int, latest: int, clamped: int, n: int)
    requires
        n == dps.len(),
        0 <= earliest < n,
        earliest <= latest,
        clamped == (if latest >= n { n } else { latest }),
    ensures
        window_min_low(dps, earliest, latest, n) == window_min_low(dps, earliest, clamped, n),
        window_max_high(dps, earliest, latest, n) == window_max_high(dps, earliest, clamped, n),
{
    lemma_window_clamp_upto(dps, earliest, latest, clamped, n);
}

proof fn lemma_window_clamp_upto(dps: Seq<TickAccumulation>, earliest: int, latest: int, clamped: int, k: int)
    requires
        0 <= k <= dps.len(),
        clamped == (if latest >= dps.len() { dps.len() as int } else { latest }),
    ensures
        window_min_low(dps, earliest, latest, k) == window_min_low(dps, earliest, clamped, k),
        window_max_high(dps, earliest, latest, k) == window_max_high(dps, earliest, clamped, k),
    decreases k,
{
    if k > 0 {
        lemma_window_clamp_upto(dps, earliest, latest, clamped, k - 1);
    }
}

impl TickAggr {
    /// Least low and greatest high of the datapoints whose reversed index (0 for the latest)
    /// lies in `[earliest, latest]`; `None` where no datapoint does.
    pub fn min_max_price_in_range_prices(&self, earliest: usize, latest: usize) -> (r: Option<(Price, Price)>)
        ensures
            r.is_none() == (earliest > latest || earliest >= self.datapoints@.len()),
            r matches Some((lo, hi)) ==> {
                &&& window_min_low(self.datapoints@, earliest as int, latest as int, self.datapoints@.len() as int) == Some(lo.units as int)
                &&& window_max_high(self.datapoints@, earliest as int, latest as int, self.datapoints@.len() as int) == Some(hi.units as int)
            },
    {
        proof {
            lemma_window_some(self.datapoints@, earliest as int, latest as int, self.datapoints@.len() as int);
        }
        if earliest > latest {
            return None;
        }
        let n = self.datapoints.len();
        let mut min_p: Option<Price> = None;
        let mut max_p: Option<Price> = None;
        let mut k: usize = 0;
        while k < n
            invariant
                n == self.datapoints@.len(),
                k <= n,
                window_min_low(self.datapoints@, earliest as int, latest as int, k as int) == (match min_p {
                    Some(p) => Some(p.units as int),
                    None => None,
                }),
                window_max_high(self.datapoints@, earliest as int, latest as int, k as int) == (match max_p {
                    Some(p) => Some(p.units as int),
                    None => None,
                }),
            decreases n - k,
        {
            if earliest <= k && k <= latest {
                let dp = &self.datapoints[n - 1 - k];
                let low = dp.kline.low;
                let high = dp.kline.high;
                min_p = match min_p {
                    Some(m) => Some(if low.units < m.units { low } else { m }),
                    None => Some(low),
                };
                max_p = match max_p {
                    Some(m) => Some(if high.units > m.units { high } else { m }),
                    None => Some(high),
                };
            }
            k = k + 1;
        }
        match (min_p, max_p) {
            (Some(low), Some(high)) => Some((low, high)),
            _ => None,
        }
    }

    /// Greatest per-datapoint cluster metric over the datapoints whose reversed index lies in
    /// `[earliest, latest]`, counting only levels priced within `[lowest, highest]`; 0 where none.
    pub fn max_qty_idx_range(
        &self,
        cluster_kind: ClusterKind,
        earliest: usize,
        latest: usize,
        highest: Price,
        lowest: Price,
    ) -> (r: i128)
        requires
            self.wf(),
        ensures
            r == window_max_cluster(
                self.datapoints@,
                cluster_kind,
                earliest as int,
                latest as int,
                highest.units as int,
                lowest.units as int,
                self.datapoints@.len() as int,
            ),
    {
        let n = self.datapoints.len();
        let mut best: i128 = 0;
        let mut k: usize = 0;
        while k < n
            invariant
                self.wf(),
                n == self.datapoints@.len(),
                k <= n,
                best == window_max_cluster(
                    self.datapoints@,
                    cluster_kind,
                    earliest as int,
                    latest as int,
                    highest.units as int,
                    lowest.units as int,
                    k as int,
                ),
            decreases n - k,
        {
            if earliest <= k && k <= latest {
                let v = self.datapoints[n - 1 - k].max_cluster_qty(cluster_kind, highest, lowest);
                if v > best {
                    best = v;
                }
            }
            k = k + 1;
        }
        best
    }
}

/// In a tick aggregator of interval `N >= 1`, every datapoint but the latest holds exactly `N`
/// trades, and the latest at most `N`.
pub proof fn lemma_closed_datapoints_are_full(aggr: TickAggr)
    requires
        aggr.wf(),
        aggr.interval.0 >= 1,
    ensures
        forall|i: int| 0 <= i < aggr.datapoints@.len() - 1 ==> #[trigger] aggr.datapoints@[i].tick_count == aggr.interval.0,
        aggr.datapoints@.len() > 0 ==> 1 <= aggr.datapoints@.last().tick_count <= aggr.interval.0,
{
    let dps = aggr.datapoints@;
    if dps.len() > 0 {
        assert(dps[dps.len() - 1].wf());
    }
}

proof fn lemma_total_all_full(dps: Seq<TickAccumulation>, n: int)
    requires
        forall|i: int| 0 <= i < dps.len() ==> (#[trigger] dps[i]).tick_count == n,
    ensures
        total_ticks(dps) == n * dps.len(),
    decreases dps.len(),
{
    if dps.len() > 0 {
        lemma_total_all_full(dps.drop_last(), n);
        assert(n * dps.len() == n * (dps.len() - 1) + n) by (nonlinear_arith);
    }
}

/// With `N >= 1` trades per datapoint, `t` trades make `ceil(t / N)` datapoints, all of `N`
/// trades but the latest, which holds the rest.
pub proof fn lemma_datapoint_count(aggr: TickAggr)
    requires
        aggr.wf(),
        aggr.interval.0 >= 1,
    ensures
        ({
            let d = aggr.datapoints@;
            let n = aggr.interval.0 as int;
            let t = total_ticks(d);
            &&& d.len() == (t + n - 1) / n
            &&& d.len() > 0 ==> d.last().tick_count == t - n * (d.len() - 1)
        }),
{
    let d = aggr.datapoints@;
    let n = aggr.interval.0 as int;
    if d.len() == 0 {
        assert((n - 1) / n == 0) by (nonlinear_arith)
            requires n >= 1;
    } else {
        lemma_closed_datapoints_are_full(aggr);
        assert forall|i: int| 0 <= i < d.drop_last().len() implies (#[trigger] d.drop_last()[i]).tick_count == n by {
            assert(d.drop_last()[i] == d[i]);
        }
        lemma_total_all_full(d.drop_last(), n);
        let last = d.last().tick_count as int;
        let k = d.len() - 1;
        assert(total_ticks(d) == n * k + last);
        assert((n * k + last + n - 1) / n == k + 1) by (nonlinear_arith)
            requires n >= 1, 1 <= last <= n, k >= 0;
    }
}

/// The footprint of every datapoint adds up to its candle: buy quantities to the buy volume,
/// sell quantities to the sell volume.
pub proof fn lemma_footprint_sums_to_volume(aggr: TickAggr)
    requires
        aggr.wf(),
    ensures
        forall|i: int| 0 <= i < aggr.datapoints@.len() ==> {
            &&& sum_buy((#[trigger] aggr.datapoints@[i]).footprint.trades@) == aggr.datapoints@[i].kline.volume.0
            &&& sum_sell(aggr.datapoints@[i].footprint.trades@) == aggr.datapoints@[i].kline.volume.1
        },
{
    assert forall|i: int| 0 <= i < aggr.datapoints@.len() implies {
        &&& sum_buy((#[trigger] aggr.datapoints@[i]).footprint.trades@) == aggr.datapoints@[i].kline.volume.0
        &&& sum_sell(aggr.datapoints@[i].footprint.trades@) == aggr.datapoints@[i].kline.volume.1
    } by {
        assert(aggr.datapoints@[i].wf());
    }
}

proof fn lemma_filled_cover_kept(a: Seq<TickAccumulation>, b: Seq<TickAccumulation>, p: Price, step: PriceStep, j: int, at: u64)
    requires
        a.len() > 0,
        a.len() <= b.len(),
        0 <= j,
        forall|k: int| 0 <= k < a.len() - 1 ==> (#[trigger] a[k]).kline == b[k].kline,
        b[a.len() - 1].kline.low.units <= a[a.len() - 1].kline.low.units,
        b[a.len() - 1].kline.high.units >= a[a.len() - 1].kline.high.units,
        first_cover(a, p, step, j) == (NPoc::Filled { at }),
    ensures
        first_cover(b, p, step, j) == (NPoc::Filled { at }),
    decreases a.len() - j,
{
    let last = a.len() - 1;
    if covers(a[j], p, step) {
        if j == last {
            crate::price::lemma_floor_monotone(b[j].kline.low.units as int, a[j].kline.low.units as int, step.units as int);
            crate::price::lemma_ceil_monotone(a[j].kline.high.units as int, b[j].kline.high.units as int, step.units as int);
        }
    } else {
        if j == last {
            assert(first_cover(a, p, step, j + 1) == NPoc::Naked);
        }
        lemma_filled_cover_kept(a, b, p, step, j + 1, at);
    }
}

/// The datapoint's point of control is filled at index `at`.
pub open spec fn filled_at(dp: TickAccumulation, at: u64) -> bool {
    match dp.footprint.poc {
        Some(p) => p.status == (NPoc::Filled { at }),
        None => false,
    }
}

/// Once a point of control is filled, later insertions keep it filled at the same index.
pub proof fn lemma_filled_poc_stays_filled(prev: TickAggr, next: TickAggr)
    requires
        prev.wf(),
        next.wf(),
        next.grows_from(prev),
    ensures
        forall|i: int, at: u64| 0 <= i < prev.datapoints@.len() && #[trigger] filled_at(prev.datapoints@[i], at)
            ==> filled_at(next.datapoints@[i], at),
{
    let a = prev.datapoints@;
    let b = next.datapoints@;
    let step = prev.tick_size;
    assert forall|i: int, at: u64| 0 <= i < a.len() && #[trigger] filled_at(a[i], at) implies filled_at(b[i], at) by {
        assert(status_ok(a, i, step));
        let p = a[i].footprint.poc.unwrap();
        assert(i + 1 < a.len());
        assert(same_but_status(a[i], b[i]));
        assert forall|k: int| 0 <= k < a.len() - 1 implies (#[trigger] a[k]).kline == b[k].kline by {
            assert(same_but_status(a[k], b[k]));
        }
        lemma_filled_cover_kept(a, b, p.price, step, i + 1, at);
        assert(status_ok(b, i, step));
    }
}

} // verus!

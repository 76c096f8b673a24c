//! How chart data is aggregated along the x-axis, and how the y-axis follows it.
use vstd::prelude::*;
use crate::market::{Kline, Timeframe, Trade, MAX_PRICE_UNITS};
use crate::price::{Price, PriceStep};
use crate::ticks::{
    MAX_DATAPOINT_TRADES, TickAggr, TickCount, aggregate, shapes, total_ticks, window_max_high, window_min_low,
};
use crate::timeseries::{TimeSeries, has_time, stored_after};

verus! {

/// Aggregation of a chart's datapoints.
#[derive(Debug, Clone, Copy, PartialEq, Eq, Structural)]
pub enum Basis {
    /// Each datapoint spans a fixed interval of time.
    Time(Timeframe),
    /// Each datapoint holds a fixed number of trades.
    Tick(TickCount),
}

impl Basis {
    pub fn is_time(&self) -> (r: bool)
        ensures
            r == (*self matches Basis::Time(_)),
    {
        match self {
            Basis::Time(_) => true,
            Basis::Tick(_) => false,
        }
    }
}

/// How the price axis follows the data.
#[derive(Debug, Clone, Copy, PartialEq, Eq, Structural)]
pub enum Autoscale {
    CenterLatest,
    FitToVisible,
}

/// The datapoints a chart is drawn from.
pub enum PlotData {
    TimeBased(TimeSeries),
    TickBased(TickAggr),
}

pub open spec fn all_wf(trades: Seq<Trade>) -> bool {
    forall|i: int| 0 <= i < trades.len() ==> (#[trigger] trades[i]).wf()
}

/// The aggregation engine of one chart: its datapoints, the step they are bucketed by, and
/// every raw trade received, kept so that a new step or basis can rebuild the datapoints.
pub struct Aggregator {
    pub data_source: PlotData,
    pub raw_trades: Vec<Trade>,
    pub tick_size: PriceStep,
}

impl Aggregator {
    /// Datapoints agree with the step; a tick-based source is what aggregating the retained
    /// trades gives, and a time-based one holds every retained trade in its datapoints.
    pub open spec fn wf(self) -> bool {
        &&& 0 < self.tick_size.units <= MAX_PRICE_UNITS
        &&& all_wf(self.raw_trades@)
        &&& self.raw_trades@.len() <= MAX_DATAPOINT_TRADES
        &&& match self.data_source {
            PlotData::TickBased(a) => {
                &&& a.wf()
                &&& a.tick_size == self.tick_size
                &&& shapes(a.datapoints@) == aggregate(Seq::empty(), self.raw_trades@, a.interval.0, self.tick_size)
            },
            PlotData::TimeBased(ts) => ts.wf() && total_ticks(ts.datapoints@) == self.raw_trades@.len(),
        }
    }

    pub open spec fn basis(self) -> Basis {
        match self.data_source {
            PlotData::TickBased(a) => Basis::Tick(a.interval),
            PlotData::TimeBased(ts) => Basis::Time(ts.timeframe),
        }
    }

    /// A tick-based engine built from `raw_trades`.
    pub fn new_tick_based(interval: TickCount, tick_size: PriceStep, raw_trades: Vec<Trade>) -> (r: Self)
        requires
            0 < tick_size.units <= MAX_PRICE_UNITS,
            all_wf(raw_trades@),
            raw_trades@.len() <= MAX_DATAPOINT_TRADES,
        ensures
            r.wf(),
            r.raw_trades@ == raw_trades@,
            r.tick_size == tick_size,
            r.basis() == Basis::Tick(interval),
    {
        let aggr = TickAggr::new(interval, tick_size, raw_trades.as_slice());
        Aggregator { data_source: PlotData::TickBased(aggr), raw_trades, tick_size }
    }

    /// A time-based engine over candles of `timeframe`, with no trades yet.
    pub fn new_time_based(timeframe: Timeframe, tick_size: PriceStep) -> (r: Self)
        requires
            0 < tick_size.units <= MAX_PRICE_UNITS,
        ensures
            r.wf(),
            r.raw_trades@.len() == 0,
            r.tick_size == tick_size,
            r.basis() == Basis::Time(timeframe),
            r.data_source matches PlotData::TimeBased(ts) && ts.klines@.len() == 0,
    {
        assert(total_ticks(Seq::<crate::ticks::TickAccumulation>::empty()) == 0);
        Aggregator { data_source: PlotData::TimeBased(TimeSeries::new(timeframe)), raw_trades: Vec::new(), tick_size }
    }

    /// Retains the trades and adds them to the datapoints of either basis.
    pub fn insert_trades_buffer(&mut self, trades_buffer: &[Trade])
        requires
            old(self).wf(),
            all_wf(trades_buffer@),
            old(self).raw_trades@.len() + trades_buffer@.len() <= MAX_DATAPOINT_TRADES,
        ensures
            final(self).wf(),
            final(self).raw_trades@ == old(self).raw_trades@ + trades_buffer@,
            final(self).tick_size == old(self).tick_size,
            final(self).basis() == old(self).basis(),
    {
        let ghost before = self.raw_trades@;
        let n = trades_buffer.len();
        let mut i: usize = 0;
        while i < n
            invariant
                n == trades_buffer@.len(),
                i <= n,
                all_wf(trades_buffer@),
                all_wf(before),
                self.raw_trades@ == before + trades_buffer@.subrange(0, i as int),
                self.data_source == old(self).data_source,
                self.tick_size == old(self).tick_size,
                before == old(self).raw_trades@,
            decreases n - i,
        {
            self.raw_trades.push(trades_buffer[i]);
            proof {
                assert(before + trades_buffer@.subrange(0, i as int + 1) =~= (before + trades_buffer@.subrange(0, i as int)).push(trades_buffer@[i as int]));
            }
            i = i + 1;
        }
        proof {
            assert(trades_buffer@.subrange(0, n as int) =~= trades_buffer@);
            assert forall|k: int| 0 <= k < self.raw_trades@.len() implies (#[trigger] self.raw_trades@[k]).wf() by {
                if k >= before.len() {
                    assert(self.raw_trades@[k] == trades_buffer@[k - before.len()]);
                }
            }
        }
        match &mut self.data_source {
            PlotData::TickBased(aggr) => {
                aggr.insert_trades(trades_buffer);
                proof {
                    lemma_aggregate_concat(Seq::empty(), before, trades_buffer@, aggr.interval.0, aggr.tick_size);
                }
            },
            PlotData::TimeBased(ts) => {
                ts.insert_trades(trades_buffer, self.tick_size);
            },
        }
    }

    /// Candles from a venue, kept on a time basis: each replaces the candle of its open time
    /// or joins in time order. A tick basis ignores them.
    pub fn insert_new_klines(&mut self, klines: &[Kline])
        requires
            old(self).wf(),
        ensures
            final(self).wf(),
            final(self).raw_trades == old(self).raw_trades,
            final(self).tick_size == old(self).tick_size,
            final(self).basis() == old(self).basis(),
            match old(self).data_source {
                PlotData::TimeBased(a) => match final(self).data_source {
                    PlotData::TimeBased(b) => {
                        &&& b.timeframe == a.timeframe
                        &&& forall|t: u64| #[trigger] has_time(b.klines@, t) <==> (has_time(a.klines@, t)
                            || exists|i: int| 0 <= i < klines@.len() && (#[trigger] klines@[i]).time == t)
                        &&& forall|i: int| 0 <= i < b.klines@.len() ==> #[trigger] b.klines@[i]
                            == stored_after(a.klines@, klines@, b.klines@[i].time)
                    },
                    PlotData::TickBased(_) => false,
                },
                PlotData::TickBased(_) => final(self).data_source == old(self).data_source,
            },
    {
        match &mut self.data_source {
            PlotData::TimeBased(ts) => ts.insert_klines(klines),
            PlotData::TickBased(_) => {},
        }
    }

    /// A new step: the datapoints are rebuilt from every retained trade.
    pub fn change_tick_size(&mut self, tick_size: PriceStep)
        requires
            old(self).wf(),
            0 < tick_size.units <= MAX_PRICE_UNITS,
        ensures
            final(self).wf(),
            final(self).tick_size == tick_size,
            final(self).raw_trades == old(self).raw_trades,
            final(self).basis() == old(self).basis(),
    {
        self.tick_size = tick_size;
        match &mut self.data_source {
            PlotData::TickBased(aggr) => aggr.change_tick_size(tick_size, self.raw_trades.as_slice()),
            PlotData::TimeBased(ts) => {
                ts.datapoints.clear();
                assert(total_ticks(ts.datapoints@) == 0);
                ts.insert_trades(self.raw_trades.as_slice(), tick_size);
            },
        }
    }

    /// Switches to a tick basis of `interval`, aggregating every retained trade again.
    pub fn set_tick_basis(&mut self, interval: TickCount)
        requires
            old(self).wf(),
        ensures
            final(self).wf(),
            final(self).basis() == Basis::Tick(interval),
            final(self).raw_trades == old(self).raw_trades,
            final(self).tick_size == old(self).tick_size,
    {
        let aggr = TickAggr::new(interval, self.tick_size, self.raw_trades.as_slice());
        self.data_source = PlotData::TickBased(aggr);
    }

    /// Switches basis, aggregating every retained trade again; a time basis starts with no
    /// candles, for the caller to fetch them.
    pub fn change_basis(&mut self, basis: Basis)
        requires
            old(self).wf(),
        ensures
            final(self).wf(),
            final(self).basis() == basis,
            final(self).raw_trades == old(self).raw_trades,
            final(self).tick_size == old(self).tick_size,
            basis matches Basis::Time(_) ==> (final(self).data_source matches PlotData::TimeBased(ts) && ts.klines@.len() == 0),
    {
        match basis {
            Basis::Tick(interval) => self.set_tick_basis(interval),
            Basis::Time(timeframe) => {
                let mut ts = TimeSeries::new(timeframe);
                assert(total_ticks(ts.datapoints@) == 0);
                ts.insert_trades(self.raw_trades.as_slice(), self.tick_size);
                self.data_source = PlotData::TimeBased(ts);
            },
        }
    }

    /// Drops the retained trades; a tick basis starts over empty.
    pub fn clear_trades(&mut self)
        requires
            old(self).wf(),
        ensures
            final(self).wf(),
            final(self).raw_trades@.len() == 0,
            final(self).tick_size == old(self).tick_size,
            final(self).basis() == old(self).basis(),
    {
        self.raw_trades.clear();
        match &mut self.data_source {
            PlotData::TickBased(aggr) => aggr.change_tick_size(self.tick_size, self.raw_trades.as_slice()),
            PlotData::TimeBased(ts) => {
                ts.datapoints.clear();
                assert(total_ticks(ts.datapoints@) == 0);
            },
        }
    }

    /// Least low and greatest high over the window: reversed datapoint indices on a tick
    /// basis, open times on a time basis.
    pub fn visible_price_range(&self, start: u64, end: u64) -> (r: Option<(Price, Price)>)
        ensures
            match self.data_source {
                PlotData::TickBased(a) => {
                    &&& r.is_none() == (start > end || start >= a.datapoints@.len())
                    &&& r matches Some((lo, hi)) ==> {
                        &&& window_min_low(a.datapoints@, start as int, end as int, a.datapoints@.len() as int) == Some(lo.units as int)
                        &&& window_max_high(a.datapoints@, start as int, end as int, a.datapoints@.len() as int) == Some(hi.units as int)
                    }
                },
                PlotData::TimeBased(ts) => {
                    &&& r.is_none() == !(exists|i: int| 0 <= i < ts.klines@.len() && start <= (#[trigger] ts.klines@[i]).time <= end)
                    &&& r matches Some((lo, hi)) ==> {
                        &&& forall|i: int| 0 <= i < ts.klines@.len() && start <= (#[trigger] ts.klines@[i]).time <= end
                            ==> lo.units <= ts.klines@[i].low.units && ts.klines@[i].high.units <= hi.units
                        &&& exists|i: int| 0 <= i < ts.klines@.len() && start <= (#[trigger] ts.klines@[i]).time <= end
                            && ts.klines@[i].low.units == lo.units
                        &&& exists|i: int| 0 <= i < ts.klines@.len() && start <= (#[trigger] ts.klines@[i]).time <= end
                            && ts.klines@[i].high.units == hi.units
                    }
                },
            },
    {
        match &self.data_source {
            PlotData::TickBased(a) => {
                let n = a.datapoints.len();
                if start > end || start >= n as u64 {
                    proof {
                        crate::ticks::lemma_window_some(a.datapoints@, start as int, end as int, n as int);
                    }
                    return None;
                }
                let s = start as usize;
                let e: usize = if end >= n as u64 { n } else { end as usize };
                proof {
                    crate::ticks::lemma_window_clamp(a.datapoints@, start as int, end as int, e as int, n as int);
                }
                a.min_max_price_in_range_prices(s, e)
            },
            PlotData::TimeBased(ts) => match ts.min_max_price_in_range(start, end) {
                Some((lo, hi)) => Some((Price::from_units(lo), Price::from_units(hi))),
                None => None,
            },
        }
    }
}

proof fn lemma_aggregate_concat(
    sh: Seq<(int, Kline, Seq<(Price, crate::footprint::GroupedTrades)>)>,
    a: Seq<Trade>,
    b: Seq<Trade>,
    interval: u16,
    step: PriceStep,
)
    ensures
        aggregate(sh, a + b, interval, step) == aggregate(aggregate(sh, a, interval, step), b, interval, step),
    decreases b.len(),
{
    if b.len() == 0 {
        assert(a + b =~= a);
    } else {
        lemma_aggregate_concat(sh, a, b.drop_last(), interval, step);
        assert((a + b).drop_last() =~= a + b.drop_last());
    }
}

} // verus!

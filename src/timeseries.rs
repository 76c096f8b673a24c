//! Time-interval series of candles, keyed by open time, with the integrity check that finds
//! the interval keys missing between two times.
use vstd::prelude::*;
use crate::market::{Kline, Timeframe, Trade, MAX_PRICE_UNITS, millis_of};
use crate::price::PriceStep;
use crate::ticks::{MAX_DATAPOINT_TRADES, TickAccumulation, total_ticks};

verus! {

/// Candles from the venue, and datapoints built from trades with their footprints, each in
/// strictly increasing order of open time.
pub struct TimeSeries {
    pub klines: Vec<Kline>,
    pub datapoints: Vec<TickAccumulation>,
    pub timeframe: Timeframe,
}

/// Open time of the interval that holds `time`.
pub open spec fn bucket_start(time: u64, ms: int) -> int {
    (time as int / ms) * ms
}

pub open spec fn dp_times_increasing(s: Seq<TickAccumulation>) -> bool {
    forall|i: int, j: int| 0 <= i < j < s.len() ==> s[i].kline.time < s[j].kline.time
}

pub open spec fn has_dp(s: Seq<TickAccumulation>, t: int) -> bool {
    exists|i: int| 0 <= i < s.len() && (#[trigger] s[i]).kline.time == t
}

proof fn lemma_total_ticks_update(s: Seq<TickAccumulation>, i: int, x: TickAccumulation)
    requires
        0 <= i < s.len(),
    ensures
        total_ticks(s.update(i, x)) == total_ticks(s) - s[i].tick_count + x.tick_count,
    decreases s.len(),
{
    if i == s.len() - 1 {
        assert(s.update(i, x).drop_last() =~= s.drop_last());
    } else {
        lemma_total_ticks_update(s.drop_last(), i, x);
        assert(s.update(i, x).drop_last() =~= s.drop_last().update(i, x));
    }
}

proof fn lemma_total_ticks_insert(s: Seq<TickAccumulation>, i: int, x: TickAccumulation)
    requires
        0 <= i <= s.len(),
    ensures
        total_ticks(s.insert(i, x)) == total_ticks(s) + x.tick_count,
    decreases s.len(),
{
    if i == s.len() {
        assert(s.insert(i, x).drop_last() =~= s);
    } else {
        lemma_total_ticks_insert(s.drop_last(), i, x);
        assert(s.insert(i, x).drop_last() =~= s.drop_last().insert(i, x));
    }
}

proof fn lemma_tick_count_le_total(s: Seq<TickAccumulation>, i: int)
    requires
        0 <= i < s.len(),
    ensures
        s[i].tick_count <= total_ticks(s),
    decreases s.len(),
{
    lemma_total_ticks_nonneg(s.drop_last());
    if i < s.len() - 1 {
        lemma_tick_count_le_total(s.drop_last(), i);
    }
}

proof fn lemma_total_ticks_nonneg(s: Seq<TickAccumulation>)
    ensures
        total_ticks(s) >= 0,
    decreases s.len(),
{
    if s.len() > 0 {
        lemma_total_ticks_nonneg(s.drop_last());
    }
}

pub open spec fn times_increasing(s: Seq<Kline>) -> bool {
    forall|i: int, j: int| 0 <= i < j < s.len() ==> s[i].time < s[j].time
}

pub open spec fn has_time(s: Seq<Kline>, t: u64) -> bool {
    exists|i: int| 0 <= i < s.len() && (#[trigger] s[i]).time == t
}

/// The candle of `s` that opens at `t` (the only one, in a series of increasing times).
pub open spec fn candle_at(s: Seq<Kline>, t: u64) -> Kline {
    s[choose|j: int| 0 <= j < s.len() && s[j].time == t]
}

/// The last candle of `batch` that opens at `t`, if any.
pub open spec fn last_with_time(batch: Seq<Kline>, t: u64) -> Option<Kline>
    decreases batch.len(),
{
    if batch.len() == 0 {
        None
    } else if batch.last().time == t {
        Some(batch.last())
    } else {
        last_with_time(batch.drop_last(), t)
    }
}

/// The candle kept at `t` after inserting `batch` into `old`: the batch's last one of that
/// time, else the one that was there.
pub open spec fn stored_after(old: Seq<Kline>, batch: Seq<Kline>, t: u64) -> Kline {
    match last_with_time(batch, t) {
        Some(k) => k,
        None => candle_at(old, t),
    }
}

pub proof fn lemma_candle_at(s: Seq<Kline>, j: int)
    requires
        times_increasing(s),
        0 <= j < s.len(),
    ensures
        candle_at(s, s[j].time) == s[j],
{
    let c = choose|c: int| 0 <= c < s.len() && s[c].time == s[j].time;
    assert(0 <= c < s.len() && s[c].time == s[j].time);
    if c < j {
        assert(s[c].time < s[j].time);
    } else if c > j {
        assert(s[j].time < s[c].time);
    }
}

/// The keys `earliest + i * step` for `i` below `upto` that no candle of `s` opens at, in order.
pub open spec fn missing_upto(s: Seq<Kline>, earliest: int, step: int, upto: nat) -> Seq<u64>
    decreases upto,
{
    if upto == 0 {
        Seq::empty()
    } else {
        let prev = missing_upto(s, earliest, step, (upto - 1) as nat);
        let k = earliest + (upto - 1) * step;
        if has_time(s, k as u64) {
            prev
        } else {
            prev.push(k as u64)
        }
    }
}

/// Number of keys `earliest + i * step` within `[earliest, latest]`.
pub open spec fn key_count(earliest: int, latest: int, step: int) -> nat {
    if step <= 0 || earliest > latest {
        0
    } else {
        ((latest - earliest) / step + 1) as nat
    }
}

fn contains_time(s: &Vec<Kline>, t: u64) -> (r: bool)
    ensures
        r == has_time(s@, t),
{
    let n = s.len();
    let mut i: usize = 0;
    while i < n
        invariant
            n == s@.len(),
            i <= n,
            forall|j: int| 0 <= j < i ==> (#[trigger] s@[j]).time != t,
        decreases n - i,
    {
        if s[i].time == t {
            return true;
        }
        i = i + 1;
    }
    false
}

impl TimeSeries {
    pub open spec fn wf(self) -> bool {
        &&& times_increasing(self.klines@)
        &&& dp_times_increasing(self.datapoints@)
        &&& forall|i: int| 0 <= i < self.datapoints@.len() ==> (#[trigger] self.datapoints@[i]).wf()
    }

    pub fn new(timeframe: Timeframe) -> (r: Self)
        ensures
            r.wf(),
            r.klines@.len() == 0,
            r.datapoints@.len() == 0,
            r.timeframe == timeframe,
    {
        TimeSeries { klines: Vec::new(), datapoints: Vec::new(), timeframe }
    }

    /// Adds each trade to the datapoint of the interval that holds its time, opening that
    /// datapoint where there is none.
    pub fn insert_trades(&mut self, trades: &[Trade], step: PriceStep)
        requires
            old(self).wf(),
            forall|i: int| 0 <= i < trades@.len() ==> (#[trigger] trades@[i]).wf(),
            0 < step.units <= MAX_PRICE_UNITS,
            total_ticks(old(self).datapoints@) + trades@.len() <= MAX_DATAPOINT_TRADES,
        ensures
            final(self).wf(),
            final(self).klines == old(self).klines,
            final(self).timeframe == old(self).timeframe,
            total_ticks(final(self).datapoints@) == total_ticks(old(self).datapoints@) + trades@.len(),
            forall|t: int| #[trigger] has_dp(final(self).datapoints@, t) <==> (has_dp(old(self).datapoints@, t)
                || exists|i: int| 0 <= i < trades@.len() && bucket_start((#[trigger] trades@[i]).time, millis_of(old(self).timeframe)) == t),
    {
        let ms = self.timeframe.to_milliseconds();
        let n = trades.len();
        let mut k: usize = 0;
        while k < n
            invariant
                self.wf(),
                self.klines == old(self).klines,
                self.timeframe == old(self).timeframe,
                ms == millis_of(self.timeframe),
                ms > 0,
                n == trades@.len(),
                k <= n,
                forall|i: int| 0 <= i < trades@.len() ==> (#[trigger] trades@[i]).wf(),
                0 < step.units <= MAX_PRICE_UNITS,
                total_ticks(old(self).datapoints@) + trades@.len() <= MAX_DATAPOINT_TRADES,
                total_ticks(self.datapoints@) == total_ticks(old(self).datapoints@) + k,
                forall|t: int| #[trigger] has_dp(self.datapoints@, t) <==> (has_dp(old(self).datapoints@, t)
                    || exists|i: int| 0 <= i < k && bucket_start((#[trigger] trades@[i]).time, ms as int) == t),
            decreases n - k,
        {
            let ghost before = self.datapoints@;
            self.insert_trade(trades[k], step, ms);
            proof {
                let t2 = self.datapoints@;
                assert forall|t: int| #[trigger] has_dp(t2, t) <==> (has_dp(old(self).datapoints@, t)
                    || exists|j: int| 0 <= j < k + 1 && bucket_start((#[trigger] trades@[j]).time, ms as int) == t) by {
                    if t == bucket_start(trades@[k as int].time, ms as int) {
                        assert(bucket_start(trades@[k as int].time, ms as int) == t);
                    } else {
                        assert(has_dp(t2, t) == has_dp(before, t));
                    }
                }
            }
            k = k + 1;
        }
    }

    fn insert_trade(&mut self, trade: Trade, step: PriceStep, ms: u64)
        requires
            old(self).wf(),
            trade.wf(),
            0 < step.units <= MAX_PRICE_UNITS,
            ms > 0,
            total_ticks(old(self).datapoints@) + 1 <= MAX_DATAPOINT_TRADES,
        ensures
            final(self).wf(),
            final(self).klines == old(self).klines,
            final(self).timeframe == old(self).timeframe,
            total_ticks(final(self).datapoints@) == total_ticks(old(self).datapoints@) + 1,
            forall|t: int| #[trigger] has_dp(final(self).datapoints@, t) <==> (has_dp(old(self).datapoints@, t)
                || t == bucket_start(trade.time, ms as int)),
    {
        proof {
            crate::price::lemma_floor_div_bounds(trade.time as int, ms as int);
        }
        let key: u64 = (trade.time / ms) * ms;
        let ghost s = self.datapoints@;
        let len = self.datapoints.len();
        let mut i: usize = 0;
        while i < len && self.datapoints[i].kline.time < key
            invariant
                self.datapoints@ == s,
                len == s.len(),
                i <= len,
                forall|j: int| 0 <= j < i ==> (#[trigger] s[j]).kline.time < key,
            decreases len - i,
        {
            i = i + 1;
        }
        if i < len && self.datapoints[i].kline.time == key {
            proof {
                lemma_tick_count_le_total(s, i as int);
                assert(s[i as int].wf());
            }
            self.datapoints[i].update_with_trade(&trade, step);
            proof {
                let t2 = self.datapoints@;
                lemma_total_ticks_update(s, i as int, t2[i as int]);
                assert(t2 == s.update(i as int, t2[i as int]));
                assert forall|t: int| #[trigger] has_dp(t2, t) <==> has_dp(s, t) by {
                    if has_dp(s, t) {
                        let j = choose|j: int| 0 <= j < s.len() && (#[trigger] s[j]).kline.time == t;
                        assert(t2[j].kline.time == t);
                    }
                    if has_dp(t2, t) {
                        let j = choose|j: int| 0 <= j < t2.len() && (#[trigger] t2[j]).kline.time == t;
                        assert(s[j].kline.time == t);
                    }
                }
            }
        } else {
            let mut dp = TickAccumulation::new(&trade, step);
            dp.kline.time = key;
            self.datapoints.insert(i, dp);
            proof {
                let t2 = self.datapoints@;
                assert(t2 == s.insert(i as int, dp));
                lemma_total_ticks_insert(s, i as int, dp);
                assert forall|a: int, b: int| 0 <= a < b < t2.len() implies t2[a].kline.time < t2[b].kline.time by {
                    if b < i {
                        assert(t2[a] == s[a] && t2[b] == s[b]);
                    } else if b == i {
                        assert(t2[a] == s[a]);
                    } else if a == i {
                        assert(t2[b] == s[b - 1]);
                        assert(s[i as int].kline.time > key);
                        assert(s[i as int].kline.time <= s[b - 1].kline.time);
                    } else if a < i {
                        assert(t2[a] == s[a] && t2[b] == s[b - 1]);
                    } else {
                        assert(t2[a] == s[a - 1] && t2[b] == s[b - 1]);
                    }
                }
                assert forall|j: int| 0 <= j < t2.len() implies (#[trigger] t2[j]).wf() by {
                    if j < i {
                        assert(t2[j] == s[j]);
                    } else if j > i {
                        assert(t2[j] == s[j - 1]);
                    }
                }
                assert forall|t: int| #[trigger] has_dp(t2, t) <==> (has_dp(s, t) || t == key) by {
                    if has_dp(s, t) {
                        let j = choose|j: int| 0 <= j < s.len() && (#[trigger] s[j]).kline.time == t;
                        if j < i {
                            assert(t2[j] == s[j]);
                        } else {
                            assert(t2[j + 1] == s[j]);
                        }
                    }
                    if t == key {
                        assert(t2[i as int].kline.time == key);
                    }
                    if has_dp(t2, t) {
                        let j = choose|j: int| 0 <= j < t2.len() && (#[trigger] t2[j]).kline.time == t;
                        if j < i {
                            assert(s[j] == t2[j]);
                        } else if j > i {
                            assert(s[j - 1] == t2[j]);
                        }
                    }
                }
            }
        }
    }

    /// Inserts each candle in turn: it replaces the candle of the same open time, or is placed
    /// in time order.
    pub fn insert_klines(&mut self, klines: &[Kline])
        requires
            old(self).wf(),
        ensures
            final(self).wf(),
            final(self).timeframe == old(self).timeframe,
            final(self).datapoints == old(self).datapoints,
            forall|i: int| 0 <= i < klines@.len() ==> #[trigger] has_time(final(self).klines@, klines@[i].time),
            forall|t: u64| #[trigger] has_time(final(self).klines@, t) <==> (has_time(old(self).klines@, t)
                || exists|i: int| 0 <= i < klines@.len() && (#[trigger] klines@[i]).time == t),
            forall|i: int| 0 <= i < final(self).klines@.len() ==> #[trigger] final(self).klines@[i]
                == stored_after(old(self).klines@, klines@, final(self).klines@[i].time),
    {
        proof {
            assert forall|i: int| 0 <= i < self.klines@.len() implies #[trigger] self.klines@[i]
                == stored_after(old(self).klines@, klines@.subrange(0, 0), self.klines@[i].time) by {
                lemma_candle_at(self.klines@, i);
            }
        }
        let n = klines.len();
        let mut k: usize = 0;
        while k < n
            invariant
                self.wf(),
                self.timeframe == old(self).timeframe,
                self.datapoints == old(self).datapoints,
                n == klines@.len(),
                k <= n,
                forall|i: int| 0 <= i < k ==> #[trigger] has_time(self.klines@, klines@[i].time),
                forall|t: u64| #[trigger] has_time(self.klines@, t) <==> (has_time(old(self).klines@, t)
                    || exists|i: int| 0 <= i < k && (#[trigger] klines@[i]).time == t),
                forall|i: int| 0 <= i < self.klines@.len() ==> #[trigger] self.klines@[i]
                    == stored_after(old(self).klines@, klines@.subrange(0, k as int), self.klines@[i].time),
            decreases n - k,
        {
            let ghost before = self.klines@;
            self.insert_kline(klines[k]);
            proof {
                assert forall|i: int| 0 <= i < k + 1 implies #[trigger] has_time(self.klines@, klines@[i].time) by {
                    if i < k {
                        assert(has_time(before, klines@[i].time));
                    }
                }
                assert forall|t: u64| #[trigger] has_time(self.klines@, t) <==> (has_time(old(self).klines@, t)
                    || exists|i: int| 0 <= i < k + 1 && (#[trigger] klines@[i]).time == t) by {
                    if t == klines@[k as int].time {
                        assert(has_time(self.klines@, t));
                    } else {
                        assert(has_time(self.klines@, t) == has_time(before, t));
                    }
                }
                let b2 = klines@.subrange(0, k as int + 1);
                assert(b2.drop_last() =~= klines@.subrange(0, k as int));
                assert(b2.last() == klines@[k as int]);
                let now = self.klines@;
                assert forall|i: int| 0 <= i < now.len() implies #[trigger] now[i]
                    == stored_after(old(self).klines@, b2, now[i].time) by {
                    let t = now[i].time;
                    if t != klines@[k as int].time {
                        assert(has_time(now, t));
                        assert(has_time(before, t));
                        let m = choose|m: int| 0 <= m < before.len() && (#[trigger] before[m]).time == t;
                        lemma_candle_at(before, m);
                    }
                }
            }
            k = k + 1;
        }
        proof {
            assert(klines@.subrange(0, n as int) =~= klines@);
        }
    }

    fn insert_kline(&mut self, kline: Kline)
        requires
            old(self).wf(),
        ensures
            final(self).wf(),
            final(self).timeframe == old(self).timeframe,
            final(self).datapoints == old(self).datapoints,
            forall|t: u64| #[trigger] has_time(final(self).klines@, t) <==> (has_time(old(self).klines@, t) || t == kline.time),
            forall|j: int| 0 <= j < final(self).klines@.len() ==> #[trigger] final(self).klines@[j]
                == (if final(self).klines@[j].time == kline.time { kline } else { candle_at(old(self).klines@, final(self).klines@[j].time) }),
    {
        let n = self.klines.len();
        let mut i: usize = 0;
        while i < n && self.klines[i].time < kline.time
            invariant
                *self == *old(self),
                old(self).wf(),
                n == self.klines@.len(),
                i <= n,
                forall|j: int| 0 <= j < i ==> (#[trigger] self.klines@[j]).time < kline.time,
            decreases n - i,
        {
            i = i + 1;
        }
        let ghost s = self.klines@;
        if i < n && self.klines[i].time == kline.time {
            self.klines.set(i, kline);
            proof {
                let t2 = self.klines@;
                assert forall|a: int, b: int| 0 <= a < b < t2.len() implies t2[a].time < t2[b].time by {
                    assert(s[a].time < s[b].time || a == i || b == i);
                }
                assert forall|t: u64| #[trigger] has_time(t2, t) <==> (has_time(s, t) || t == kline.time) by {
                    if has_time(s, t) {
                        let j = choose|j: int| 0 <= j < s.len() && (#[trigger] s[j]).time == t;
                        assert(t2[j].time == t);
                    }
                    if has_time(t2, t) {
                        let j = choose|j: int| 0 <= j < t2.len() && (#[trigger] t2[j]).time == t;
                        if j != i {
                            assert(s[j].time == t);
                        }
                    }
                }
                assert forall|j: int| 0 <= j < t2.len() implies #[trigger] t2[j]
                    == (if t2[j].time == kline.time { kline } else { candle_at(s, t2[j].time) }) by {
                    if j != i {
                        lemma_candle_at(s, j);
                        assert(t2[j] == s[j]);
                        if j < i {
                            assert(s[j].time < s[i as int].time);
                        } else {
                            assert(s[i as int].time < s[j].time);
                        }
                    }
                }
            }
        } else {
            self.klines.insert(i, kline);
            proof {
                let t2 = self.klines@;
                assert(t2 == s.insert(i as int, kline));
                assert forall|a: int, b: int| 0 <= a < b < t2.len() implies t2[a].time < t2[b].time by {
                    if b < i {
                        assert(t2[a] == s[a] && t2[b] == s[b]);
                    } else if b == i {
                        assert(t2[a] == s[a]);
                    } else if a == i {
                        assert(t2[b] == s[b - 1]);
                        if i < n {
                            assert(s[i as int].time > kline.time);
                            assert(s[i as int].time <= s[b - 1].time);
                        }
                    } else if a < i {
                        assert(t2[a] == s[a] && t2[b] == s[b - 1]);
                    } else {
                        assert(t2[a] == s[a - 1] && t2[b] == s[b - 1]);
                    }
                }
                assert forall|t: u64| #[trigger] has_time(t2, t) <==> (has_time(s, t) || t == kline.time) by {
                    if has_time(s, t) {
                        let j = choose|j: int| 0 <= j < s.len() && (#[trigger] s[j]).time == t;
                        if j < i {
                            assert(t2[j] == s[j]);
                        } else {
                            assert(t2[j + 1] == s[j]);
                        }
                    }
                    if t == kline.time {
                        assert(t2[i as int] == kline);
                    }
                    if has_time(t2, t) {
                        let j = choose|j: int| 0 <= j < t2.len() && (#[trigger] t2[j]).time == t;
                        if j < i {
                            assert(s[j] == t2[j]);
                        } else if j > i {
                            assert(s[j - 1] == t2[j]);
                        }
                    }
                }
                assert forall|j: int| 0 <= j < t2.len() implies #[trigger] t2[j]
                    == (if t2[j].time == kline.time { kline } else { candle_at(s, t2[j].time) }) by {
                    if j < i {
                        assert(t2[j] == s[j]);
                        lemma_candle_at(s, j);
                        assert(t2[j].time < t2[i as int].time);
                    } else if j > i {
                        assert(t2[j] == s[j - 1]);
                        lemma_candle_at(s, j - 1);
                        assert(t2[i as int].time < t2[j].time);
                    }
                }
            }
        }
    }

    /// The interval keys `earliest, earliest + interval_ms, ...` up to `latest` that have no
    /// candle, in increasing order; `None` where none is missing.
    pub fn check_integrity(&self, earliest: u64, latest: u64, interval_ms: u64) -> (r: Option<Vec<u64>>)
        ensures
            ({
                let m = missing_upto(self.klines@, earliest as int, interval_ms as int,
                    key_count(earliest as int, latest as int, interval_ms as int));
                &&& r.is_none() == (m.len() == 0)
                &&& r matches Some(v) ==> v@ == m
            }),
    {
        let mut missing: Vec<u64> = Vec::new();
        if interval_ms == 0 || earliest > latest {
            return None;
        }
        let count: u128 = ((latest - earliest) / interval_ms) as u128 + 1;
        let mut i: u128 = 0;
        while i < count
            invariant
                interval_ms > 0,
                earliest <= latest,
                count == (latest - earliest) / (interval_ms as int) + 1,
                i <= count,
                missing@ == missing_upto(self.klines@, earliest as int, interval_ms as int, i as nat),
            decreases count - i,
        {
            proof {
                assert(i < count);
                assert(i * interval_ms <= latest - earliest) by (nonlinear_arith)
                    requires
                        i < count,
                        count == (latest - earliest) / (interval_ms as int) + 1,
                        interval_ms > 0,
                        earliest <= latest,
                {
                    assert(i <= (latest - earliest) / (interval_ms as int));
                    assert((latest - earliest) / (interval_ms as int) * interval_ms <= latest - earliest);
                }
            }
            let key = earliest + (i as u64) * interval_ms;
            if !contains_time(&self.klines, key) {
                missing.push(key);
            }
            i = i + 1;
        }
        if missing.len() == 0 {
            None
        } else {
            Some(missing)
        }
    }

    /// Least low and greatest high among the candles that open within `[earliest, latest]`.
    pub fn min_max_price_in_range(&self, earliest: u64, latest: u64) -> (r: Option<(i64, i64)>)
        ensures
            r.is_none() == !(exists|i: int| 0 <= i < self.klines@.len() && earliest <= (#[trigger] self.klines@[i]).time <= latest),
            r matches Some((lo, hi)) ==> {
                &&& forall|i: int| 0 <= i < self.klines@.len() && earliest <= (#[trigger] self.klines@[i]).time <= latest
                    ==> lo <= self.klines@[i].low.units && self.klines@[i].high.units <= hi
                &&& exists|i: int| 0 <= i < self.klines@.len() && earliest <= (#[trigger] self.klines@[i]).time <= latest
                    && self.klines@[i].low.units == lo
                &&& exists|i: int| 0 <= i < self.klines@.len() && earliest <= (#[trigger] self.klines@[i]).time <= latest
                    && self.klines@[i].high.units == hi
            },
    {
        let n = self.klines.len();
        let mut r: Option<(i64, i64)> = None;
        let mut i: usize = 0;
        while i < n
            invariant
                n == self.klines@.len(),
                i <= n,
                r.is_none() == !(exists|j: int| 0 <= j < i && earliest <= (#[trigger] self.klines@[j]).time <= latest),
                r matches Some((lo, hi)) ==> {
                    &&& forall|j: int| 0 <= j < i && earliest <= (#[trigger] self.klines@[j]).time <= latest
                        ==> lo <= self.klines@[j].low.units && self.klines@[j].high.units <= hi
                    &&& exists|j: int| 0 <= j < i && earliest <= (#[trigger] self.klines@[j]).time <= latest
                        && self.klines@[j].low.units == lo
                    &&& exists|j: int| 0 <= j < i && earliest <= (#[trigger] self.klines@[j]).time <= latest
                        && self.klines@[j].high.units == hi
                },
            decreases n - i,
        {
            let k = self.klines[i];
            if earliest <= k.time && k.time <= latest {
                r = match r {
                    None => Some((k.low.units, k.high.units)),
                    Some((lo, hi)) => Some((
                        if k.low.units < lo { k.low.units } else { lo },
                        if k.high.units > hi { k.high.units } else { hi },
                    )),
                };
            }
            i = i + 1;
        }
        r
    }

    /// The candle with the latest open time.
    pub fn latest_kline(&self) -> (r: Option<&Kline>)
        ensures
            r.is_none() == (self.klines@.len() == 0),
            r matches Some(k) ==> *k == self.klines@.last(),
    {
        let n = self.klines.len();
        if n == 0 {
            None
        } else {
            Some(&self.klines[n - 1])
        }
    }
}

} // verus!

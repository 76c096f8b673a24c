//! Per-datapoint footprint: traded buy and sell quantity by price level, and its point of control.
use vstd::prelude::*;
use crate::market::{Trade, MAX_PRICE_UNITS, MAX_TRADE_QTY};
use crate::price::{Price, PriceStep, round_units};

verus! {

/// Buy and sell quantity traded at one price level.
#[derive(Debug, Clone, Copy, PartialEq, Eq, Structural)]
pub struct GroupedTrades {
    pub buy_qty: i128,
    pub sell_qty: i128,
}

/// The metric by which price levels are ranked.
#[derive(Debug, Clone, Copy, PartialEq, Eq, Hash, Structural)]
pub enum ClusterKind {
    BidAsk,
    DeltaProfile,
    VolumeProfile,
}

/// Whether a point of control has been revisited by a later datapoint.
#[derive(Debug, Clone, Copy, PartialEq, Eq, Structural)]
pub enum NPoc {
    /// Not yet examined: no later datapoint exists.
    Unresolved,
    /// No later datapoint's range has reached the price.
    Naked,
    /// First reached by the datapoint at index `at`.
    Filled { at: u64 },
}

impl NPoc {
    pub fn filled(&mut self, at: u64)
        ensures
            *final(self) == (NPoc::Filled { at }),
    {
        *self = NPoc::Filled { at };
    }

    pub fn unfilled(&mut self)
        ensures
            *final(self) == NPoc::Naked,
    {
        *self = NPoc::Naked;
    }
}

#[derive(Debug, Clone, Copy, PartialEq, Eq, Structural)]
pub struct PointOfControl {
    pub price: Price,
    pub volume: i128,
    pub status: NPoc,
}

/// Ranking value of a level under `kind`.
pub open spec fn metric(kind: ClusterKind, buy: int, sell: int) -> int {
    match kind {
        ClusterKind::BidAsk => if buy >= sell { buy } else { sell },
        ClusterKind::DeltaProfile => if buy >= sell { buy - sell } else { sell - buy },
        ClusterKind::VolumeProfile => buy + sell,
    }
}

pub open spec fn level_metric(kind: ClusterKind, l: (Price, GroupedTrades)) -> int {
    metric(kind, l.1.buy_qty as int, l.1.sell_qty as int)
}

/// Bound on a footprint's total quantity: as many full-size trades as a datapoint holds.
pub open spec fn qty_bound() -> int {
    4_294_967_296 * MAX_TRADE_QTY
}

pub open spec fn sum_buy(s: Seq<(Price, GroupedTrades)>) -> int
    decreases s.len(),
{
    if s.len() == 0 {
        0
    } else {
        sum_buy(s.drop_last()) + s.last().1.buy_qty
    }
}

pub open spec fn sum_sell(s: Seq<(Price, GroupedTrades)>) -> int
    decreases s.len(),
{
    if s.len() == 0 {
        0
    } else {
        sum_sell(s.drop_last()) + s.last().1.sell_qty
    }
}

pub open spec fn has_level(s: Seq<(Price, GroupedTrades)>, p: Price) -> bool {
    exists|i: int| 0 <= i < s.len() && s[i].0 == p
}

/// Largest metric among levels priced within `[lowest, highest]`, or 0.
pub open spec fn max_metric_within(s: Seq<(Price, GroupedTrades)>, kind: ClusterKind, highest: int, lowest: int) -> int
    decreases s.len(),
{
    if s.len() == 0 {
        0
    } else {
        let rest = max_metric_within(s.drop_last(), kind, highest, lowest);
        let l = s.last();
        if lowest <= l.0.units <= highest && level_metric(kind, l) > rest {
            level_metric(kind, l)
        } else {
            rest
        }
    }
}

/// Index of the first level of greatest metric.
pub open spec fn is_poc_index(s: Seq<(Price, GroupedTrades)>, kind: ClusterKind, i: int) -> bool {
    &&& 0 <= i < s.len()
    &&& forall|j: int| 0 <= j < s.len() ==> #[trigger] level_metric(kind, s[j]) <= level_metric(kind, s[i])
    &&& forall|j: int| 0 <= j < i ==> #[trigger] level_metric(kind, s[j]) < level_metric(kind, s[i])
}

/// The point of control of `s` by volume: price and volume of its first level of greatest
/// buy plus sell quantity.
pub open spec fn poc_of(s: Seq<(Price, GroupedTrades)>) -> Option<(Price, int)> {
    if s.len() == 0 {
        None
    } else {
        let i = choose|i: int| is_poc_index(s, ClusterKind::VolumeProfile, i);
        Some((s[i].0, level_metric(ClusterKind::VolumeProfile, s[i])))
    }
}

proof fn lemma_poc_index_unique(s: Seq<(Price, GroupedTrades)>, kind: ClusterKind, i: int, k: int)
    requires
        is_poc_index(s, kind, i),
        is_poc_index(s, kind, k),
    ensures
        i == k,
{
    if i < k {
        assert(level_metric(kind, s[i]) < level_metric(kind, s[k]));
    }
    if k < i {
        assert(level_metric(kind, s[k]) < level_metric(kind, s[i]));
    }
}

pub proof fn lemma_sum_update(s: Seq<(Price, GroupedTrades)>, i: int, v: (Price, GroupedTrades))
    requires
        0 <= i < s.len(),
    ensures
        sum_buy(s.update(i, v)) == sum_buy(s) - s[i].1.buy_qty + v.1.buy_qty,
        sum_sell(s.update(i, v)) == sum_sell(s) - s[i].1.sell_qty + v.1.sell_qty,
    decreases s.len(),
{
    let t = s.update(i, v);
    if i == s.len() - 1 {
        assert(t.drop_last() =~= s.drop_last());
    } else {
        lemma_sum_update(s.drop_last(), i, v);
        assert(t.drop_last() =~= s.drop_last().update(i, v));
    }
}

pub proof fn lemma_level_le_sum(s: Seq<(Price, GroupedTrades)>, i: int)
    requires
        0 <= i < s.len(),
        forall|j: int| 0 <= j < s.len() ==> (#[trigger] s[j]).1.buy_qty >= 0 && s[j].1.sell_qty >= 0,
    ensures
        s[i].1.buy_qty <= sum_buy(s),
        s[i].1.sell_qty <= sum_sell(s),
        sum_buy(s) >= 0,
        sum_sell(s) >= 0,
    decreases s.len(),
{
    lemma_sums_nonneg(s.drop_last());
    if i < s.len() - 1 {
        lemma_level_le_sum(s.drop_last(), i);
    }
}

pub proof fn lemma_sums_nonneg(s: Seq<(Price, GroupedTrades)>)
    requires
        forall|j: int| 0 <= j < s.len() ==> (#[trigger] s[j]).1.buy_qty >= 0 && s[j].1.sell_qty >= 0,
    ensures
        sum_buy(s) >= 0,
        sum_sell(s) >= 0,
    decreases s.len(),
{
    if s.len() > 0 {
        lemma_sums_nonneg(s.drop_last());
    }
}

/// Footprint of one datapoint: one entry per price level, and the point of control.
#[derive(Debug, Clone)]
pub struct KlineTrades {
    pub trades: Vec<(Price, GroupedTrades)>,
    pub poc: Option<PointOfControl>,
}

/// Adds a trade's quantity to a level, on its side.
pub open spec fn bumped(g: GroupedTrades, t: Trade) -> GroupedTrades {
    if t.is_sell {
        GroupedTrades { buy_qty: g.buy_qty, sell_qty: (g.sell_qty + t.qty) as i128 }
    } else {
        GroupedTrades { buy_qty: (g.buy_qty + t.qty) as i128, sell_qty: g.sell_qty }
    }
}

/// Index of a level priced `p` (the only one, in a well-formed footprint).
pub open spec fn level_index(s: Seq<(Price, GroupedTrades)>, p: Price) -> int {
    choose|i: int| 0 <= i < s.len() && s[i].0 == p
}

/// The levels after adding trade `t` at price `key`: to the level of that price where there is
/// one, else as a new last level.
pub open spec fn add_to_levels(s: Seq<(Price, GroupedTrades)>, key: Price, t: Trade) -> Seq<(Price, GroupedTrades)> {
    if has_level(s, key) {
        s.update(level_index(s, key), (key, bumped(s[level_index(s, key)].1, t)))
    } else {
        s.push((key, bumped(GroupedTrades { buy_qty: 0, sell_qty: 0 }, t)))
    }
}

/// The level a trade is added to: its price rounded to the nearest multiple of `step`.
pub open spec fn bucket_of(t: Trade, step: PriceStep) -> Price {
    Price { units: round_units(t.price.units as int, step.units as int) as i64 }
}

/// Every level is priced at a multiple of the step.
pub open spec fn levels_on_step(s: Seq<(Price, GroupedTrades)>, step: PriceStep) -> bool {
    forall|j: int| 0 <= j < s.len() ==> (#[trigger] s[j]).0.units % step.units == 0
}

/// A trade's level lies on the step.
pub proof fn lemma_bucket_on_step(t: Trade, step: PriceStep)
    requires
        t.wf(),
        0 < step.units <= MAX_PRICE_UNITS,
    ensures
        bucket_of(t, step).units % step.units == 0,
{
    crate::price::lemma_round_in_range(t.price.units as int, step.units as int);
    let u = t.price.units as int;
    let d = step.units as int;
    if d > 1 {
        let q = (u + d / 2) / d;
        vstd::arithmetic::div_mod::lemma_mod_multiples_basic(q, d);
    } else {
        vstd::arithmetic::div_mod::lemma_mod_multiples_basic(u, 1);
    }
}

/// Adding a trade at a level on the step keeps every level on the step.
pub proof fn lemma_add_keeps_step(s: Seq<(Price, GroupedTrades)>, key: Price, t: Trade, step: PriceStep)
    requires
        levels_on_step(s, step),
        key.units % step.units == 0,
    ensures
        levels_on_step(add_to_levels(s, key, t), step),
{
    let r = add_to_levels(s, key, t);
    assert forall|j: int| 0 <= j < r.len() implies (#[trigger] r[j]).0.units % step.units == 0 by {
        if j < s.len() && r[j] != s[j] {
            assert(r[j].0 == key);
        }
    }
}

impl KlineTrades {
    /// Levels are distinct and hold non-negative quantities whose sums stay within `qty_bound`.
    pub open spec fn wf(self) -> bool {
        let s = self.trades@;
        &&& forall|i: int, j: int| 0 <= i < j < s.len() ==> s[i].0 != s[j].0
        &&& forall|j: int| 0 <= j < s.len() ==> (#[trigger] s[j]).1.buy_qty >= 0 && s[j].1.sell_qty >= 0
        &&& sum_buy(s) + sum_sell(s) <= qty_bound()
    }

    pub fn new() -> (r: Self)
        ensures
            r.wf(),
            r.trades@.len() == 0,
            r.poc.is_none(),
    {
        KlineTrades { trades: Vec::new(), poc: None }
    }

    /// Adds the trade to the level at its price rounded to the nearest multiple of `step`.
    pub fn add_trade_to_nearest_bin(&mut self, trade: &Trade, step: PriceStep)
        requires
            old(self).wf(),
            trade.wf(),
            0 < step.units <= MAX_PRICE_UNITS,
            sum_buy(old(self).trades@) + sum_sell(old(self).trades@) + trade.qty <= qty_bound(),
        ensures
            final(self).wf(),
            final(self).poc == old(self).poc,
            final(self).trades@ == add_to_levels(old(self).trades@, bucket_of(*trade, step), *trade),
            sum_buy(final(self).trades@) == sum_buy(old(self).trades@) + (if trade.is_sell { 0 } else { trade.qty as int }),
            sum_sell(final(self).trades@) == sum_sell(old(self).trades@) + (if trade.is_sell { trade.qty as int } else { 0 }),
    {
        proof {
            crate::price::lemma_round_in_range(trade.price.units as int, step.units as int);
        }
        let key = trade.price.round_to_step(step);
        let n = self.trades.len();
        let mut i: usize = 0;
        while i < n
            invariant
                n == self.trades@.len(),
                i <= n,
                *self == *old(self),
                old(self).wf(),
                trade.wf(),
                0 < step.units <= MAX_PRICE_UNITS,
                sum_buy(old(self).trades@) + sum_sell(old(self).trades@) + trade.qty <= qty_bound(),
                key.units == round_units(trade.price.units as int, step.units as int),
                forall|j: int| 0 <= j < i ==> (#[trigger] self.trades@[j]).0 != key,
            decreases n - i,
        {
            if self.trades[i].0.units == key.units {
                let g = self.trades[i].1;
                proof {
                    lemma_level_le_sum(self.trades@, i as int);
                }
                let ng = if trade.is_sell {
                    GroupedTrades { buy_qty: g.buy_qty, sell_qty: g.sell_qty + trade.qty as i128 }
                } else {
                    GroupedTrades { buy_qty: g.buy_qty + trade.qty as i128, sell_qty: g.sell_qty }
                };
                proof {
                    lemma_sum_update(self.trades@, i as int, (key, ng));
                }
                self.trades.set(i, (key, ng));
                proof {
                    let s = old(self).trades@;
                    let t = self.trades@;
                    assert(t == s.update(i as int, (key, bumped(s[i as int].1, *trade))));
                    assert(has_level(s, key));
                    let j = level_index(s, key);
                    assert(j == i);
                    lemma_sums_nonneg(s);
                    assert forall|a: int, b: int| 0 <= a < b < t.len() implies t[a].0 != t[b].0 by {
                        assert(s[a].0 != s[b].0);
                    }
                }
                return;
            }
            i = i + 1;
        }
        let g = if trade.is_sell {
            GroupedTrades { buy_qty: 0, sell_qty: trade.qty as i128 }
        } else {
            GroupedTrades { buy_qty: trade.qty as i128, sell_qty: 0 }
        };
        proof {
            lemma_sums_nonneg(self.trades@);
        }
        self.trades.push((key, g));
        proof {
            let s = old(self).trades@;
            let t = self.trades@;
            assert(t.drop_last() =~= s);
            assert(!has_level(s, key));
            assert(t == add_to_levels(s, key, *trade));
        }
    }

    /// First level of greatest metric under `kind`: its price and metric.
    pub fn compute_poc(&self, kind: ClusterKind) -> (r: Option<(Price, i128)>)
        requires
            self.wf(),
        ensures
            r.is_none() == (self.trades@.len() == 0),
            r matches Some(v) ==> exists|i: int| #[trigger] is_poc_index(self.trades@, kind, i)
                && self.trades@[i].0 == v.0 && level_metric(kind, self.trades@[i]) == v.1,
    {
        let n = self.trades.len();
        if n == 0 {
            return None;
        }
        let mut best: usize = 0;
        proof {
            lemma_level_le_sum(self.trades@, 0);
        }
        let mut best_m: i128 = metric_of(kind, self.trades[0].1);
        let mut i: usize = 1;
        while i < n
            invariant
                self.wf(),
                n == self.trades@.len(),
                1 <= i <= n,
                best < i,
                best_m == level_metric(kind, self.trades@[best as int]),
                forall|j: int| 0 <= j < i ==> #[trigger] level_metric(kind, self.trades@[j]) <= best_m,
                forall|j: int| 0 <= j < best ==> #[trigger] level_metric(kind, self.trades@[j]) < best_m,
            decreases n - i,
        {
            proof {
                lemma_level_le_sum(self.trades@, i as int);
            }
            let m = metric_of(kind, self.trades[i].1);
            if m > best_m {
                best = i;
                best_m = m;
            }
            i = i + 1;
        }
        assert(is_poc_index(self.trades@, kind, best as int));
        Some((self.trades[best].0, best_m))
    }

    /// Recomputes the point of control by volume, with a fresh status.
    pub fn calculate_poc(&mut self)
        requires
            old(self).wf(),
        ensures
            final(self).trades == old(self).trades,
            final(self).wf(),
            poc_matches(final(self).poc, final(self).trades@),
            final(self).poc matches Some(p) ==> p.status == NPoc::Unresolved,
    {
        match self.compute_poc(ClusterKind::VolumeProfile) {
            Some((price, volume)) => {
                proof {
                    let s = self.trades@;
                    let i = choose|i: int| #[trigger] is_poc_index(s, ClusterKind::VolumeProfile, i)
                        && s[i].0 == price && level_metric(ClusterKind::VolumeProfile, s[i]) == volume;
                    let k = choose|k: int| is_poc_index(s, ClusterKind::VolumeProfile, k);
                    lemma_poc_index_unique(s, ClusterKind::VolumeProfile, i, k);
                }
                self.poc = Some(PointOfControl { price, volume, status: NPoc::Unresolved });
            },
            None => {
                self.poc = None;
            },
        }
    }

    pub fn poc_price(&self) -> (r: Option<Price>)
        ensures
            r == (match self.poc { Some(p) => Some(p.price), None => None }),
    {
        match self.poc {
            Some(p) => Some(p.price),
            None => None,
        }
    }

    /// Sets the status of the point of control, where there is one.
    pub fn set_poc_status(&mut self, status: NPoc)
        ensures
            final(self).trades == old(self).trades,
            final(self).poc == (match old(self).poc {
                Some(p) => Some(PointOfControl { status, ..p }),
                None => None,
            }),
    {
        if let Some(p) = self.poc {
            self.poc = Some(PointOfControl { price: p.price, volume: p.volume, status });
        }
    }

    /// Largest metric under `kind` among the levels priced within `[lowest, highest]`, or 0.
    pub fn max_qty_by(&self, highest: Price, lowest: Price, kind: ClusterKind) -> (r: i128)
        requires
            self.wf(),
        ensures
            r == max_metric_within(self.trades@, kind, highest.units as int, lowest.units as int),
    {
        let n = self.trades.len();
        let mut best: i128 = 0;
        let mut i: usize = 0;
        while i < n
            invariant
                self.wf(),
                n == self.trades@.len(),
                i <= n,
                best == max_metric_within(self.trades@.subrange(0, i as int), kind, highest.units as int, lowest.units as int),
            decreases n - i,
        {
            let l = self.trades[i];
            proof {
                lemma_level_le_sum(self.trades@, i as int);
                assert(self.trades@.subrange(0, i as int + 1).drop_last() =~= self.trades@.subrange(0, i as int));
            }
            if lowest.units <= l.0.units && l.0.units <= highest.units {
                let m = metric_of(kind, l.1);
                if m > best {
                    best = m;
                }
            }
            i = i + 1;
        }
        assert(self.trades@.subrange(0, n as int) =~= self.trades@);
        best
    }
}

/// The point of control recorded for `s` is the one that `poc_of` gives.
pub open spec fn poc_matches(poc: Option<PointOfControl>, s: Seq<(Price, GroupedTrades)>) -> bool {
    match poc_of(s) {
        Some((price, volume)) => poc matches Some(p) && p.price == price && p.volume == volume,
        None => poc.is_none(),
    }
}

fn metric_of(kind: ClusterKind, g: GroupedTrades) -> (r: i128)
    requires
        0 <= g.buy_qty,
        0 <= g.sell_qty,
        g.buy_qty + g.sell_qty <= qty_bound(),
    ensures
        r == metric(kind, g.buy_qty as int, g.sell_qty as int),
{
    match kind {
        ClusterKind::BidAsk => if g.buy_qty >= g.sell_qty { g.buy_qty } else { g.sell_qty },
        ClusterKind::DeltaProfile => if g.buy_qty >= g.sell_qty { g.buy_qty - g.sell_qty } else { g.sell_qty - g.buy_qty },
        ClusterKind::VolumeProfile => g.buy_qty + g.sell_qty,
    }
}

} // verus!

//! The set of market streams wanted, grouped per exchange.
use vstd::prelude::*;
use crate::market::{Exchange, StreamKind, StreamSpecs, StreamTicksize, Ticker, Timeframe};

verus! {

pub open spec fn stream_venue(s: StreamKind) -> Exchange {
    match s {
        StreamKind::Kline { ticker, .. } => ticker.venue(),
        StreamKind::DepthAndTrades { ticker, .. } => ticker.venue(),
    }
}

pub open spec fn venue_matches(s: StreamKind, filter: Option<Exchange>) -> bool {
    match filter {
        Some(e) => stream_venue(s) == e,
        None => true,
    }
}

/// The depth streams among `s` on the filtered exchange, in order.
pub open spec fn depth_of(s: Seq<StreamKind>, filter: Option<Exchange>) -> Seq<(Ticker, StreamTicksize)>
    decreases s.len(),
{
    if s.len() == 0 {
        Seq::empty()
    } else {
        let rest = depth_of(s.drop_last(), filter);
        match s.last() {
            StreamKind::DepthAndTrades { ticker, depth_aggr } => if venue_matches(s.last(), filter) {
                rest.push((ticker, depth_aggr))
            } else {
                rest
            },
            _ => rest,
        }
    }
}

/// The kline streams among `s` on the filtered exchange, in order.
pub open spec fn kline_of(s: Seq<StreamKind>, filter: Option<Exchange>) -> Seq<(Ticker, Timeframe)>
    decreases s.len(),
{
    if s.len() == 0 {
        Seq::empty()
    } else {
        let rest = kline_of(s.drop_last(), filter);
        match s.last() {
            StreamKind::Kline { ticker, timeframe } => if venue_matches(s.last(), filter) {
                rest.push((ticker, timeframe))
            } else {
                rest
            },
            _ => rest,
        }
    }
}

/// Some stream of `s` is `x`.
pub open spec fn holds_stream(s: Seq<StreamKind>, x: StreamKind) -> bool {
    exists|j: int| 0 <= j < s.len() && (#[trigger] s[j]) == x
}

pub open spec fn has_venue(s: Seq<StreamKind>, e: Exchange) -> bool {
    exists|i: int| 0 <= i < s.len() && stream_venue(#[trigger] s[i]) == e
}

fn same_stream(a: &StreamKind, b: &StreamKind) -> (r: bool)
    ensures
        r == (*a == *b),
{
    match (a, b) {
        (StreamKind::Kline { ticker: t1, timeframe: f1 }, StreamKind::Kline { ticker: t2, timeframe: f2 }) =>
            t1.same_as(t2) && *f1 == *f2,
        (StreamKind::DepthAndTrades { ticker: t1, depth_aggr: d1 }, StreamKind::DepthAndTrades { ticker: t2, depth_aggr: d2 }) =>
            t1.same_as(t2) && *d1 == *d2,
        _ => false,
    }
}

fn venue_of(s: &StreamKind) -> (r: Exchange)
    ensures
        r == stream_venue(*s),
{
    match s {
        StreamKind::Kline { ticker, .. } => ticker.venue_exchange(),
        StreamKind::DepthAndTrades { ticker, .. } => ticker.venue_exchange(),
    }
}

/// Distinct streams, in the order first added, and per exchange the depth and kline
/// streams that it serves.
#[derive(Debug)]
pub struct UniqueStreams {
    streams: Vec<StreamKind>,
    specs: Vec<(Exchange, StreamSpecs)>,
}

impl UniqueStreams {
    pub closed spec fn view(self) -> Seq<StreamKind> {
        self.streams@
    }

    /// The per-exchange summary, by exchange.
    pub closed spec fn specs_view(self) -> Seq<(Exchange, StreamSpecs)> {
        self.specs@
    }

    pub open spec fn wf(self) -> bool {
        let s = self.view();
        let sp = self.specs_view();
        &&& forall|i: int, j: int| 0 <= i < j < s.len() ==> s[i] != s[j]
        &&& forall|i: int, j: int| 0 <= i < j < sp.len() ==> sp[i].0 != sp[j].0
        &&& forall|j: int| 0 <= j < sp.len() ==> {
            &&& (#[trigger] sp[j]).1.depth@ == depth_of(s, Some(sp[j].0))
            &&& sp[j].1.kline@ == kline_of(s, Some(sp[j].0))
        }
        &&& forall|e: Exchange| has_venue(s, e) ==> exists|j: int| 0 <= j < sp.len() && (#[trigger] sp[j]).0 == e
    }

    pub fn new() -> (r: Self)
        ensures
            r.wf(),
            r.view().len() == 0,
            r.specs_view().len() == 0,
    {
        UniqueStreams { streams: Vec::new(), specs: Vec::new() }
    }

    pub fn from(streams: &[StreamKind]) -> (r: Self)
        ensures
            r.wf(),
            forall|i: int| 0 <= i < streams@.len() ==> holds_stream(r.view(), #[trigger] streams@[i]),
            forall|j: int| 0 <= j < r.view().len() ==> holds_stream(streams@, #[trigger] r.view()[j]),
    {
        let mut r = UniqueStreams::new();
        r.extend(streams);
        r
    }

    /// Adds each stream in turn.
    pub fn extend(&mut self, streams: &[StreamKind])
        requires
            old(self).wf(),
        ensures
            final(self).wf(),
            forall|i: int| 0 <= i < old(self).view().len() ==> #[trigger] final(self).view()[i] == old(self).view()[i],
            forall|i: int| 0 <= i < streams@.len() ==> holds_stream(final(self).view(), #[trigger] streams@[i]),
            forall|j: int| 0 <= j < final(self).view().len() ==> j < old(self).view().len()
                || holds_stream(streams@, #[trigger] final(self).view()[j]),
    {
        let n = streams.len();
        let mut k: usize = 0;
        assert(streams@.subrange(0, 0).len() == 0);
        while k < n
            invariant
                self.wf(),
                n == streams@.len(),
                k <= n,
                old(self).view().len() <= self.view().len(),
                forall|i: int| 0 <= i < old(self).view().len() ==> #[trigger] self.view()[i] == old(self).view()[i],
                forall|i: int| 0 <= i < k ==> holds_stream(self.view(), #[trigger] streams@[i]),
                forall|j: int| 0 <= j < self.view().len() ==> j < old(self).view().len()
                    || holds_stream(streams@.subrange(0, k as int), #[trigger] self.view()[j]),
            decreases n - k,
        {
            let ghost before = self.view();
            self.add(streams[k]);
            proof {
                let now = self.view();
                let pre = streams@.subrange(0, k as int + 1);
                assert forall|i: int| 0 <= i < k + 1 implies holds_stream(now, #[trigger] streams@[i]) by {
                    if i < k {
                        let j = choose|j: int| 0 <= j < before.len() && (#[trigger] before[j]) == streams@[i];
                        assert(now[j] == before[j]);
                    } else {
                        if holds_stream(before, streams@[i]) {
                            let j = choose|j: int| 0 <= j < before.len() && (#[trigger] before[j]) == streams@[i];
                            assert(now[j] == before[j]);
                        } else {
                            assert(now[now.len() - 1] == streams@[i]);
                        }
                    }
                }
                assert forall|j: int| 0 <= j < now.len() implies j < old(self).view().len()
                    || holds_stream(pre, #[trigger] now[j]) by {
                    if j < before.len() {
                        assert(now[j] == before[j]);
                        if j >= old(self).view().len() {
                            let i = choose|i: int| 0 <= i < k && (#[trigger] streams@.subrange(0, k as int)[i]) == before[j];
                            assert(pre[i] == streams@.subrange(0, k as int)[i]);
                        }
                    } else {
                        assert(pre[k as int] == streams@[k as int]);
                    }
                }
            }
            k = k + 1;
        }
        assert(streams@.subrange(0, n as int) =~= streams@);
    }

    /// Adds a stream unless an equal one is there, and refreshes its exchange's summary.
    pub fn add(&mut self, stream: StreamKind)
        requires
            old(self).wf(),
        ensures
            final(self).wf(),
            (exists|i: int| 0 <= i < old(self).view().len() && (#[trigger] old(self).view()[i]) == stream)
                ==> final(self).view() == old(self).view(),
            (forall|i: int| 0 <= i < old(self).view().len() ==> (#[trigger] old(self).view()[i]) != stream)
                ==> final(self).view() == old(self).view().push(stream),
    {
        assert(old(self).specs_view() == old(self).specs@);
        assert(forall|i: int, j: int| 0 <= i < j < old(self).specs@.len() ==> old(self).specs@[i].0 != old(self).specs@[j].0);
        let n = self.streams.len();
        let mut i: usize = 0;
        let mut found = false;
        while i < n && !found
            invariant
                *self == *old(self),
                old(self).wf(),
                n == self.streams@.len(),
                i <= n,
                !found ==> forall|j: int| 0 <= j < i ==> (#[trigger] self.streams@[j]) != stream,
                found ==> i < n && self.streams@[i as int] == stream,
            decreases 2 * (n - i) + (if found { 0int } else { 1int }),
        {
            if same_stream(&self.streams[i], &stream) {
                found = true;
            } else {
                i = i + 1;
            }
        }
        if !found {
            self.streams.push(stream);
            proof {
                let s = self.streams@;
                assert(s.drop_last() == old(self).streams@);
                assert forall|e: Exchange| e != stream_venue(stream) implies
                    depth_of(s, Some(e)) == depth_of(old(self).streams@, Some(e))
                    && kline_of(s, Some(e)) == kline_of(old(self).streams@, Some(e)) by {}
                assert forall|e: Exchange| has_venue(s, e) && e != stream_venue(stream) implies has_venue(old(self).streams@, e) by {
                    let i = choose|i: int| 0 <= i < s.len() && stream_venue(#[trigger] s[i]) == e;
                    assert(i < s.len() - 1);
                    assert(s[i] == old(self).streams@[i]);
                }
            }
        }
        let ex = venue_of(&stream);
        assert(self.specs@ == old(self).specs@);
        assert(forall|i: int, j: int| 0 <= i < j < old(self).specs@.len() ==> old(self).specs@[i].0 != old(self).specs@[j].0);
        self.update_specs_for_exchange(ex);
    }

    fn update_specs_for_exchange(&mut self, exchange: Exchange)
        requires
            forall|i: int, j: int| 0 <= i < j < old(self).streams@.len() ==> old(self).streams@[i] != old(self).streams@[j],
            forall|i: int, j: int| 0 <= i < j < old(self).specs@.len() ==> old(self).specs@[i].0 != old(self).specs@[j].0,
            forall|j: int| 0 <= j < old(self).specs@.len() && old(self).specs@[j].0 != exchange ==> {
                &&& (#[trigger] old(self).specs@[j]).1.depth@ == depth_of(old(self).streams@, Some(old(self).specs@[j].0))
                &&& old(self).specs@[j].1.kline@ == kline_of(old(self).streams@, Some(old(self).specs@[j].0))
            },
            forall|e: Exchange| e != exchange && has_venue(old(self).streams@, e)
                ==> exists|j: int| 0 <= j < old(self).specs@.len() && (#[trigger] old(self).specs@[j]).0 == e,
        ensures
            final(self).wf(),
            final(self).streams == old(self).streams,
    {
        let depth = self.depth_streams(Some(exchange));
        let kline = self.kline_streams(Some(exchange));
        let spec_entry = StreamSpecs { depth, kline };
        assert(spec_entry.depth@ == depth_of(old(self).streams@, Some(exchange)));
        assert(spec_entry.kline@ == kline_of(old(self).streams@, Some(exchange)));
        let n = self.specs.len();
        let mut i: usize = 0;
        while i < n
            invariant
                *self == *old(self),
                spec_entry.depth@ == depth_of(old(self).streams@, Some(exchange)),
                spec_entry.kline@ == kline_of(old(self).streams@, Some(exchange)),
                forall|i: int, j: int| 0 <= i < j < old(self).streams@.len() ==> old(self).streams@[i] != old(self).streams@[j],
                forall|i: int, j: int| 0 <= i < j < old(self).specs@.len() ==> old(self).specs@[i].0 != old(self).specs@[j].0,
                forall|j: int| 0 <= j < old(self).specs@.len() && old(self).specs@[j].0 != exchange ==> {
                    &&& (#[trigger] old(self).specs@[j]).1.depth@ == depth_of(old(self).streams@, Some(old(self).specs@[j].0))
                    &&& old(self).specs@[j].1.kline@ == kline_of(old(self).streams@, Some(old(self).specs@[j].0))
                },
                forall|e: Exchange| e != exchange && has_venue(old(self).streams@, e)
                    ==> exists|j: int| 0 <= j < old(self).specs@.len() && (#[trigger] old(self).specs@[j]).0 == e,
                n == self.specs@.len(),
                i <= n,
                forall|j: int| 0 <= j < i ==> (#[trigger] self.specs@[j]).0 != exchange,
            decreases n - i,
        {
            if self.specs[i].0 == exchange {
                self.specs.set(i, (exchange, spec_entry));
                proof {
                    let sp = self.specs@;
                    assert(sp == old(self).specs@.update(i as int, (exchange, spec_entry)));
                    assert forall|a: int, b: int| 0 <= a < b < sp.len() implies sp[a].0 != sp[b].0 by {
                        assert(old(self).specs@[a].0 != old(self).specs@[b].0);
                    }
                    assert forall|j: int| 0 <= j < sp.len() implies {
                        &&& (#[trigger] sp[j]).1.depth@ == depth_of(self.streams@, Some(sp[j].0))
                        &&& sp[j].1.kline@ == kline_of(self.streams@, Some(sp[j].0))
                    } by {
                        if j != i {
                            assert(old(self).specs@[j].0 != exchange);
                        }
                    }
                    assert forall|e: Exchange| has_venue(self.streams@, e) implies exists|j: int| 0 <= j < sp.len() && (#[trigger] sp[j]).0 == e by {
                        if e != exchange {
                            let j = choose|j: int| 0 <= j < old(self).specs@.len() && (#[trigger] old(self).specs@[j]).0 == e;
                            assert(sp[j].0 == e);
                        } else {
                            assert(sp[i as int].0 == e);
                        }
                    }
                    assert(self.view() == self.streams@);
                    assert(self.specs_view() == sp);
                    assert(forall|a: int, b: int| 0 <= a < b < self.streams@.len() ==> self.streams@[a] != self.streams@[b]);
                }
                return;
            }
            i = i + 1;
        }
        self.specs.push((exchange, spec_entry));
        proof {
            let sp = self.specs@;
            assert forall|j: int| 0 <= j < sp.len() implies {
                &&& (#[trigger] sp[j]).1.depth@ == depth_of(self.streams@, Some(sp[j].0))
                &&& sp[j].1.kline@ == kline_of(self.streams@, Some(sp[j].0))
            } by {
                if j < n {
                    assert(sp[j] == old(self).specs@[j]);
                }
            }
            assert forall|e: Exchange| has_venue(self.streams@, e) implies exists|j: int| 0 <= j < sp.len() && (#[trigger] sp[j]).0 == e by {
                if e != exchange {
                    let j = choose|j: int| 0 <= j < old(self).specs@.len() && (#[trigger] old(self).specs@[j]).0 == e;
                    assert(sp[j].0 == e);
                } else {
                    assert(sp[n as int].0 == e);
                }
            }
            assert forall|a: int, b: int| 0 <= a < b < sp.len() implies sp[a].0 != sp[b].0 by {
                if b == n {
                    assert(old(self).specs@[a].0 != exchange);
                }
            }
            assert(self.view() == self.streams@);
            assert(self.specs_view() == sp);
        }
    }

    /// The depth streams, of one exchange or of all.
    pub fn depth_streams(&self, exchange_filter: Option<Exchange>) -> (r: Vec<(Ticker, StreamTicksize)>)
        ensures
            r@ == depth_of(self.view(), exchange_filter),
    {
        let n = self.streams.len();
        let mut r: Vec<(Ticker, StreamTicksize)> = Vec::new();
        let mut i: usize = 0;
        while i < n
            invariant
                n == self.streams@.len(),
                i <= n,
                r@ == depth_of(self.streams@.subrange(0, i as int), exchange_filter),
            decreases n - i,
        {
            let s = self.streams[i];
            proof {
                assert(self.streams@.subrange(0, i as int + 1).drop_last() =~= self.streams@.subrange(0, i as int));
            }
            match s {
                StreamKind::DepthAndTrades { ticker, depth_aggr } => {
                    let keep = match exchange_filter {
                        Some(e) => ticker.venue_exchange() == e,
                        None => true,
                    };
                    if keep {
                        r.push((ticker, depth_aggr));
                    }
                },
                _ => {},
            }
            i = i + 1;
        }
        assert(self.streams@.subrange(0, n as int) =~= self.streams@);
        r
    }

    /// The kline streams, of one exchange or of all.
    pub fn kline_streams(&self, exchange_filter: Option<Exchange>) -> (r: Vec<(Ticker, Timeframe)>)
        ensures
            r@ == kline_of(self.view(), exchange_filter),
    {
        let n = self.streams.len();
        let mut r: Vec<(Ticker, Timeframe)> = Vec::new();
        let mut i: usize = 0;
        while i < n
            invariant
                n == self.streams@.len(),
                i <= n,
                r@ == kline_of(self.streams@.subrange(0, i as int), exchange_filter),
            decreases n - i,
        {
            let s = self.streams[i];
            proof {
                assert(self.streams@.subrange(0, i as int + 1).drop_last() =~= self.streams@.subrange(0, i as int));
            }
            match s {
                StreamKind::Kline { ticker, timeframe } => {
                    let keep = match exchange_filter {
                        Some(e) => ticker.venue_exchange() == e,
                        None => true,
                    };
                    if keep {
                        r.push((ticker, timeframe));
                    }
                },
                _ => {},
            }
            i = i + 1;
        }
        assert(self.streams@.subrange(0, n as int) =~= self.streams@);
        r
    }

    /// Per exchange that has a stream, its depth and kline streams.
    pub fn combined(&self) -> (r: &Vec<(Exchange, StreamSpecs)>)
        ensures
            r@ == self.specs_view(),
    {
        &self.specs
    }
}

} // verus!

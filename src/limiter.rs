//! Fixed-window request budget. Time is passed in as milliseconds from any fixed origin.
use vstd::prelude::*;

verus! {

/// A budget of `max_tokens` request weight, refilled in full once `refill_rate_ms` has
/// passed since the last refill.
#[derive(Debug, Clone, Copy, PartialEq, Eq)]
pub struct FixedWindowBucket {
    pub max_tokens: usize,
    pub available_tokens: usize,
    pub refill_rate_ms: u64,
    pub last_refill_ms: u64,
}

/// Time since the last refill; a clock that went back counts as none.
pub open spec fn elapsed(b: FixedWindowBucket, now: u64) -> int {
    if now >= b.last_refill_ms {
        now - b.last_refill_ms
    } else {
        0
    }
}

/// The bucket as it stands at `now`: full again where a window has passed.
pub open spec fn refilled(b: FixedWindowBucket, now: u64) -> FixedWindowBucket {
    if elapsed(b, now) >= b.refill_rate_ms {
        FixedWindowBucket { available_tokens: b.max_tokens, last_refill_ms: now, ..b }
    } else {
        b
    }
}

/// How long to wait before sending `weight` at `now`: none where the budget holds it, else
/// the rest of the window.
pub open spec fn wait_for(b: FixedWindowBucket, weight: usize, now: u64) -> Option<u64> {
    let r = refilled(b, now);
    if weight <= r.available_tokens {
        None
    } else {
        Some((r.refill_rate_ms - elapsed(r, now)) as u64)
    }
}

/// The bucket after `weight` was spent at `now`.
pub open spec fn consumed(b: FixedWindowBucket, weight: usize, now: u64) -> FixedWindowBucket {
    let r = refilled(b, now);
    FixedWindowBucket {
        available_tokens: if weight <= r.available_tokens { (r.available_tokens - weight) as usize } else { 0 },
        ..r
    }
}

impl FixedWindowBucket {
    pub open spec fn wf(self) -> bool {
        self.available_tokens <= self.max_tokens
    }

    /// A full bucket whose first window starts at `now_ms`.
    pub fn new(max_tokens: usize, refill_rate_ms: u64, now_ms: u64) -> (r: Self)
        ensures
            r.wf(),
            r == (FixedWindowBucket { max_tokens, available_tokens: max_tokens, refill_rate_ms, last_refill_ms: now_ms }),
    {
        FixedWindowBucket { max_tokens, available_tokens: max_tokens, refill_rate_ms, last_refill_ms: now_ms }
    }

    fn refill(&mut self, now_ms: u64)
        ensures
            *final(self) == refilled(*old(self), now_ms),
    {
        let elapsed: u64 = if now_ms >= self.last_refill_ms { now_ms - self.last_refill_ms } else { 0 };
        if elapsed >= self.refill_rate_ms {
            self.available_tokens = self.max_tokens;
            self.last_refill_ms = now_ms;
        }
    }

    /// Refills where a window has passed; then how long to wait before sending `weight`.
    pub fn calculate_wait_time(&mut self, weight: usize, now_ms: u64) -> (r: Option<u64>)
        requires
            old(self).wf(),
        ensures
            final(self).wf(),
            *final(self) == refilled(*old(self), now_ms),
            r == wait_for(*old(self), weight, now_ms),
    {
        self.refill(now_ms);
        if weight <= self.available_tokens {
            None
        } else {
            let elapsed: u64 = if now_ms >= self.last_refill_ms { now_ms - self.last_refill_ms } else { 0 };
            Some(self.refill_rate_ms - elapsed)
        }
    }

    /// Refills where a window has passed; then spends `weight`, down to an empty budget.
    pub fn consume_tokens(&mut self, weight: usize, now_ms: u64)
        requires
            old(self).wf(),
        ensures
            final(self).wf(),
            *final(self) == consumed(*old(self), weight, now_ms),
    {
        self.refill(now_ms);
        if weight <= self.available_tokens {
            self.available_tokens = self.available_tokens - weight;
        } else {
            self.available_tokens = 0;
        }
    }
}

/// `floor(limit * 0.95)`: the nominal limit less a safety margin of five percent.
pub open spec fn effective_limit(limit: int) -> int {
    (limit * 95) / 100
}

/// Request budget of one exchange's REST interface.
#[derive(Debug, Clone, Copy, PartialEq, Eq)]
pub struct BybitLimiter {
    pub bucket: FixedWindowBucket,
}

impl BybitLimiter {
    /// A limiter of `floor(limit * 0.95)` weight per window of `refill_rate_ms`.
    pub fn new(limit: usize, refill_rate_ms: u64, now_ms: u64) -> (r: Self)
        ensures
            r.bucket.wf(),
            r.bucket.max_tokens == effective_limit(limit as int),
            r.bucket.available_tokens == r.bucket.max_tokens,
            r.bucket.refill_rate_ms == refill_rate_ms,
            r.bucket.last_refill_ms == now_ms,
    {
        let q = limit / 100;
        let m = limit % 100;
        proof {
            let l = limit as int;
            assert(l == 100 * q + m);
            assert((l * 95) / 100 == q * 95 + (m * 95) / 100) by (nonlinear_arith)
                requires l == 100 * q + m, 0 <= m < 100, q >= 0;
            assert(q * 95 + (m * 95) / 100 <= l) by (nonlinear_arith)
                requires l == 100 * q + m, 0 <= m < 100, q >= 0;
        }
        let effective = q * 95 + (m * 95) / 100;
        BybitLimiter { bucket: FixedWindowBucket::new(effective, refill_rate_ms, now_ms) }
    }

    /// How long to wait before a request of `weight` may be sent at `now_ms`.
    pub fn prepare_request(&mut self, weight: usize, now_ms: u64) -> (r: Option<u64>)
        requires
            old(self).bucket.wf(),
        ensures
            final(self).bucket.wf(),
            final(self).bucket == refilled(old(self).bucket, now_ms),
            r == wait_for(old(self).bucket, weight, now_ms),
    {
        self.bucket.calculate_wait_time(weight, now_ms)
    }

    /// Records a request of `weight` sent at `now_ms`.
    pub fn consume(&mut self, weight: usize, now_ms: u64)
        requires
            old(self).bucket.wf(),
        ensures
            final(self).bucket.wf(),
            final(self).bucket == consumed(old(self).bucket, weight, now_ms),
    {
        self.bucket.consume_tokens(weight, now_ms)
    }

    /// Whether a response status means the venue refuses further requests.
    pub fn should_exit_on_response(&self, status: u16) -> (r: bool)
        ensures
            r == (status == 403),
    {
        status == 403
    }
}

/// The bucket after each `(weight, time)` request in turn.
pub open spec fn consumed_all(b: FixedWindowBucket, spent: Seq<(usize, u64)>) -> FixedWindowBucket
    decreases spent.len(),
{
    if spent.len() == 0 {
        b
    } else {
        consumed(consumed_all(b, spent.drop_last()), spent.last().0, spent.last().1)
    }
}

pub open spec fn total_weight(spent: Seq<(usize, u64)>) -> int
    decreases spent.len(),
{
    if spent.len() == 0 {
        0
    } else {
        total_weight(spent.drop_last()) + spent.last().0
    }
}

/// Requests sent within the current window spend the budget, down to empty, and refill nothing.
pub proof fn lemma_consumed_in_window(b: FixedWindowBucket, spent: Seq<(usize, u64)>)
    requires
        b.wf(),
        forall|i: int| 0 <= i < spent.len() ==> b.last_refill_ms <= (#[trigger] spent[i]).1 < b.last_refill_ms + b.refill_rate_ms,
    ensures
        ({
            let c = consumed_all(b, spent);
            &&& c.max_tokens == b.max_tokens
            &&& c.refill_rate_ms == b.refill_rate_ms
            &&& c.last_refill_ms == b.last_refill_ms
            &&& c.available_tokens == (if total_weight(spent) <= b.available_tokens {
                b.available_tokens - total_weight(spent)
            } else {
                0
            })
        }),
    decreases spent.len(),
{
    if spent.len() > 0 {
        assert forall|i: int| 0 <= i < spent.drop_last().len() implies
            b.last_refill_ms <= (#[trigger] spent.drop_last()[i]).1 < b.last_refill_ms + b.refill_rate_ms by {
            assert(spent.drop_last()[i] == spent[i]);
        }
        lemma_consumed_in_window(b, spent.drop_last());
        lemma_total_weight_nonneg(spent.drop_last());
        assert(spent.last() == spent[spent.len() - 1]);
    }
}

proof fn lemma_total_weight_nonneg(spent: Seq<(usize, u64)>)
    ensures
        total_weight(spent) >= 0,
    decreases spent.len(),
{
    if spent.len() > 0 {
        lemma_total_weight_nonneg(spent.drop_last());
    }
}

/// A limiter made with `limit` and a window starting at `t0`, once requests within that window
/// have spent the whole budget `floor(limit * 0.95)`: any further request waits a positive time
/// no longer than what is left of the window; once the window has passed, any request within
/// the budget may go at once.
pub proof fn lemma_full_budget_waits_for_window(
    limit: usize,
    window_ms: u64,
    t0: u64,
    spent: Seq<(usize, u64)>,
    weight: usize,
    now: u64,
)
    requires
        window_ms > 0,
        forall|i: int| 0 <= i < spent.len() ==> t0 <= (#[trigger] spent[i]).1 < t0 + window_ms,
        total_weight(spent) == effective_limit(limit as int),
    ensures
        ({
            let b = FixedWindowBucket {
                max_tokens: effective_limit(limit as int) as usize,
                available_tokens: effective_limit(limit as int) as usize,
                refill_rate_ms: window_ms,
                last_refill_ms: t0,
            };
            let c = consumed_all(b, spent);
            &&& (1 <= weight && t0 <= now < t0 + window_ms) ==> (
                wait_for(c, weight, now) matches Some(d) && 0 < d <= t0 + window_ms - now)
            &&& (weight <= effective_limit(limit as int) && now >= t0 + window_ms) ==> wait_for(c, weight, now).is_none()
        }),
{
    let l = limit as int;
    assert(0 <= (l * 95) / 100 <= l) by (nonlinear_arith)
        requires l >= 0;
    let b = FixedWindowBucket {
        max_tokens: effective_limit(limit as int) as usize,
        available_tokens: effective_limit(limit as int) as usize,
        refill_rate_ms: window_ms,
        last_refill_ms: t0,
    };
    lemma_consumed_in_window(b, spent);
}

} // verus!

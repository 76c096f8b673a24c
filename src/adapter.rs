//! Exchange adapter: canonical events, the connection state machine, and the decisions that
//! turn a venue's wire fields into canonical values.
use vstd::prelude::*;
use crate::depth::Depth;
use crate::market::{Exchange, Kline, MarketKind, StreamKind, Timeframe, Trade, is_heatmap_timeframe};

verus! {

/// Delay before a new connection attempt, in milliseconds.
pub const RECONNECT_DELAY_MS: u64 = 1000;

/// What the adapter hands to its consumer.
#[derive(Debug, Clone)]
pub enum Event {
    Connected(Exchange),
    Disconnected(Exchange, String),
    DepthReceived(StreamKind, u64, Depth, Vec<Trade>),
    KlineReceived(StreamKind, Kline),
}

#[derive(Debug, Clone, Copy, PartialEq, Eq, Structural)]
pub enum ConnState {
    Disconnected,
    Connected,
}

/// What the driver observed since the last step.
#[derive(Debug, Clone)]
pub enum AdapterInput {
    /// Handshake and subscription went through.
    ConnectSucceeded,
    /// The connection could not be set up; the driver has waited the reconnect delay.
    ConnectFailed(String),
    /// The subscription message could not be sent.
    SubscribeFailed(String),
    /// A data frame arrived.
    Frame,
    /// The venue closed the connection.
    Closed,
    /// Reading a frame failed.
    ReadFailed(String),
}

/// What the driver is to do next.
#[derive(Debug, Clone, Copy, PartialEq, Eq, Structural)]
pub enum Action {
    /// Set up the connection and subscribe.
    Connect,
    /// Read the next frame.
    ReadFrame,
}

pub open spec fn is_disconnect(ev: Option<Event>, exchange: Exchange, reason: Seq<char>) -> bool {
    match ev {
        Some(Event::Disconnected(e, r)) => e == exchange && r@ == reason,
        _ => false,
    }
}

pub open spec fn is_connect(ev: Option<Event>, exchange: Exchange) -> bool {
    match ev {
        Some(Event::Connected(e)) => e == exchange,
        _ => false,
    }
}

fn concat_str(prefix: &str, rest: &str) -> (r: String)
    ensures
        r@ == prefix@ + rest@,
{
    let mut r = prefix.to_owned();
    r.append(rest);
    r
}

/// One transition of the connection state machine, with the event it emits.
///
/// A disconnected adapter becomes connected when the connection and the subscription go
/// through, and announces it; a failure keeps it disconnected and is reported. A connected
/// adapter drops to disconnected on a close frame or a read error, and reports why. Any
/// other input changes nothing.
pub fn step(state: ConnState, exchange: Exchange, input: &AdapterInput) -> (r: (ConnState, Option<Event>))
    ensures
        match (state, *input) {
            (ConnState::Disconnected, AdapterInput::ConnectSucceeded) =>
                r.0 == ConnState::Connected && is_connect(r.1, exchange),
            (ConnState::Disconnected, AdapterInput::ConnectFailed(msg)) =>
                r.0 == ConnState::Disconnected && is_disconnect(r.1, exchange, "Failed to connect: "@ + msg@),
            (ConnState::Disconnected, AdapterInput::SubscribeFailed(msg)) =>
                r.0 == ConnState::Disconnected && is_disconnect(r.1, exchange, "Failed subscribing: "@ + msg@),
            (ConnState::Connected, AdapterInput::Closed) =>
                r.0 == ConnState::Disconnected && is_disconnect(r.1, exchange, "Connection closed"@),
            (ConnState::Connected, AdapterInput::ReadFailed(msg)) =>
                r.0 == ConnState::Disconnected && is_disconnect(r.1, exchange, "Error reading frame: "@ + msg@),
            _ => r.0 == state && r.1.is_none(),
        },
{
    match (state, input) {
        (ConnState::Disconnected, AdapterInput::ConnectSucceeded) => (ConnState::Connected, Some(Event::Connected(exchange))),
        (ConnState::Disconnected, AdapterInput::ConnectFailed(msg)) => {
            let reason = concat_str("Failed to connect: ", msg.as_str());
            (ConnState::Disconnected, Some(Event::Disconnected(exchange, reason)))
        },
        (ConnState::Disconnected, AdapterInput::SubscribeFailed(msg)) => {
            let reason = concat_str("Failed subscribing: ", msg.as_str());
            (ConnState::Disconnected, Some(Event::Disconnected(exchange, reason)))
        },
        (ConnState::Connected, AdapterInput::Closed) => {
            let reason = "Connection closed".to_owned();
            (ConnState::Disconnected, Some(Event::Disconnected(exchange, reason)))
        },
        (ConnState::Connected, AdapterInput::ReadFailed(msg)) => {
            let reason = concat_str("Error reading frame: ", msg.as_str());
            (ConnState::Disconnected, Some(Event::Disconnected(exchange, reason)))
        },
        _ => (state, None),
    }
}

/// A disconnected adapter connects; a connected one reads.
pub fn next_action(state: ConnState) -> (r: Action)
    ensures
        r == (if state == ConnState::Disconnected { Action::Connect } else { Action::ReadFrame }),
{
    match state {
        ConnState::Disconnected => Action::Connect,
        ConnState::Connected => Action::ReadFrame,
    }
}

/// Whether two strings hold the same characters.
pub fn str_eq(a: &str, b: &str) -> (r: bool)
    ensures
        r == (a@ == b@),
{
    let n = a.unicode_len();
    if n != b.unicode_len() {
        return false;
    }
    let mut i: usize = 0;
    while i < n
        invariant
            n == a@.len() == b@.len(),
            i <= n,
            forall|j: int| 0 <= j < i ==> a@[j] == b@[j],
        decreases n - i,
    {
        if a.get_char(i) != b.get_char(i) {
            return false;
        }
        i = i + 1;
    }
    assert(a@ =~= b@);
    true
}

/// The Bybit venue of a market.
pub fn bybit_exchange(market: MarketKind) -> (r: Exchange)
    ensures
        r == (match market {
            MarketKind::Spot => Exchange::BybitSpot,
            MarketKind::LinearPerps => Exchange::BybitLinear,
            MarketKind::InversePerps => Exchange::BybitInverse,
        }),
{
    match market {
        MarketKind::Spot => Exchange::BybitSpot,
        MarketKind::LinearPerps => Exchange::BybitLinear,
        MarketKind::InversePerps => Exchange::BybitInverse,
    }
}

/// A trade's side as Bybit writes it: `"Sell"` is a sell, anything else a buy.
pub fn is_sell_side(side: &str) -> (r: bool)
    ensures
        r == (side@ == "Sell"@),
{
    str_eq(side, "Sell")
}

/// How Bybit names a candle interval: its minutes, or `D` for a day.
pub open spec fn interval_name(t: Timeframe) -> Seq<char> {
    match t {
        Timeframe::M1 => seq!['1'],
        Timeframe::M3 => seq!['3'],
        Timeframe::M5 => seq!['5'],
        Timeframe::M15 => seq!['1', '5'],
        Timeframe::M30 => seq!['3', '0'],
        Timeframe::H1 => seq!['6', '0'],
        Timeframe::H2 => seq!['1', '2', '0'],
        Timeframe::H4 => seq!['2', '4', '0'],
        Timeframe::H6 => seq!['3', '6', '0'],
        Timeframe::H12 => seq!['7', '2', '0'],
        Timeframe::D1 => seq!['D'],
        _ => seq![],
    }
}

/// The candle timeframe that Bybit names `interval`, if any.
pub fn string_to_timeframe(interval: &str) -> (r: Option<Timeframe>)
    ensures
        r matches Some(t) ==> !is_heatmap_timeframe(t) && interval_name(t) == interval@,
        r.is_none() ==> forall|t: Timeframe| !is_heatmap_timeframe(t) ==> interval_name(t) != interval@,
{
    proof {
        reveal_strlit("1");
        reveal_strlit("3");
        reveal_strlit("5");
        reveal_strlit("15");
        reveal_strlit("30");
        reveal_strlit("60");
        reveal_strlit("120");
        reveal_strlit("240");
        reveal_strlit("360");
        reveal_strlit("720");
        reveal_strlit("D");
    }
    if str_eq(interval, "1") {
        Some(Timeframe::M1)
    } else if str_eq(interval, "3") {
        Some(Timeframe::M3)
    } else if str_eq(interval, "5") {
        Some(Timeframe::M5)
    } else if str_eq(interval, "15") {
        Some(Timeframe::M15)
    } else if str_eq(interval, "30") {
        Some(Timeframe::M30)
    } else if str_eq(interval, "60") {
        Some(Timeframe::H1)
    } else if str_eq(interval, "120") {
        Some(Timeframe::H2)
    } else if str_eq(interval, "240") {
        Some(Timeframe::H4)
    } else if str_eq(interval, "360") {
        Some(Timeframe::H6)
    } else if str_eq(interval, "720") {
        Some(Timeframe::H12)
    } else if str_eq(interval, "D") {
        Some(Timeframe::D1)
    } else {
        proof {
            assert forall|t: Timeframe| !is_heatmap_timeframe(t) implies interval_name(t) != interval@ by {
                match t {
                    Timeframe::M1 => assert("1"@ =~= interval_name(t)),
                    Timeframe::M3 => assert("3"@ =~= interval_name(t)),
                    Timeframe::M5 => assert("5"@ =~= interval_name(t)),
                    Timeframe::M15 => assert("15"@ =~= interval_name(t)),
                    Timeframe::M30 => assert("30"@ =~= interval_name(t)),
                    Timeframe::H1 => assert("60"@ =~= interval_name(t)),
                    Timeframe::H2 => assert("120"@ =~= interval_name(t)),
                    Timeframe::H4 => assert("240"@ =~= interval_name(t)),
                    Timeframe::H6 => assert("360"@ =~= interval_name(t)),
                    Timeframe::H12 => assert("720"@ =~= interval_name(t)),
                    Timeframe::D1 => assert("D"@ =~= interval_name(t)),
                    _ => {},
                }
            }
        }
        None
    }
}

/// What a Bybit topic carries, by its first dot-separated segment.
#[derive(Debug, Clone, Copy, PartialEq, Eq, Structural)]
pub enum TopicKind {
    Trade,
    Depth,
    Kline,
    Unknown,
}

/// Index of the first `.` of `s` at or after `from`, or its length.
pub open spec fn next_dot(s: Seq<char>, from: int) -> int
    decreases s.len() - from,
{
    if from >= s.len() || from < 0 {
        s.len() as int
    } else if s[from] == '.' {
        from
    } else {
        next_dot(s, from + 1)
    }
}

/// Index just past the last `.` of `s` before `upto`, or 0 where there is none.
pub open spec fn after_last_dot(s: Seq<char>, upto: int) -> int
    decreases upto,
{
    if upto <= 0 {
        0
    } else if s[upto - 1] == '.' {
        upto
    } else {
        after_last_dot(s, upto - 1)
    }
}

pub open spec fn topic_kind_of(first: Seq<char>) -> TopicKind {
    if first == "publicTrade"@ {
        TopicKind::Trade
    } else if first == "orderbook"@ {
        TopicKind::Depth
    } else if first == "kline"@ {
        TopicKind::Kline
    } else {
        TopicKind::Unknown
    }
}

/// The kind of a topic, from the text before its first `.`.
pub fn topic_kind(topic: &str) -> (r: TopicKind)
    ensures
        r == topic_kind_of(topic@.subrange(0, next_dot(topic@, 0))),
{
    let n = topic.unicode_len();
    let mut d: usize = 0;
    while d < n && topic.get_char(d) != '.'
        invariant
            n == topic@.len(),
            d <= n,
            next_dot(topic@, d as int) == next_dot(topic@, 0),
        decreases n - d,
    {
        d = d + 1;
    }
    let first = topic.substring_char(0, d);
    if str_eq(first, "publicTrade") {
        TopicKind::Trade
    } else if str_eq(first, "orderbook") {
        TopicKind::Depth
    } else if str_eq(first, "kline") {
        TopicKind::Kline
    } else {
        TopicKind::Unknown
    }
}

/// The text after the last `.` of a topic (all of it where there is no `.`): the symbol.
pub fn topic_symbol(topic: &str) -> (r: &str)
    ensures
        r@ == topic@.subrange(after_last_dot(topic@, topic@.len() as int), topic@.len() as int),
{
    let n = topic.unicode_len();
    let mut k: usize = n;
    while k > 0 && topic.get_char(k - 1) != '.'
        invariant
            n == topic@.len(),
            k <= n,
            after_last_dot(topic@, k as int) == after_last_dot(topic@, n as int),
        decreases k,
    {
        k = k - 1;
    }
    topic.substring_char(k, n)
}

/// How a depth message is applied to the book.
#[derive(Debug, Clone, Copy, PartialEq, Eq, Structural)]
pub enum DepthMessageKind {
    Snapshot,
    Delta,
    Ignored,
}

/// Bybit marks a full book `snapshot` (or sends update id 1 after a service restart) and an
/// incremental one `delta`.
pub fn classify_depth_message(data_type: &str, update_id: u64) -> (r: DepthMessageKind)
    ensures
        r == (if data_type@ == "snapshot"@ || update_id == 1 {
            DepthMessageKind::Snapshot
        } else if data_type@ == "delta"@ {
            DepthMessageKind::Delta
        } else {
            DepthMessageKind::Ignored
        }),
{
    if str_eq(data_type, "snapshot") || update_id == 1 {
        DepthMessageKind::Snapshot
    } else if str_eq(data_type, "delta") {
        DepthMessageKind::Delta
    } else {
        DepthMessageKind::Ignored
    }
}

} // verus!

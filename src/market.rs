//! Exchanges, markets, tickers, timeframes and stream descriptions.
use vstd::prelude::*;
use crate::price::{Price, PriceStep};

verus! {

#[derive(Debug, Clone, Copy, PartialEq, Eq, Hash, Structural)]
pub enum MarketKind {
    Spot,
    LinearPerps,
    InversePerps,
}

#[derive(Debug, Clone, Copy, PartialEq, Eq, Hash, Structural)]
pub enum Exchange {
    BinanceLinear,
    BinanceInverse,
    BinanceSpot,
    BybitLinear,
    BybitInverse,
    BybitSpot,
    HyperliquidLinear,
    HyperliquidSpot,
}

pub open spec fn market_of(e: Exchange) -> MarketKind {
    match e {
        Exchange::BinanceLinear | Exchange::BybitLinear | Exchange::HyperliquidLinear => MarketKind::LinearPerps,
        Exchange::BinanceInverse | Exchange::BybitInverse => MarketKind::InversePerps,
        Exchange::BinanceSpot | Exchange::BybitSpot | Exchange::HyperliquidSpot => MarketKind::Spot,
    }
}

pub open spec fn in_i64_range(x: int) -> bool {
    i64::MIN <= x <= i64::MAX
}

/// Value of `qty` units at `price`, in atomic units, floored.
pub open spec fn notional(qty: int, price: int) -> int {
    (qty * price) / 100_000_000
}

impl MarketKind {
    pub fn as_str(&self) -> (r: &'static str)
        ensures
            r@ == (match *self {
                MarketKind::Spot => "Spot"@,
                MarketKind::LinearPerps => "Linear"@,
                MarketKind::InversePerps => "Inverse"@,
            }),
    {
        match self {
            MarketKind::Spot => "Spot",
            MarketKind::LinearPerps => "Linear",
            MarketKind::InversePerps => "Inverse",
        }
    }

    /// A size as shown to users: inverse contracts and quote-denominated sizes as they are,
    /// other sizes as their value at `price`.
    pub fn qty_in_quote_value(&self, qty: i64, price: Price, size_in_quote_currency: bool) -> (r: i64)
        requires
            *self != MarketKind::InversePerps && !size_in_quote_currency ==> i64::MIN <= notional(qty as int, price.units as int) <= i64::MAX,
        ensures
            r == (match *self {
                MarketKind::InversePerps => qty as int,
                _ => if size_in_quote_currency { qty as int } else { notional(qty as int, price.units as int) },
            }),
    {
        match self {
            MarketKind::InversePerps => qty,
            _ => {
                if size_in_quote_currency {
                    qty
                } else {
                    let v = (qty as i128) * (price.units as i128);
                    proof {
                        assert(-9_223_372_036_854_775_808int * 9_223_372_036_854_775_807int <= qty as int * price.units as int) by (nonlinear_arith)
                            requires i64::MIN <= qty <= i64::MAX, i64::MIN <= price.units <= i64::MAX;
                        assert(qty as int * price.units as int <= 9_223_372_036_854_775_808int * 9_223_372_036_854_775_808int) by (nonlinear_arith)
                            requires i64::MIN <= qty <= i64::MAX, i64::MIN <= price.units <= i64::MAX;
                    }
                    let q = match v.checked_div_euclid(100_000_000) {
                        Some(q) => q,
                        None => 0,
                    };
                    q as i64
                }
            },
        }
    }
}

/// The name an exchange is shown and stored by.
pub open spec fn exchange_name(e: Exchange) -> Seq<char> {
    match e {
        Exchange::BinanceLinear => "Binance Linear"@,
        Exchange::BinanceInverse => "Binance Inverse"@,
        Exchange::BinanceSpot => "Binance Spot"@,
        Exchange::BybitLinear => "Bybit Linear"@,
        Exchange::BybitInverse => "Bybit Inverse"@,
        Exchange::BybitSpot => "Bybit Spot"@,
        Exchange::HyperliquidLinear => "Hyperliquid Linear"@,
        Exchange::HyperliquidSpot => "Hyperliquid Spot"@,
    }
}

/// The key an exchange is written with in `Exchange:TICKER` keys.
pub open spec fn exchange_key(e: Exchange) -> Seq<char> {
    match e {
        Exchange::BinanceLinear => "BinanceLinear"@,
        Exchange::BinanceInverse => "BinanceInverse"@,
        Exchange::BinanceSpot => "BinanceSpot"@,
        Exchange::BybitLinear => "BybitLinear"@,
        Exchange::BybitInverse => "BybitInverse"@,
        Exchange::BybitSpot => "BybitSpot"@,
        Exchange::HyperliquidLinear => "HyperliquidLinear"@,
        Exchange::HyperliquidSpot => "HyperliquidSpot"@,
    }
}

impl Exchange {
    pub fn display_name(&self) -> (r: &'static str)
        ensures
            r@ == exchange_name(*self),
    {
        match self {
            Exchange::BinanceLinear => "Binance Linear",
            Exchange::BinanceInverse => "Binance Inverse",
            Exchange::BinanceSpot => "Binance Spot",
            Exchange::BybitLinear => "Bybit Linear",
            Exchange::BybitInverse => "Bybit Inverse",
            Exchange::BybitSpot => "Bybit Spot",
            Exchange::HyperliquidLinear => "Hyperliquid Linear",
            Exchange::HyperliquidSpot => "Hyperliquid Spot",
        }
    }

    /// The exchange whose display name is `s`.
    pub fn from_display_name(s: &str) -> (r: Option<Exchange>)
        ensures
            r matches Some(e) ==> exchange_name(e) == s@,
            r.is_none() ==> forall|e: Exchange| exchange_name(e) != s@,
    {
        let mut k: usize = 0;
        while k < 8
            invariant
                k <= 8,
                forall|j: int| 0 <= j < k ==> exchange_name(#[trigger] exchange_at(j)) != s@,
            decreases 8 - k,
        {
            let e = exchange_at_exec(k);
            if crate::adapter::str_eq(e.display_name(), s) {
                return Some(e);
            }
            k = k + 1;
        }
        proof {
            assert forall|e: Exchange| exchange_name(e) != s@ by {
                lemma_exchange_index(e);
            }
        }
        None
    }

    pub fn key_name(&self) -> (r: &'static str)
        ensures
            r@ == exchange_key(*self),
    {
        match self {
            Exchange::BinanceLinear => "BinanceLinear",
            Exchange::BinanceInverse => "BinanceInverse",
            Exchange::BinanceSpot => "BinanceSpot",
            Exchange::BybitLinear => "BybitLinear",
            Exchange::BybitInverse => "BybitInverse",
            Exchange::BybitSpot => "BybitSpot",
            Exchange::HyperliquidLinear => "HyperliquidLinear",
            Exchange::HyperliquidSpot => "HyperliquidSpot",
        }
    }

    /// The exchange whose key is `s`.
    pub fn from_key_name(s: &str) -> (r: Option<Exchange>)
        ensures
            r matches Some(e) ==> exchange_key(e) == s@,
            r.is_none() ==> forall|e: Exchange| exchange_key(e) != s@,
    {
        let mut k: usize = 0;
        while k < 8
            invariant
                k <= 8,
                forall|j: int| 0 <= j < k ==> exchange_key(#[trigger] exchange_at(j)) != s@,
            decreases 8 - k,
        {
            let e = exchange_at_exec(k);
            if crate::adapter::str_eq(e.key_name(), s) {
                return Some(e);
            }
            k = k + 1;
        }
        proof {
            assert forall|e: Exchange| exchange_key(e) != s@ by {
                lemma_exchange_index(e);
            }
        }
        None
    }

    pub fn market_type(&self) -> (r: MarketKind)
        ensures
            r == market_of(*self),
    {
        match self {
            Exchange::BinanceLinear | Exchange::BybitLinear | Exchange::HyperliquidLinear => MarketKind::LinearPerps,
            Exchange::BinanceInverse | Exchange::BybitInverse => MarketKind::InversePerps,
            Exchange::BinanceSpot | Exchange::BybitSpot | Exchange::HyperliquidSpot => MarketKind::Spot,
        }
    }

    /// Whether the depth stream of this venue is aggregated on the client side.
    pub fn is_depth_client_aggr(&self) -> (r: bool)
        ensures
            r == (*self == Exchange::BinanceLinear || *self == Exchange::BinanceInverse
                || *self == Exchange::BybitLinear || *self == Exchange::BybitInverse),
    {
        match self {
            Exchange::BinanceLinear | Exchange::BinanceInverse | Exchange::BybitLinear | Exchange::BybitInverse => true,
            _ => false,
        }
    }
}

/// The exchanges in a fixed order.
pub open spec fn exchange_at(i: int) -> Exchange {
    if i == 0 {
        Exchange::BinanceLinear
    } else if i == 1 {
        Exchange::BinanceInverse
    } else if i == 2 {
        Exchange::BinanceSpot
    } else if i == 3 {
        Exchange::BybitLinear
    } else if i == 4 {
        Exchange::BybitInverse
    } else if i == 5 {
        Exchange::BybitSpot
    } else if i == 6 {
        Exchange::HyperliquidLinear
    } else {
        Exchange::HyperliquidSpot
    }
}

proof fn lemma_exchange_index(e: Exchange)
    ensures
        exists|i: int| 0 <= i < 8 && #[trigger] exchange_at(i) == e,
{
    match e {
        Exchange::BinanceLinear => assert(exchange_at(0) == e),
        Exchange::BinanceInverse => assert(exchange_at(1) == e),
        Exchange::BinanceSpot => assert(exchange_at(2) == e),
        Exchange::BybitLinear => assert(exchange_at(3) == e),
        Exchange::BybitInverse => assert(exchange_at(4) == e),
        Exchange::BybitSpot => assert(exchange_at(5) == e),
        Exchange::HyperliquidLinear => assert(exchange_at(6) == e),
        Exchange::HyperliquidSpot => assert(exchange_at(7) == e),
    }
}

fn exchange_at_exec(i: usize) -> (r: Exchange)
    ensures
        r == exchange_at(i as int),
{
    if i == 0 {
        Exchange::BinanceLinear
    } else if i == 1 {
        Exchange::BinanceInverse
    } else if i == 2 {
        Exchange::BinanceSpot
    } else if i == 3 {
        Exchange::BybitLinear
    } else if i == 4 {
        Exchange::BybitInverse
    } else if i == 5 {
        Exchange::BybitSpot
    } else if i == 6 {
        Exchange::HyperliquidLinear
    } else {
        Exchange::HyperliquidSpot
    }
}

#[derive(Debug, Clone, Copy, PartialEq, Eq, Hash, Structural)]
pub enum Timeframe {
    MS100,
    MS200,
    MS500,
    MS1000,
    M1,
    M3,
    M5,
    M15,
    M30,
    H1,
    H2,
    H4,
    H6,
    H12,
    D1,
}

/// The sub-second timeframes, used by heatmaps.
pub open spec fn is_heatmap_timeframe(t: Timeframe) -> bool {
    t == Timeframe::MS100 || t == Timeframe::MS200 || t == Timeframe::MS500 || t == Timeframe::MS1000
}

pub open spec fn timeframe_name(t: Timeframe) -> Seq<char> {
    match t {
        Timeframe::MS100 => "100ms"@,
        Timeframe::MS200 => "200ms"@,
        Timeframe::MS500 => "500ms"@,
        Timeframe::MS1000 => "1s"@,
        Timeframe::M1 => "1m"@,
        Timeframe::M3 => "3m"@,
        Timeframe::M5 => "5m"@,
        Timeframe::M15 => "15m"@,
        Timeframe::M30 => "30m"@,
        Timeframe::H1 => "1h"@,
        Timeframe::H2 => "2h"@,
        Timeframe::H4 => "4h"@,
        Timeframe::H6 => "6h"@,
        Timeframe::H12 => "12h"@,
        Timeframe::D1 => "1d"@,
    }
}

pub open spec fn minutes_of(t: Timeframe) -> int {
    match t {
        Timeframe::M1 => 1,
        Timeframe::M3 => 3,
        Timeframe::M5 => 5,
        Timeframe::M15 => 15,
        Timeframe::M30 => 30,
        Timeframe::H1 => 60,
        Timeframe::H2 => 120,
        Timeframe::H4 => 240,
        Timeframe::H6 => 360,
        Timeframe::H12 => 720,
        Timeframe::D1 => 1440,
        _ => 0,
    }
}

pub open spec fn millis_of(t: Timeframe) -> int {
    match t {
        Timeframe::MS100 => 100,
        Timeframe::MS200 => 200,
        Timeframe::MS500 => 500,
        Timeframe::MS1000 => 1000,
        _ => minutes_of(t) * 60_000,
    }
}

impl Timeframe {
    /// Short name: `100ms` ... `1s`, `1m` ... `30m`, `1h` ... `12h`, `1d`.
    pub fn as_str(self) -> (r: &'static str)
        ensures
            r@ == timeframe_name(self),
    {
        match self {
            Timeframe::MS100 => "100ms",
            Timeframe::MS200 => "200ms",
            Timeframe::MS500 => "500ms",
            Timeframe::MS1000 => "1s",
            Timeframe::M1 => "1m",
            Timeframe::M3 => "3m",
            Timeframe::M5 => "5m",
            Timeframe::M15 => "15m",
            Timeframe::M30 => "30m",
            Timeframe::H1 => "1h",
            Timeframe::H2 => "2h",
            Timeframe::H4 => "4h",
            Timeframe::H6 => "6h",
            Timeframe::H12 => "12h",
            Timeframe::D1 => "1d",
        }
    }

    /// Whether this is one of the candle timeframes (a whole number of minutes).
    pub fn is_kline(self) -> (r: bool)
        ensures
            r == !is_heatmap_timeframe(self),
    {
        match self {
            Timeframe::MS100 | Timeframe::MS200 | Timeframe::MS500 | Timeframe::MS1000 => false,
            _ => true,
        }
    }

    /// Length in minutes of a candle timeframe.
    pub fn to_minutes(self) -> (r: u16)
        requires
            !is_heatmap_timeframe(self),
        ensures
            r == minutes_of(self),
    {
        match self {
            Timeframe::M1 => 1,
            Timeframe::M3 => 3,
            Timeframe::M5 => 5,
            Timeframe::M15 => 15,
            Timeframe::M30 => 30,
            Timeframe::H1 => 60,
            Timeframe::H2 => 120,
            Timeframe::H4 => 240,
            Timeframe::H6 => 360,
            Timeframe::H12 => 720,
            _ => 1440,
        }
    }

    pub fn to_milliseconds(self) -> (r: u64)
        ensures
            r == millis_of(self),
    {
        match self {
            Timeframe::MS100 => 100,
            Timeframe::MS200 => 200,
            Timeframe::MS500 => 500,
            Timeframe::MS1000 => 1_000,
            _ => {
                let minutes = self.to_minutes();
                minutes as u64 * 60_000
            },
        }
    }
}

/// Largest quantity of one trade, in atomic units of the base asset: any i64.
pub const MAX_TRADE_QTY: i64 = 9_223_372_036_854_775_807;

/// Largest magnitude of a price, in atomic units.
pub const MAX_PRICE_UNITS: i64 = 4_611_686_018_427_387_904;

#[derive(Debug, Clone, Copy, PartialEq, Eq)]
pub struct Trade {
    pub time: u64,
    pub is_sell: bool,
    pub price: Price,
    pub qty: i64,
}

impl Trade {
    /// A non-negative quantity, and a price within `MAX_PRICE_UNITS` of zero.
    pub open spec fn wf(self) -> bool {
        0 <= self.qty && -MAX_PRICE_UNITS <= self.price.units <= MAX_PRICE_UNITS
    }
}

/// A candle. `volume` is `(buy, sell)`; a buy volume of `-1` marks a venue that reports
/// only the total, held in the sell slot.
#[derive(Debug, Clone, Copy, PartialEq, Eq)]
pub struct Kline {
    pub time: u64,
    pub open: Price,
    pub high: Price,
    pub low: Price,
    pub close: Price,
    pub volume: (i128, i128),
}

/// A millisecond count that names no timeframe.
#[derive(Debug, Clone, Copy, PartialEq, Eq)]
pub struct InvalidTimeframe(pub u64);

#[derive(Debug, Clone, Copy, PartialEq, Eq, Hash, Structural)]
pub enum PreferredCurrency {
    Quote,
    Base,
}

/// Characters that a ticker may hold.
pub open spec fn is_ticker_char(c: char) -> bool {
    ('0' <= c <= '9') || ('A' <= c <= 'Z') || c == '_'
}

/// Characters that a venue's symbol may hold to be supported.
pub open spec fn is_symbol_char(c: char) -> bool {
    ('0' <= c <= '9') || ('A' <= c <= 'Z') || ('a' <= c <= 'z') || c == '_'
}

pub open spec fn valid_ticker_str(s: Seq<char>) -> bool {
    s.len() <= Ticker::MAX_LEN && forall|i: int| 0 <= i < s.len() ==> is_ticker_char(#[trigger] s[i])
}

/// Whether every character of `symbol` is an ASCII letter, digit or underscore.
pub fn is_symbol_supported(symbol: &str, exchange: Exchange, log: bool) -> (r: bool)
    ensures
        r == forall|i: int| 0 <= i < symbol@.len() ==> is_symbol_char(#[trigger] symbol@[i]),
{
    let n = symbol.unicode_len();
    let mut i: usize = 0;
    while i < n
        invariant
            n == symbol@.len(),
            i <= n,
            forall|j: int| 0 <= j < i ==> is_symbol_char(#[trigger] symbol@[j]),
        decreases n - i,
    {
        let c = symbol.get_char(i);
        if !(('0' <= c && c <= '9') || ('A' <= c && c <= 'Z') || ('a' <= c && c <= 'z') || c == '_') {
            return false;
        }
        i = i + 1;
    }
    true
}

/// Relies on String::push: the character is appended at the end.
#[verifier::external_body]
pub(crate) fn push_char(s: &mut String, c: char)
    ensures
        final(s)@ == old(s)@.push(c),
{
    s.push(c)
}

/// An exchange symbol of at most twenty characters out of `0-9`, `A-Z` and `_`.
#[derive(Debug, Clone, Copy, PartialEq, Eq, Hash)]
pub struct Ticker {
    data: [u8; 20],
    len: u8,
    pub exchange: Exchange,
}

impl Ticker {
    pub const MAX_LEN: usize = 20;

    /// The venue of this ticker.
    pub closed spec fn venue(self) -> Exchange {
        self.exchange
    }

    /// The symbol's characters.
    pub closed spec fn symbol(self) -> Seq<char> {
        Seq::new(self.len as nat, |i: int| self.data@[i] as char)
    }

    #[verifier::type_invariant]
    closed spec fn wf(self) -> bool {
        &&& self.len <= 20
        &&& forall|i: int| 0 <= i < self.len ==> is_ticker_char(#[trigger] self.data@[i] as char)
        &&& forall|i: int| self.len <= i < 20 ==> #[trigger] self.data@[i] == 0
    }

    pub fn new(ticker: &str, exchange: Exchange) -> (r: Self)
        requires
            valid_ticker_str(ticker@),
        ensures
            r.symbol() == ticker@,
            r.venue() == exchange,
    {
        let n = ticker.unicode_len();
        let mut data = [0u8; 20];
        let mut i: usize = 0;
        while i < n
            invariant
                n == ticker@.len() <= 20,
                valid_ticker_str(ticker@),
                i <= n,
                data@.len() == 20,
                forall|j: int| 0 <= j < i ==> data@[j] as char == #[trigger] ticker@[j],
                forall|j: int| i <= j < 20 ==> #[trigger] data@[j] == 0,
            decreases n - i,
        {
            let c = ticker.get_char(i);
            assert(is_ticker_char(ticker@[i as int]));
            data[i] = c as u8;
            i = i + 1;
        }
        assert forall|j: int| 0 <= j < n implies is_ticker_char(#[trigger] data@[j] as char) by {
            assert(data@[j] as char == ticker@[j]);
        }
        let r = Ticker { data, len: n as u8, exchange };
        assert(r.symbol() =~= ticker@);
        r
    }

    /// The symbol's characters (underscores included) and the market of its venue.
    pub fn to_full_symbol_and_type(&self) -> (r: (String, MarketKind))
        ensures
            r.0@ == self.symbol(),
            r.1 == market_of(self.venue()),
    {
        proof {
            use_type_invariant(self);
        }
        let mut result = String::new();
        let mut i: u8 = 0;
        while i < self.len
            invariant
                self.wf(),
                i <= self.len,
                result@ == self.symbol().subrange(0, i as int),
            decreases self.len - i,
        {
            push_char(&mut result, self.data[i as usize] as char);
            i = i + 1;
            assert(result@ =~= self.symbol().subrange(0, i as int));
        }
        assert(self.symbol().subrange(0, self.len as int) =~= self.symbol());
        (result, self.market_type())
    }

    /// The symbol up to its first underscore, and the market of its venue.
    pub fn display_symbol_and_type(&self) -> (r: (String, MarketKind))
        ensures
            r.0@ == display_symbol(self.symbol()),
            r.1 == market_of(self.venue()),
    {
        proof {
            use_type_invariant(self);
        }
        let mut result = String::new();
        let mut i: u8 = 0;
        while i < self.len
            invariant
                self.wf(),
                i <= self.len,
                result@ == self.symbol().subrange(0, i as int),
                forall|j: int| 0 <= j < i ==> #[trigger] self.symbol()[j] != '_',
            decreases self.len - i,
        {
            let c = self.data[i as usize] as char;
            if c == '_' {
                proof {
                    lemma_display_symbol_cut(self.symbol(), i as int);
                }
                return (result, self.market_type());
            }
            push_char(&mut result, c);
            i = i + 1;
            assert(result@ =~= self.symbol().subrange(0, i as int));
        }
        proof {
            lemma_display_symbol_cut(self.symbol(), self.len as int);
        }
        (result, self.market_type())
    }

    pub fn market_type(&self) -> (r: MarketKind)
        ensures
            r == market_of(self.venue()),
    {
        self.exchange.market_type()
    }

    pub fn venue_exchange(&self) -> (r: Exchange)
        ensures
            r == self.venue(),
    {
        self.exchange
    }

    /// Whether two tickers name the same symbol on the same venue.
    pub fn same_as(&self, other: &Ticker) -> (r: bool)
        ensures
            r == (*self == *other),
            r == (self.symbol() == other.symbol() && self.venue() == other.venue()),
    {
        proof {
            use_type_invariant(self);
            use_type_invariant(other);
        }
        let (a, _) = self.to_full_symbol_and_type();
        let (b, _) = other.to_full_symbol_and_type();
        let r = crate::adapter::str_eq(a.as_str(), b.as_str()) && self.exchange == other.exchange;
        proof {
            if self.symbol() == other.symbol() {
                assert(self.len == other.len) by {
                    assert(self.symbol().len() == self.len);
                }
                assert forall|i: int| 0 <= i < 20 implies self.data@[i] == other.data@[i] by {
                    if i < self.len {
                        assert(self.symbol()[i] == other.symbol()[i]);
                    }
                }
                assert(self.data =~= other.data);
            }
        }
        r
    }

}

/// Index of the first underscore of `s`, or its length where it has none.
pub open spec fn first_underscore(s: Seq<char>) -> int
    decreases s.len(),
{
    if s.len() == 0 {
        0
    } else if s[0] == '_' {
        0
    } else {
        1 + first_underscore(s.subrange(1, s.len() as int))
    }
}

/// The part of a symbol shown to users: everything before the first underscore.
pub open spec fn display_symbol(s: Seq<char>) -> Seq<char> {
    s.subrange(0, first_underscore(s))
}

proof fn lemma_display_symbol_cut(s: Seq<char>, k: int)
    requires
        0 <= k <= s.len(),
        k == s.len() || s[k] == '_',
        forall|j: int| 0 <= j < k ==> #[trigger] s[j] != '_',
    ensures
        first_underscore(s) == k,
    decreases s.len(),
{
    if s.len() > 0 && k > 0 {
        let t = s.subrange(1, s.len() as int);
        assert forall|j: int| 0 <= j < k - 1 implies #[trigger] t[j] != '_' by {
            assert(t[j] == s[j + 1]);
        }
        lemma_display_symbol_cut(t, k - 1);
    }
}

/// An `(exchange, ticker)` pair used as a key.
#[derive(Debug, Clone, Copy, PartialEq, Eq, Hash)]
pub struct SerTicker {
    pub exchange: Exchange,
    pub ticker: Ticker,
}

impl SerTicker {
    pub fn new(exchange: Exchange, ticker_str: &str) -> (r: Self)
        requires
            valid_ticker_str(ticker_str@),
        ensures
            r.exchange == exchange,
            r.ticker.symbol() == ticker_str@,
            r.ticker.venue() == exchange,
    {
        let ticker = Ticker::new(ticker_str, exchange);
        SerTicker { exchange, ticker }
    }

    /// The key text `Exchange:TICKER`.
    pub fn to_key_string(&self) -> (r: String)
        ensures
            r@ == exchange_key(self.exchange) + ":"@ + self.ticker.symbol(),
    {
        let (sym, _) = self.ticker.to_full_symbol_and_type();
        let mut r = self.exchange.key_name().to_owned();
        r.append(":");
        r.append(sym.as_str());
        r
    }

    /// Reads key text `Exchange:TICKER`: exactly one `:`, a known exchange key before it and a
    /// valid ticker after it.
    pub fn from_key(s: &str) -> (r: Option<SerTicker>)
        ensures
            r matches Some(t) ==> exists|c: int| 0 <= c < s@.len() && #[trigger] s@[c] == ':' && {
                &&& forall|j: int| 0 <= j < s@.len() && j != c ==> #[trigger] s@[j] != ':'
                &&& exchange_key(t.exchange) == s@.subrange(0, c)
                &&& t.ticker.symbol() == s@.subrange(c + 1, s@.len() as int)
                &&& t.ticker.venue() == t.exchange
            },
            r.is_none() ==> !exists|c: int| 0 <= c < s@.len() && #[trigger] s@[c] == ':' && {
                &&& forall|j: int| 0 <= j < s@.len() && j != c ==> #[trigger] s@[j] != ':'
                &&& exists|e: Exchange| exchange_key(e) == s@.subrange(0, c)
                &&& valid_ticker_str(s@.subrange(c + 1, s@.len() as int))
            },
    {
        let n = s.unicode_len();
        let mut i: usize = 0;
        let mut colon: usize = n;
        let mut count: usize = 0;
        while i < n
            invariant
                n == s@.len(),
                i <= n,
                count <= i,
                count == 0 ==> colon == n && forall|j: int| 0 <= j < i ==> #[trigger] s@[j] != ':',
                count == 1 ==> colon < i && s@[colon as int] == ':' && forall|j: int| 0 <= j < i && j != colon ==> #[trigger] s@[j] != ':',
                count >= 2 ==> exists|a: int, b: int| 0 <= a < b < i && s@[a] == ':' && s@[b] == ':',
            decreases n - i,
        {
            if s.get_char(i) == ':' {
                if count == 0 {
                    colon = i;
                } else if count == 1 {
                    assert(s@[colon as int] == ':' && s@[i as int] == ':');
                }
                count = count + 1;
            }
            i = i + 1;
        }
        if count != 1 {
            proof {
                if count >= 2 {
                    let (a, b) = choose|a: int, b: int| 0 <= a < b < i && s@[a] == ':' && s@[b] == ':';
                    assert forall|c: int| 0 <= c < s@.len() && #[trigger] s@[c] == ':' implies
                        !(forall|j: int| 0 <= j < s@.len() && j != c ==> #[trigger] s@[j] != ':') by {
                        if c == a {
                            assert(s@[b] == ':');
                        } else {
                            assert(s@[a] == ':');
                        }
                    }
                }
            }
            return None;
        }
        let left = s.substring_char(0, colon);
        let right = s.substring_char(colon + 1, n);
        proof {
            assert forall|c: int| 0 <= c < s@.len() && #[trigger] s@[c] == ':' &&
                (forall|j: int| 0 <= j < s@.len() && j != c ==> #[trigger] s@[j] != ':') implies c == colon by {
                if c != colon {
                    assert(s@[colon as int] == ':');
                }
            }
        }
        let exchange = match Exchange::from_key_name(left) {
            Some(e) => e,
            None => return None,
        };
        let m = right.unicode_len();
        if m > Ticker::MAX_LEN {
            return None;
        }
        let mut k: usize = 0;
        let mut ok = true;
        while k < m
            invariant
                m == right@.len(),
                k <= m,
                ok ==> forall|j: int| 0 <= j < k ==> is_ticker_char(#[trigger] right@[j]),
                !ok ==> exists|j: int| 0 <= j < k && !is_ticker_char(#[trigger] right@[j]),
            decreases m - k,
        {
            let c = right.get_char(k);
            if !(('0' <= c && c <= '9') || ('A' <= c && c <= 'Z') || c == '_') {
                ok = false;
            }
            k = k + 1;
        }
        if !ok {
            return None;
        }
        let ticker = Ticker::new(right, exchange);
        Some(SerTicker { exchange, ticker })
    }

    /// Pairs a ticker with an exchange of the same market.
    pub fn from_parts(exchange: Exchange, ticker: Ticker) -> (r: Self)
        requires
            market_of(ticker.venue()) == market_of(exchange),
        ensures
            r.exchange == exchange,
            r.ticker == ticker,
    {
        SerTicker { exchange, ticker }
    }
}

/// Minimum price and quantity increments of a ticker, in atomic units.
#[derive(Debug, Clone, Copy, PartialEq, Eq)]
pub struct TickerInfo {
    pub ticker: Ticker,
    pub min_ticksize: PriceStep,
    pub min_qty: i64,
}

impl TickerInfo {
    pub fn market_type(&self) -> (r: MarketKind)
        ensures
            r == market_of(self.ticker.venue()),
    {
        self.ticker.market_type()
    }

    pub fn is_perps(&self) -> (r: bool)
        ensures
            r == (market_of(self.ticker.venue()) != MarketKind::Spot),
    {
        let m = self.ticker.market_type();
        m == MarketKind::LinearPerps || m == MarketKind::InversePerps
    }

    pub fn exchange(&self) -> (r: Exchange)
        ensures
            r == self.ticker.venue(),
    {
        self.ticker.exchange
    }
}

/// A multiple of a ticker's minimum tick size.
#[derive(Debug, Clone, Copy, PartialEq, Eq, Hash, Structural)]
pub struct TickMultiplier(pub u16);

/// The multipliers offered by default.
pub open spec fn is_preset_multiplier(m: u16) -> bool {
    m == 1 || m == 2 || m == 5 || m == 10 || m == 25 || m == 50 || m == 100 || m == 200 || m == 500
}

impl TickMultiplier {
    /// The chart's price step: the ticker's minimum tick size times the multiplier.
    pub fn multiply_with_min_tick_size(&self, ticker_info: TickerInfo) -> (r: PriceStep)
        requires
            in_i64_range(self.0 as int * ticker_info.min_ticksize.units as int),
        ensures
            r.units == self.0 as int * ticker_info.min_ticksize.units as int,
    {
        PriceStep { units: self.0 as i64 * ticker_info.min_ticksize.units }
    }

    /// Whether the multiplier is not one of the presets.
    pub fn is_custom(&self) -> (r: bool)
        ensures
            r == !is_preset_multiplier(self.0),
    {
        let m = self.0;
        !(m == 1 || m == 2 || m == 5 || m == 10 || m == 25 || m == 50 || m == 100 || m == 200 || m == 500)
    }
}

/// Where a depth stream is aggregated to a tick size.
#[derive(Debug, Clone, Copy, PartialEq, Eq, Hash, Structural)]
pub enum StreamTicksize {
    ServerSide(TickMultiplier),
    Client,
}

#[derive(Debug, Clone, Copy, PartialEq, Eq, Hash)]
pub enum StreamKind {
    Kline { ticker: Ticker, timeframe: Timeframe },
    DepthAndTrades { ticker: Ticker, depth_aggr: StreamTicksize },
}

impl StreamKind {
    pub fn ticker(&self) -> (r: Ticker)
        ensures
            r == (match *self {
                StreamKind::Kline { ticker, .. } => ticker,
                StreamKind::DepthAndTrades { ticker, .. } => ticker,
            }),
    {
        match self {
            StreamKind::Kline { ticker, .. } => *ticker,
            StreamKind::DepthAndTrades { ticker, .. } => *ticker,
        }
    }

    pub fn as_depth_stream(&self) -> (r: Option<(Ticker, StreamTicksize)>)
        ensures
            r == (match *self {
                StreamKind::DepthAndTrades { ticker, depth_aggr } => Some((ticker, depth_aggr)),
                _ => None,
            }),
    {
        match self {
            StreamKind::DepthAndTrades { ticker, depth_aggr } => Some((*ticker, *depth_aggr)),
            _ => None,
        }
    }

    pub fn as_kline_stream(&self) -> (r: Option<(Ticker, Timeframe)>)
        ensures
            r == (match *self {
                StreamKind::Kline { ticker, timeframe } => Some((ticker, timeframe)),
                _ => None,
            }),
    {
        match self {
            StreamKind::Kline { ticker, timeframe } => Some((*ticker, *timeframe)),
            _ => None,
        }
    }
}

/// The depth and kline streams wanted from one exchange.
#[derive(Debug, Clone)]
pub struct StreamSpecs {
    pub depth: Vec<(Ticker, StreamTicksize)>,
    pub kline: Vec<(Ticker, Timeframe)>,
}

#[derive(Debug, Clone)]
pub struct StreamConfig<I> {
    pub id: I,
    pub market_type: MarketKind,
    pub tick_mltp: Option<TickMultiplier>,
}

impl<I> StreamConfig<I> {
    pub fn new(id: I, exchange: Exchange, tick_mltp: Option<TickMultiplier>) -> (r: Self)
        ensures
            r.id == id,
            r.market_type == market_of(exchange),
            r.tick_mltp == tick_mltp,
    {
        let market_type = exchange.market_type();
        StreamConfig { id, market_type, tick_mltp }
    }
}

} // verus!

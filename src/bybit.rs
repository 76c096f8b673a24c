//! Decisions of the Bybit REST and stream clients that do not depend on the network.
use vstd::prelude::*;
use crate::adapter::{interval_name, str_eq};
use crate::market::{Exchange, MarketKind, Ticker, Timeframe, is_heatmap_timeframe, millis_of, is_symbol_char, market_of};

verus! {

/// Largest number of candles one kline request asks for.
pub const KLINE_REQUEST_MAX: u64 = 1000;
/// Largest number of records one open-interest request asks for.
pub const OI_REQUEST_MAX: u64 = 200;
/// Records asked for where no range is given.
pub const DEFAULT_REQUEST_LIMIT: u64 = 200;

/// Failures of an exchange adapter.
#[derive(Debug, Clone, PartialEq, Eq)]
pub enum AdapterError {
    /// The transport or HTTP layer failed.
    FetchError(String),
    /// A payload did not have the expected shape.
    ParseError(String),
    /// A frame-level protocol failure.
    WebsocketError(String),
    /// The caller asked for an unsupported combination.
    InvalidRequest(String),
}

/// Venue families that serve open interest.
#[derive(Debug, Clone, Copy, PartialEq, Eq, Structural)]
pub enum OpenInterestVenue {
    Binance,
    Bybit,
}

/// Open interest exists for the perpetual markets of Binance and Bybit only; any other
/// exchange is an invalid request.
pub fn open_interest_venue(exchange: Exchange) -> (r: Result<OpenInterestVenue, AdapterError>)
    ensures
        match exchange {
            Exchange::BinanceLinear | Exchange::BinanceInverse => r == Ok::<OpenInterestVenue, AdapterError>(OpenInterestVenue::Binance),
            Exchange::BybitLinear | Exchange::BybitInverse => r == Ok::<OpenInterestVenue, AdapterError>(OpenInterestVenue::Bybit),
            _ => r matches Err(AdapterError::InvalidRequest(_)),
        },
{
    match exchange {
        Exchange::BinanceLinear | Exchange::BinanceInverse => Ok(OpenInterestVenue::Binance),
        Exchange::BybitLinear | Exchange::BybitInverse => Ok(OpenInterestVenue::Bybit),
        _ => Err(AdapterError::InvalidRequest("Invalid exchange".to_owned())),
    }
}

/// Number of records to ask for: the whole intervals in `[start, end]`, at most `max`, or the
/// default where no range is given.
pub open spec fn request_limit(range: Option<(u64, u64)>, interval_ms: int, max: int) -> int {
    match range {
        Some((start, end)) => {
            let k = (end - start) / interval_ms;
            if k < max { k } else { max }
        },
        None => DEFAULT_REQUEST_LIMIT as int,
    }
}

pub open spec fn range_ok(range: Option<(u64, u64)>) -> bool {
    match range {
        Some((start, end)) => start <= end,
        None => true,
    }
}

fn limit_for(range: Option<(u64, u64)>, interval_ms: u64, max: u64) -> (r: u64)
    requires
        interval_ms > 0,
        range_ok(range),
    ensures
        r == request_limit(range, interval_ms as int, max as int),
{
    match range {
        Some((start, end)) => {
            let k = (end - start) / interval_ms;
            if k < max {
                k
            } else {
                max
            }
        },
        None => DEFAULT_REQUEST_LIMIT,
    }
}

/// Candles to ask for in one kline request.
pub fn kline_request_limit(range: Option<(u64, u64)>, timeframe: Timeframe) -> (r: u64)
    requires
        range_ok(range),
    ensures
        r == request_limit(range, millis_of(timeframe), KLINE_REQUEST_MAX as int),
{
    limit_for(range, timeframe.to_milliseconds(), KLINE_REQUEST_MAX)
}

/// Records to ask for in one open-interest request.
pub fn oi_request_limit(range: Option<(u64, u64)>, period: Timeframe) -> (r: u64)
    requires
        range_ok(range),
    ensures
        r == request_limit(range, millis_of(period), OI_REQUEST_MAX as int),
{
    limit_for(range, period.to_milliseconds(), OI_REQUEST_MAX)
}

/// The request category of a market.
pub fn market_category(market: MarketKind) -> (r: &'static str)
    ensures
        r@ == (match market {
            MarketKind::Spot => "spot"@,
            MarketKind::LinearPerps => "linear"@,
            MarketKind::InversePerps => "inverse"@,
        }),
{
    match market {
        MarketKind::Spot => "spot",
        MarketKind::LinearPerps => "linear",
        MarketKind::InversePerps => "inverse",
    }
}

/// The name of a candle timeframe in kline requests and topics.
pub fn kline_interval_name(timeframe: Timeframe) -> (r: &'static str)
    requires
        !is_heatmap_timeframe(timeframe),
    ensures
        r@ == interval_name(timeframe),
{
    proof {
        reveal_strlit("1");
        reveal_strlit("3");
        reveal_strlit("5");
        reveal_strlit("15");
        reveal_strlit("30");
        reveal_strlit("60");
        reveal_strlit("120");
        reveal_strlit("240");
        reveal_strlit("360");
        reveal_strlit("720");
        reveal_strlit("D");
    }
    let r = match timeframe {
        Timeframe::M1 => "1",
        Timeframe::M3 => "3",
        Timeframe::M5 => "5",
        Timeframe::M15 => "15",
        Timeframe::M30 => "30",
        Timeframe::H1 => "60",
        Timeframe::H2 => "120",
        Timeframe::H4 => "240",
        Timeframe::H6 => "360",
        Timeframe::H12 => "720",
        _ => "D",
    };
    assert(r@ =~= interval_name(timeframe));
    r
}

/// The topic of a ticker's public trades: `publicTrade.SYMBOL`.
pub fn trade_topic(ticker: &Ticker) -> (r: String)
    ensures
        r@ == "publicTrade."@ + ticker.symbol(),
{
    let (symbol, _) = ticker.to_full_symbol_and_type();
    let mut r = "publicTrade.".to_owned();
    r.append(symbol.as_str());
    r
}

/// The order book depth subscribed to: 200 levels on spot markets, 500 on perpetuals.
pub open spec fn depth_levels(market: MarketKind) -> Seq<char> {
    if market == MarketKind::Spot { "200"@ } else { "500"@ }
}

/// The topic of a ticker's order book: `orderbook.LEVELS.SYMBOL`.
pub fn depth_topic(ticker: &Ticker) -> (r: String)
    ensures
        r@ == "orderbook."@ + depth_levels(market_of(ticker.venue())) + "."@ + ticker.symbol(),
{
    let (symbol, market) = ticker.to_full_symbol_and_type();
    let levels = match market {
        MarketKind::Spot => "200",
        MarketKind::LinearPerps | MarketKind::InversePerps => "500",
    };
    let mut r = "orderbook.".to_owned();
    r.append(levels);
    r.append(".");
    r.append(symbol.as_str());
    r
}

/// The topic of a ticker's candles: `kline.INTERVAL.SYMBOL`.
pub fn kline_topic(ticker: &Ticker, timeframe: Timeframe) -> (r: String)
    requires
        !is_heatmap_timeframe(timeframe),
    ensures
        r@ == "kline."@ + interval_name(timeframe) + "."@ + ticker.symbol(),
{
    let (symbol, _) = ticker.to_full_symbol_and_type();
    let mut r = "kline.".to_owned();
    r.append(kline_interval_name(timeframe));
    r.append(".");
    r.append(symbol.as_str());
    r
}

/// The timeframes that open interest is served in.
pub open spec fn is_oi_period(t: Timeframe) -> bool {
    t == Timeframe::M5 || t == Timeframe::M15 || t == Timeframe::M30 || t == Timeframe::H1
        || t == Timeframe::H4 || t == Timeframe::D1
}

/// The name of an open-interest period.
pub fn oi_period_name(period: Timeframe) -> (r: &'static str)
    requires
        is_oi_period(period),
    ensures
        r@ == (match period {
            Timeframe::M5 => "5min"@,
            Timeframe::M15 => "15min"@,
            Timeframe::M30 => "30min"@,
            Timeframe::H1 => "1h"@,
            Timeframe::H4 => "4h"@,
            _ => "1d"@,
        }),
{
    match period {
        Timeframe::M5 => "5min",
        Timeframe::M15 => "15min",
        Timeframe::M30 => "30min",
        Timeframe::H1 => "1h",
        Timeframe::H4 => "4h",
        _ => "1d",
    }
}

/// A size in quote currency, in atomic units: the value of `qty` at `price` rounded to a whole
/// unit of the quote currency, halves away from zero.
pub open spec fn quote_size_of(qty: int, price: int) -> int {
    let v = qty * price;
    let whole = if v >= 0 {
        (v + 5_000_000_000_000_000) / 10_000_000_000_000_000
    } else {
        -((-v + 5_000_000_000_000_000) / 10_000_000_000_000_000)
    };
    whole * 100_000_000
}

/// Converts a size in base units to its quote-currency value, as the quote-sized mode shows it.
pub fn quote_size(qty: i64, price: i64) -> (r: i64)
    requires
        i64::MIN <= quote_size_of(qty as int, price as int) <= i64::MAX,
    ensures
        r == quote_size_of(qty as int, price as int),
{
    let v = (qty as i128) * (price as i128);
    proof {
        assert(-9_223_372_036_854_775_808int * 9_223_372_036_854_775_808int <= qty as int * price as int) by (nonlinear_arith)
            requires i64::MIN <= qty <= i64::MAX, i64::MIN <= price <= i64::MAX;
        assert(qty as int * price as int <= 9_223_372_036_854_775_808int * 9_223_372_036_854_775_808int) by (nonlinear_arith)
            requires i64::MIN <= qty <= i64::MAX, i64::MIN <= price <= i64::MAX;
    }
    let whole: i128 = if v >= 0 {
        (v + 5_000_000_000_000_000) / 10_000_000_000_000_000
    } else {
        -((-v + 5_000_000_000_000_000) / 10_000_000_000_000_000)
    };
    (whole * 100_000_000) as i64
}

/// Whether an instrument of the instrument list is offered: its symbol is supported, its
/// contract (where given) is a perpetual, and its quote coin (where given) is USDT or USD.
pub fn accept_instrument(symbol: &str, contract_type: Option<&str>, quote_coin: Option<&str>) -> (r: bool)
    ensures
        r == ((forall|i: int| 0 <= i < symbol@.len() ==> is_symbol_char(#[trigger] symbol@[i]))
            && (match contract_type {
                Some(c) => c@ == "LinearPerpetual"@ || c@ == "InversePerpetual"@,
                None => true,
            })
            && (match quote_coin {
                Some(q) => q@ == "USDT"@ || q@ == "USD"@,
                None => true,
            })),
{
    if !crate::market::is_symbol_supported(symbol, Exchange::BybitLinear, false) {
        return false;
    }
    if let Some(c) = contract_type {
        if !(str_eq(c, "LinearPerpetual") || str_eq(c, "InversePerpetual")) {
            return false;
        }
    }
    if let Some(q) = quote_coin {
        if !(str_eq(q, "USDT") || str_eq(q, "USD")) {
            return false;
        }
    }
    true
}

} // verus!

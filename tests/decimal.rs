use orderflow::adapter::{topic_kind, topic_symbol, TopicKind};
use orderflow::decimal::parse_units;

#[test]
fn parse_units_reads_decimal_text() {
    assert_eq!(parse_units("100.25"), Some(10_025_000_000));
    assert_eq!(parse_units("0.00000001"), Some(1));
    assert_eq!(parse_units("-3.5"), Some(-350_000_000));
    assert_eq!(parse_units("42"), Some(4_200_000_000));
    assert_eq!(parse_units("007.10"), Some(710_000_000));
    assert_eq!(parse_units("92233720368.54775807"), Some(i64::MAX));
    assert_eq!(parse_units("-92233720368.54775808"), Some(i64::MIN));
}

#[test]
fn parse_units_rejects_malformed_or_out_of_range() {
    assert_eq!(parse_units(""), None);
    assert_eq!(parse_units("-"), None);
    assert_eq!(parse_units(".5"), None);
    assert_eq!(parse_units("5."), None);
    assert_eq!(parse_units("1.123456789"), None);
    assert_eq!(parse_units("1e5"), None);
    assert_eq!(parse_units("1.2.3"), None);
    assert_eq!(parse_units("92233720368.54775808"), None);
    assert_eq!(parse_units("100000000000000"), None);
}

#[test]
fn topics_name_kind_and_symbol() {
    assert_eq!(topic_kind("publicTrade.BTCUSDT"), TopicKind::Trade);
    assert_eq!(topic_kind("orderbook.500.BTCUSDT"), TopicKind::Depth);
    assert_eq!(topic_kind("kline.5.ETHUSDT"), TopicKind::Kline);
    assert_eq!(topic_kind("tickers.BTCUSDT"), TopicKind::Unknown);
    assert_eq!(topic_kind("kline"), TopicKind::Kline);
    assert_eq!(topic_symbol("orderbook.500.BTCUSDT"), "BTCUSDT");
    assert_eq!(topic_symbol("BTCUSDT"), "BTCUSDT");
    assert_eq!(topic_symbol("kline.5."), "");
}

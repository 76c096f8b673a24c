use orderflow::adapter::{
    classify_depth_message, is_sell_side, next_action, step, string_to_timeframe, Action, AdapterInput, ConnState,
    DepthMessageKind, Event,
};
use orderflow::market::{Exchange, Timeframe};

#[test]
fn close_frame_disconnects_then_reconnects() {
    let ex = Exchange::BybitLinear;
    let (state, ev) = step(ConnState::Connected, ex, &AdapterInput::Closed);
    assert_eq!(state, ConnState::Disconnected);
    match ev {
        Some(Event::Disconnected(e, reason)) => {
            assert_eq!(e, ex);
            assert_eq!(reason, "Connection closed");
        }
        _ => panic!("expected a disconnect"),
    }
    assert_eq!(next_action(state), Action::Connect);
    let (state, ev) = step(state, ex, &AdapterInput::ConnectSucceeded);
    assert_eq!(state, ConnState::Connected);
    assert!(matches!(ev, Some(Event::Connected(Exchange::BybitLinear))));
    assert_eq!(next_action(state), Action::ReadFrame);
}

#[test]
fn failures_report_reasons() {
    let ex = Exchange::BybitSpot;
    let (state, ev) = step(ConnState::Disconnected, ex, &AdapterInput::ConnectFailed("timeout".to_string()));
    assert_eq!(state, ConnState::Disconnected);
    assert!(matches!(ev, Some(Event::Disconnected(_, ref r)) if r == "Failed to connect: timeout"));
    let (_, ev) = step(ConnState::Disconnected, ex, &AdapterInput::SubscribeFailed("broken pipe".to_string()));
    assert!(matches!(ev, Some(Event::Disconnected(_, ref r)) if r == "Failed subscribing: broken pipe"));
    let (state, ev) = step(ConnState::Connected, ex, &AdapterInput::ReadFailed("reset".to_string()));
    assert_eq!(state, ConnState::Disconnected);
    assert!(matches!(ev, Some(Event::Disconnected(_, ref r)) if r == "Error reading frame: reset"));
}

#[test]
fn data_frames_keep_connection() {
    let (state, ev) = step(ConnState::Connected, Exchange::BybitInverse, &AdapterInput::Frame);
    assert_eq!(state, ConnState::Connected);
    assert!(ev.is_none());
    let (state, ev) = step(ConnState::Disconnected, Exchange::BybitInverse, &AdapterInput::Closed);
    assert_eq!(state, ConnState::Disconnected);
    assert!(ev.is_none());
}

#[test]
fn bybit_wire_values() {
    assert!(is_sell_side("Sell"));
    assert!(!is_sell_side("Buy"));
    assert_eq!(string_to_timeframe("15"), Some(Timeframe::M15));
    assert_eq!(string_to_timeframe("D"), Some(Timeframe::D1));
    assert_eq!(string_to_timeframe("720"), Some(Timeframe::H12));
    assert_eq!(string_to_timeframe("2"), None);
    assert_eq!(classify_depth_message("snapshot", 40), DepthMessageKind::Snapshot);
    assert_eq!(classify_depth_message("delta", 1), DepthMessageKind::Snapshot);
    assert_eq!(classify_depth_message("delta", 41), DepthMessageKind::Delta);
    assert_eq!(classify_depth_message("other", 41), DepthMessageKind::Ignored);
}

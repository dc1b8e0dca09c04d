use maroon::trades::{
    broker_connection_lost, debug_log_line, is_routine_event, is_trade_channel, next_trade_number, publish_lost_connection, range_end, recent_range,
    side_label, trade_from_row, trade_id, trade_query, IngestAction, IngestEvent, TradeIngest,
};

fn row(fields: &[&str]) -> Vec<String> {
    fields.iter().map(|s| s.to_string()).collect()
}

#[test]
fn trade_identifiers_join_number_and_price() {
    assert_eq!(trade_id(17, &"62000.1".to_string()), "17-62000.1");
    assert_eq!(trade_id(0, &"".to_string()), "0-");
}

#[test]
fn a_trade_takes_its_fields_from_the_row() {
    let t = trade_from_row(&row(&["1.5", "0.2", "169.0", "b", "l", "x"]), 3, &"XBT/USD".to_string());
    assert_eq!(t.id, "3-1.5");
    assert_eq!(t.price, "1.5");
    assert_eq!(t.volume, "0.2");
    assert_eq!(t.timestamp, "169.0");
    assert_eq!(t.side, "b");
    assert_eq!(t.order_type, "l");
    assert_eq!(t.misc, "x");
    assert_eq!(t.pair, "XBT/USD");
    let t = trade_from_row(&row(&["1", "2", "3", "s", "m"]), 4, &"P".to_string());
    assert_eq!(t.misc, "");
}

fn expect_check(a: IngestAction) -> String {
    match a {
        IngestAction::CheckId(id) => id,
        _ => panic!("expected an identifier check"),
    }
}

#[test]
fn intake_skips_short_rows_and_known_identifiers() {
    let rows = vec![
        row(&["10", "1", "100.5", "b", "l"]),
        row(&["11", "1"]),
        row(&["12", "2", "101.5", "s", "m", ""]),
        row(&["13", "3", "102.5", "b", "l"]),
    ];
    let (mut ing, a) = TradeIngest::new(rows, "XBT/USD".to_string());
    assert!(matches!(a, IngestAction::NextCounter));

    // First row: number 1, new identifier, recorded.
    assert_eq!(expect_check(ing.advance(IngestEvent::Counter(1))), "1-10");
    match ing.advance(IngestEvent::IdExists(false)) {
        IngestAction::StoreId(id, n) => {
            assert_eq!(id, "1-10");
            assert_eq!(n, 1);
        }
        _ => panic!("expected the identifier to be recorded"),
    }
    assert!(matches!(ing.advance(IngestEvent::IdStored), IngestAction::NextCounter));
    assert_eq!(ing.trades().len(), 1);

    // The short row is skipped; the third row's identifier already exists.
    assert_eq!(expect_check(ing.advance(IngestEvent::Counter(2))), "2-12");
    assert!(matches!(ing.advance(IngestEvent::IdExists(true)), IngestAction::NextCounter));
    assert_eq!(ing.trades().len(), 1);

    // An answer that does not fit is ignored.
    assert!(matches!(ing.advance(IngestEvent::IdStored), IngestAction::NextCounter));

    // The last row becomes the second trade.
    assert_eq!(expect_check(ing.advance(IngestEvent::Counter(3))), "3-13");
    assert!(matches!(ing.advance(IngestEvent::IdExists(false)), IngestAction::StoreId(_, 3)));
    assert!(matches!(ing.advance(IngestEvent::IdStored), IngestAction::StoreBatch));
    assert!(ing.is_finished());
    let trades = ing.trades();
    assert_eq!(trades.len(), 2);
    assert_eq!(trades[0].0.id, "1-10");
    assert_eq!(trades[0].1, 1);
    assert_eq!(trades[1].0.id, "3-13");
    assert_eq!(trades[1].0.timestamp, "102.5");
    assert_eq!(trades[1].1, 3);
    assert_eq!(trades[1].0.pair, "XBT/USD");
}

#[test]
fn intake_of_nothing_usable_is_done_at_once() {
    let (ing, a) = TradeIngest::new(vec![row(&["1", "2", "3", "4"]), vec![]], "P".to_string());
    assert!(matches!(a, IngestAction::Done));
    assert!(ing.is_finished());
    assert!(ing.trades().is_empty());
}

#[test]
fn intake_where_every_identifier_exists_stores_nothing() {
    let (mut ing, _) = TradeIngest::new(vec![row(&["1", "2", "3", "b", "l"])], "P".to_string());
    let _ = ing.advance(IngestEvent::Counter(9));
    assert!(matches!(ing.advance(IngestEvent::IdExists(true)), IngestAction::Done));
}

#[test]
fn sides_and_events() {
    assert_eq!(side_label(&"b".to_string()), "BUY");
    assert_eq!(side_label(&"s".to_string()), "SELL");
    assert_eq!(side_label(&"B".to_string()), "SELL");
    assert!(is_routine_event("heartbeat"));
    assert!(is_routine_event("systemStatus"));
    assert!(is_routine_event("subscriptionStatus"));
    assert!(!is_routine_event("pong"));
}

#[test]
fn connection_troubles_are_recognised() {
    assert!(publish_lost_connection("broken pipe"));
    assert!(publish_lost_connection("Connection refused (os error 111)"));
    assert!(publish_lost_connection("the connection was reset"));
    assert!(!publish_lost_connection("WRONGTYPE Operation against a key"));
    assert!(broker_connection_lost("Redis connection lost: x"));
    assert!(broker_connection_lost("a redis error"));
    assert!(!broker_connection_lost("Invalid WebSocket message format"));
}

#[test]
fn recent_trades_window() {
    assert_eq!(recent_range(10, 0), None);
    assert_eq!(recent_range(0, 50), None);
    assert_eq!(recent_range(10, 50), Some((41, 50)));
    assert_eq!(recent_range(80, 50), Some((1, 50)));
    assert_eq!(recent_range(500, 1000), Some((901, 1000)));
}

#[test]
fn range_queries() {
    assert_eq!(trade_query(None, None), (1, 100));
    assert_eq!(trade_query(Some(7), Some(5000)), (7, 1000));
    assert_eq!(trade_query(Some(0), Some(3)), (0, 3));
    assert_eq!(range_end(7, 1000), 1007);
    assert_eq!(next_trade_number(None), 1);
    assert_eq!(next_trade_number(Some(41)), 42);
}

#[test]
fn routine_events_of_objects_are_not_logged() {
    assert_eq!(debug_log_line("Object", r#"{"event":"heartbeat"}"#), None);
    assert_eq!(debug_log_line("Object", r#"{"event":"systemStatus","status":"online"}"#), None);
    assert_eq!(debug_log_line("Object", r#"{"event":"subscriptionStatus"}"#), None);
}

#[test]
fn other_events_of_objects_are_named() {
    assert_eq!(
        debug_log_line("Object", r#"{"event":"pong","reqid":7}"#),
        Some(r#"DEBUG: Object message format (event=pong): {"event":"pong","reqid":7}"#.to_string())
    );
}

#[test]
fn messages_without_an_event_get_a_plain_line() {
    assert_eq!(
        debug_log_line("Object", r#"{"status":"ok"}"#),
        Some(r#"DEBUG: Object message format: {"status":"ok"}"#.to_string())
    );
    assert_eq!(
        debug_log_line("Object", r#"{"event":42}"#),
        Some(r#"DEBUG: Object message format: {"event":42}"#.to_string())
    );
    assert_eq!(
        debug_log_line("Object", "not json"),
        Some("DEBUG: Object message format: not json".to_string())
    );
    assert_eq!(
        debug_log_line("Array", r#"{"event":"heartbeat"}"#),
        Some(r#"DEBUG: Array message format: {"event":"heartbeat"}"#.to_string())
    );
}

#[test]
fn long_messages_are_cut_at_five_hundred_bytes() {
    let text = "x".repeat(501);
    let expected = format!("DEBUG: Unparseable message format: {}...(truncated)", "x".repeat(500));
    assert_eq!(debug_log_line("Unparseable", &text), Some(expected));
    let exact = "y".repeat(500);
    assert_eq!(
        debug_log_line("Unparseable", &exact),
        Some(format!("DEBUG: Unparseable message format: {}", exact))
    );
    let wide = format!("{}é{}", "z".repeat(498), "z".repeat(10));
    assert_eq!(
        debug_log_line("Array", &wide),
        Some(format!("DEBUG: Array message format: {}é...(truncated)", "z".repeat(498)))
    );
}

#[test]
fn only_the_trade_channel_is_taken_in() {
    assert!(is_trade_channel("trade"));
    assert!(!is_trade_channel("book"));
    assert!(!is_trade_channel("Trade"));
    assert!(!is_trade_channel(""));
}

use hl_orderbook::config::SnapshotMode;
use hl_orderbook::listeners::order_book::state::{
    Diff, DiffAction, OrderBookState, OrderStatus, StatusAction,
};
use hl_orderbook::listeners::order_book::{followed, health_body, Broadcast, OrderBookListener, SnapshotFetch};

fn status(oid: u64, status: &str) -> OrderStatus {
    OrderStatus {
        oid,
        coin: "BTC".to_string(),
        is_trigger: false,
        status: status.to_string(),
        order_type: "Limit".to_string(),
        time: 77,
        inserted_into_book: true,
        event: String::new(),
    }
}

fn trigger(oid: u64, state: &str, order_type: &str) -> OrderStatus {
    OrderStatus { is_trigger: true, order_type: order_type.to_string(), ..status(oid, state) }
}

#[test]
fn block_size_accumulates_within_height_and_resets_on_new_height() {
    let mut state = OrderBookState::from_snapshot(100, 1_000, false);

    state.record_block_progress(100, 1_100, 120);
    state.record_block_progress(100, 1_200, 80);
    assert_eq!(state.height(), 100);
    assert_eq!(state.time(), 1_200);
    assert_eq!(state.block_size_bytes(), 200);

    state.record_block_progress(101, 1_300, 64);
    assert_eq!(state.height(), 101);
    assert_eq!(state.time(), 1_300);
    assert_eq!(state.block_size_bytes(), 64);

    state.record_block_progress(100, 1_400, 999);
    assert_eq!(state.height(), 101);
    assert_eq!(state.time(), 1_300);
    assert_eq!(state.block_size_bytes(), 64);
}

#[test]
fn block_size_does_not_overflow() {
    let mut state = OrderBookState::from_snapshot(1, 0, false);
    state.record_block_progress(1, 0, u64::MAX);
    state.record_block_progress(1, 0, 5);
    assert_eq!(state.block_size_bytes(), u64::MAX);
}

#[test]
fn halves_meet_in_either_order() {
    let mut a = OrderBookState::from_snapshot(1, 0, false);
    let first = a.on_status(status(7, "open"));
    assert!(!first.changes(false));
    assert_eq!(a.pending_order_statuses_count(), 1);
    match a.on_diff(7, Diff::New { sz: 5 }) {
        DiffAction::Add { status, sz, convert_at } => {
            assert_eq!((status.oid, sz, convert_at), (7, 5, Some(77)));
        }
        _ => panic!("the order is complete"),
    }
    assert_eq!(a.pending_order_statuses_count(), 0);

    let mut b = OrderBookState::from_snapshot(1, 0, false);
    assert!(matches!(b.on_diff(7, Diff::New { sz: 5 }), DiffAction::Ignore));
    assert_eq!(b.pending_new_diffs_count(), 1);
    match b.on_status(status(7, "open")).action {
        StatusAction::Add { status, sz, convert_at } => {
            assert_eq!((status.oid, sz, convert_at), (7, 5, Some(77)));
        }
        _ => panic!("the order is complete"),
    }
    assert_eq!(b.pending_new_diffs_count(), 0);
}

#[test]
fn removed_orders_stay_out() {
    let mut s = OrderBookState::from_snapshot(1, 0, false);
    let gone = s.on_diff(7, Diff::Remove);
    assert_eq!(gone.changes("ETH"), Some("ETH".to_string()));
    assert_eq!(s.pending_removals_count(), 1);
    assert!(matches!(s.on_diff(7, Diff::New { sz: 5 }), DiffAction::Ignore));
    assert!(matches!(s.on_status(status(7, "open")).action, StatusAction::Ignore));
    assert_eq!(s.pending_new_diffs_count(), 0);
    assert_eq!(s.pending_order_statuses_count(), 0);
}

#[test]
fn updates_change_the_size() {
    let mut s = OrderBookState::from_snapshot(1, 0, false);
    assert!(matches!(s.on_diff(9, Diff::Update { new_sz: 3 }), DiffAction::Resize { new_sz: 3 }));
}

#[test]
fn trigger_orders_are_cancelled_when_no_longer_open() {
    let mut s = OrderBookState::from_snapshot(1, 0, false);
    let step = s.on_status(trigger(3, "triggered", "Stop Limit"));
    assert!(step.cancel);
    assert!(step.changes(true));
    assert!(!step.changes(false));
}

#[test]
fn open_market_triggers_rest_at_once() {
    let mut s = OrderBookState::from_snapshot(1, 0, false);
    let step = s.on_status(trigger(3, "open", "Stop Market"));
    assert!(!step.cancel);
    assert!(matches!(step.action, StatusAction::Rest { .. }));
    assert!(step.changes(false));
}

#[test]
fn open_triggers_are_not_converted() {
    let mut s = OrderBookState::from_snapshot(1, 0, false);
    s.on_diff(3, Diff::New { sz: 1 });
    match s.on_status(trigger(3, "open", "Stop Limit")).action {
        StatusAction::Add { convert_at, .. } => assert_eq!(convert_at, None),
        _ => panic!("the order is complete"),
    }
}

#[test]
fn too_many_waiting_halves_are_given_up() {
    let mut s = OrderBookState::from_snapshot(1, 0, false);
    for oid in 0..1_000 {
        s.on_diff(oid, Diff::New { sz: oid });
    }
    s.on_status(status(5_000, "open"));
    s.cleanup_stale_pending();
    assert_eq!(s.pending_new_diffs_count(), 1_000);
    // The first one comes again: it is now the newest.
    s.on_diff(0, Diff::New { sz: 7 });
    s.on_diff(1_000, Diff::New { sz: 1_000 });
    s.cleanup_stale_pending();
    assert_eq!(s.pending_new_diffs_count(), 501);
    assert_eq!(s.pending_order_statuses_count(), 1);
    let added = |s: &mut OrderBookState, oid: u64| match s.on_status(status(oid, "open")).action {
        StatusAction::Add { sz, .. } => Some(sz),
        _ => None,
    };
    assert_eq!(added(&mut s, 1), None);
    assert_eq!(added(&mut s, 500), None);
    assert_eq!(added(&mut s, 501), Some(501));
    assert_eq!(added(&mut s, 1_000), Some(1_000));
    assert_eq!(added(&mut s, 0), Some(7));
    assert_eq!((s.height(), s.time(), s.block_size_bytes()), (1, 0, 0));
}

#[test]
fn the_newer_half_of_too_many_statuses_is_kept() {
    let mut s = OrderBookState::from_snapshot(1, 0, false);
    for oid in 0..10_001 {
        s.on_status(status(oid, "open"));
    }
    assert_eq!(s.pending_order_statuses_count(), 10_001);
    s.cleanup_stale_pending();
    assert_eq!(s.pending_order_statuses_count(), 5_001);
    assert!(matches!(s.on_diff(4_999, Diff::New { sz: 1 }), DiffAction::Ignore));
    assert!(matches!(s.on_diff(5_000, Diff::New { sz: 1 }), DiffAction::Add { sz: 1, .. }));
    assert!(matches!(s.on_diff(10_000, Diff::New { sz: 1 }), DiffAction::Add { sz: 1, .. }));
}

#[test]
fn the_newer_half_of_too_many_removals_is_remembered() {
    let mut s = OrderBookState::from_snapshot(1, 0, false);
    for oid in 0..100_001 {
        s.on_diff(oid, Diff::Remove);
    }
    s.cleanup_stale_pending();
    assert_eq!(s.pending_removals_count(), 50_001);
    s.on_diff(100_000, Diff::New { sz: 1 });
    s.on_diff(50_000, Diff::New { sz: 1 });
    assert_eq!(s.pending_new_diffs_count(), 0);
    s.on_diff(49_999, Diff::New { sz: 1 });
    assert_eq!(s.pending_new_diffs_count(), 1);
}

#[test]
fn events_up_to_the_first_snapshot_are_passed_over() {
    let mut l = OrderBookListener::new(true);
    assert!(!l.is_ready());
    assert!(l.begin_event(50, 1, 10));
    assert_eq!(l.latest_height(), 50);
    l.begin_caching();
    l.take_cache();
    l.init_from_snapshot(100);
    assert!(l.is_ready());
    assert!(!l.begin_event(100, 1, 10));
    assert!(l.begin_event(101, 5, 10));
    let s = l.state().unwrap();
    assert_eq!((s.height(), s.time(), s.block_size_bytes()), (101, 5, 10));
    l.init_from_snapshot(500);
    assert!(l.begin_event(102, 6, 10));
    l.give_up();
    assert!(!l.is_ready());
    assert!(l.on_status(status(1, "open")).is_none());
}

#[test]
fn spot_changes_are_passed_over_where_asked() {
    let mut l = OrderBookListener::new(true);
    l.init_from_snapshot(1);
    assert!(l.on_diff(1, true, Diff::Remove).is_none());
    assert!(l.on_diff(1, false, Diff::Remove).is_some());
    assert!(l.on_status(status(2, "open")).is_some());
}

#[test]
fn snapshots_are_not_sent_too_often() {
    let mut l = OrderBookListener::new(false);
    l.init_from_snapshot(1);
    let ms: u64 = 1_000_000;
    assert_eq!(l.end_event(true, false, true, 0), Broadcast { bbo: true, l2: true, triggers: true });
    assert_eq!(l.end_event(false, false, true, 9 * ms), Broadcast { bbo: false, l2: false, triggers: false });
    assert_eq!(l.end_event(true, true, true, 20 * ms), Broadcast { bbo: false, l2: false, triggers: false });
    assert_eq!(l.end_event(true, false, true, 20 * ms), Broadcast { bbo: true, l2: true, triggers: false });
    assert_eq!(l.end_event(true, false, true, 500 * ms), Broadcast { bbo: true, l2: true, triggers: true });
}

#[test]
fn nothing_is_sent_without_a_book() {
    let mut l = OrderBookListener::new(false);
    assert_eq!(l.end_event(true, false, true, 0), Broadcast { bbo: false, l2: false, triggers: false });
}

#[test]
fn only_the_last_event_of_a_batch_is_sent() {
    assert!(followed(0, 2));
    assert!(!followed(1, 2));
}

#[test]
fn one_snapshot_is_fetched_at_a_time() {
    let mut f = SnapshotFetch { pending: false };
    assert!(f.tick(false));
    assert!(!f.tick(false));
    f.finished();
    assert!(!f.tick(true));
    assert!(f.tick(false));
}

#[test]
fn health_tells_how_far_the_book_is_behind() {
    assert_eq!(
        health_body(true, 12, 90, 100, 3),
        "{\"status\":\"ready\",\"uptime_seconds\":12,\"height\":90,\"latest_data_height\":100,\"block_lag\":10,\"connections\":3}\"\n                    "
    );
    assert!(health_body(false, 0, 5, -1, 0).contains("\"status\":\"initializing\""));
    assert!(health_body(false, 0, 5, -1, 0).contains("\"block_lag\":0"));
}

#[test]
fn snapshots_come_through_docker_unless_told_otherwise() {
    assert_eq!(SnapshotMode::default(), SnapshotMode::Docker);
}

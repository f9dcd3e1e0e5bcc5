use hl_orderbook::relay::client::{
    confirm, forwarded_for, needs_fetch, read_request, Action, Client, Request, INVALID_JSON, PONG,
};
use hl_orderbook::relay::limits::Limits;
use hl_orderbook::relay::reducer::Reducer;
use hl_orderbook::relay::upstream::{
    forwards, frame_channel, next_backoff, subscribe_msg, Groups, FIRST_BACKOFF,
};

/// A rank that orders as the numbers do.
fn rank(px: &str) -> u128 {
    (px.parse::<f64>().unwrap_or(0.0) * 1e6) as u128
}

fn snapshot(r: &Reducer) -> Option<String> {
    let (bids, asks) = r.prices();
    let b: Vec<u128> = bids.iter().map(|p| rank(p)).collect();
    let a: Vec<u128> = asks.iter().map(|p| rank(p)).collect();
    r.snapshot_frame(&b, &a)
}

#[test]
fn books_are_put_together_from_changes() {
    let mut r = Reducer::new("l2Book", r#"{"coin":"BTC","nSigFigs":null,"nLevels":2,"type":"l2Book","mantissa":5}"#);
    assert_eq!(snapshot(&r), None);
    r.apply(r#"{"channel":"l2Book","data":{"time":7,"levels":[[{"px":"9","sz":"1","n":1},{"px":"10","sz":"2","n":1},{"px":"8","sz":"3","n":1}],[{"px":"11","sz":"4","n":1}]]}}"#);
    assert_eq!(
        snapshot(&r).unwrap(),
        r#"{"channel":"l2Book","data":{"coin":"BTC","levels":[[{"n":1,"px":"10","sz":"2"},{"n":1,"px":"9","sz":"1"}],[{"n":1,"px":"11","sz":"4"}]],"mantissa":5,"nLevels":2,"time":7}}"#
    );
    r.apply(r#"{"channel":"l2Book","data":{"time":8,"levels":[[{"px":"10","sz":"0","n":0},{"sz":"1"},{"px":"9","sz":"6","n":2}],[{"px":"11"},{"px":"12","sz":"1","n":1}]]}}"#);
    assert_eq!(
        snapshot(&r).unwrap(),
        r#"{"channel":"l2Book","data":{"coin":"BTC","levels":[[{"n":2,"px":"9","sz":"6"},{"n":1,"px":"8","sz":"3"}],[{"n":1,"px":"12","sz":"1"}]],"mantissa":5,"nLevels":2,"time":8}}"#
    );
    r.reset();
    assert_eq!(snapshot(&r), None);
}

#[test]
fn frames_without_levels_change_no_level() {
    let mut r = Reducer::new("triggerBook", r#"{"coin":"BTC"}"#);
    r.apply(r#"{"channel":"triggerBook","data":{"time":1,"levels":{"0":[{"px":"9","sz":"1"}]}}}"#);
    assert_eq!(snapshot(&r), None);
    r.apply(r#"{"channel":"triggerBook","data":{"levels":[[{"px":"9","sz":"1","n":1}]]}}"#);
    assert_eq!(
        snapshot(&r).unwrap(),
        r#"{"channel":"triggerBook","data":{"coin":"BTC","levels":[[{"n":1,"px":"9","sz":"1"}],[]],"time":1}}"#
    );
}

#[test]
fn the_last_message_is_kept() {
    let mut r = Reducer::new("bbo", "{}");
    assert_eq!(snapshot(&r), None);
    r.apply("one");
    r.apply("two");
    assert_eq!(snapshot(&r), Some("two".to_string()));
    r.reset();
    assert_eq!(snapshot(&r), None);
}

#[test]
fn prices_are_put_together() {
    let mut r = Reducer::new("allPrices", "{}");
    assert_eq!(snapshot(&r), None);
    r.apply(r#"{"channel":"allPrices","data":{"PURR/USDC":"1","ETH":"2","X":3}}"#);
    r.apply(r#"{"channel":"allPrices","data":{"BTC":"5","ETH":"4"}}"#);
    assert_eq!(
        snapshot(&r).unwrap(),
        r#"{"channel":"allPrices","data":{"BTC":"5","ETH":"4","PURR/USDC":"1"}}"#
    );
}

#[test]
fn other_channels_keep_nothing() {
    let mut r = Reducer::new("trades", "{}");
    r.apply("x");
    assert_eq!(snapshot(&r), None);
}

#[test]
fn connections_stay_within_the_limits() {
    let mut l = Limits::new(3, 2);
    assert!(l.try_admit("a"));
    assert!(l.try_admit("a"));
    assert!(!l.try_admit("a"));
    assert_eq!(l.active(), 2);
    assert!(l.try_admit("b"));
    assert!(!l.try_admit("c"));
    l.release("a");
    assert_eq!(l.active(), 2);
    assert!(l.try_admit("c"));
    assert!(!l.try_admit("a"));
}

#[test]
fn groups_are_shared_and_given_up() {
    let mut g = Groups::new();
    let (a, fresh) = g.subscribe("k");
    assert!(fresh);
    assert_eq!(g.subscribe("k"), (a, false));
    assert_eq!(g.group_count(), 1);
    assert!(!g.leave(a));
    assert!(g.running(a));
    assert!(!g.idle(a, "k"));
    assert!(g.leave(a));
    assert!(!g.running(a));
    assert!(g.idle(a, "k"));
    assert_eq!(g.group_count(), 0);
    let (b, fresh) = g.subscribe("k");
    assert!(fresh && b != a);
}

#[test]
fn waits_grow_to_ten_seconds() {
    let mut ms = FIRST_BACKOFF;
    let mut seen = Vec::new();
    for _ in 0..7 {
        seen.push(ms);
        ms = next_backoff(ms);
    }
    assert_eq!(seen, vec![250, 500, 1_000, 2_000, 4_000, 8_000, 10_000]);
}

#[test]
fn control_messages_are_not_forwarded() {
    assert_eq!(frame_channel(r#"{"channel":"l2Book","data":{}}"#), Some("l2Book".to_string()));
    for c in ["", "subscriptionResponse", "pong", "error"] {
        assert!(!forwards(c));
    }
    assert_eq!(frame_channel(r#"{"channel":"pong"}"#), None);
    assert_eq!(frame_channel("nonsense"), None);
    assert_eq!(subscribe_msg("{}"), r#"{"method":"subscribe","subscription":{}}"#);
}

#[test]
fn requests_are_read() {
    assert!(matches!(read_request("nonsense"), Request::NotJson));
    assert!(matches!(read_request(r#"{"method":"ping"}"#), Request::Ping));
    assert!(matches!(read_request(r#"{"method":"dance"}"#), Request::Other));
    assert!(matches!(read_request(r#"{"method":"subscribe","subscription":[1]}"#), Request::Other));
    assert!(matches!(read_request(r#"{"method":"subscribe","subscription":{"coin":"BTC"}}"#), Request::Other));
    match read_request(r#"{"method":"subscribe","subscription":{"type":"bbo","coin":"BTC"}}"#) {
        Request::Subscribe { key, channel } => {
            assert_eq!(key, r#"{"coin":"BTC","type":"bbo"}"#);
            assert_eq!(channel, "bbo");
        }
        _ => panic!("a subscription"),
    }
    assert!(matches!(read_request(r#"{"method":"unsubscribe","subscription":{}}"#), Request::Unsubscribe { .. }));
    assert_eq!(
        confirm(r#"{"method":"subscribe","subscription":{}}"#),
        r#"{"channel":"subscriptionResponse","data":{"method":"subscribe","subscription":{}}}"#
    );
    assert_eq!(INVALID_JSON, r#"{"channel":"error","data":"invalid JSON"}"#);
    assert_eq!(PONG, r#"{"channel":"pong"}"#);
}

#[test]
fn clients_join_and_leave_groups() {
    let mut groups = Groups::new();
    let mut a = Client::new();
    let mut b = Client::new();
    let on = read_request(r#"{"method":"subscribe","subscription":{"type":"bbo"}}"#);
    let off = read_request(r#"{"method":"unsubscribe","subscription":{"type":"bbo"}}"#);
    let joined = a.receive(&mut groups, &on);
    assert_eq!(joined, Action::Join { group: 0, fresh: true });
    assert_eq!(a.receive(&mut groups, &on), Action::Nothing);
    assert_eq!(b.receive(&mut groups, &on), Action::Join { group: 0, fresh: false });
    assert_eq!(a.receive(&mut groups, &off), Action::Leave { group: 0, last: false });
    assert_eq!(a.receive(&mut groups, &off), Action::Nothing);
    assert_eq!(b.leave_all(&mut groups), vec![(r#"{"type":"bbo"}"#.to_string(), 0)]);
    assert_eq!(b.receive(&mut groups, &off), Action::Nothing);
    let more = read_request(r#"{"method":"subscribe","subscription":{"type":"trades"}}"#);
    a.receive(&mut groups, &on);
    a.receive(&mut groups, &more);
    b.receive(&mut groups, &more);
    let left = a.leave_all(&mut groups);
    assert_eq!(left.iter().map(|(key, _)| key.as_str()).collect::<Vec<_>>(), vec![r#"{"type":"bbo"}"#]);
    assert_eq!(b.leave_all(&mut groups).len(), 1);
    assert!(b.leave_all(&mut groups).is_empty());
    assert_eq!(a.receive(&mut groups, &Request::Ping), Action::SayPong);
    assert_eq!(a.receive(&mut groups, &Request::NotJson), Action::SayInvalid);
}

#[test]
fn order_books_are_fetched_for_late_joiners() {
    assert!(needs_fetch(false, "l4Book"));
    assert!(needs_fetch(false, "l4TriggerBook"));
    assert!(!needs_fetch(true, "l4Book"));
    assert!(!needs_fetch(false, "trades"));
}

#[test]
fn the_first_hop_is_the_client() {
    assert_eq!(forwarded_for(" 1.2.3.4 , 5.6.7.8"), Some("1.2.3.4".to_string()));
    assert_eq!(forwarded_for("1.2.3.4"), Some("1.2.3.4".to_string()));
    assert_eq!(forwarded_for(" ,5.6.7.8"), None);
    assert_eq!(forwarded_for(""), None);
}

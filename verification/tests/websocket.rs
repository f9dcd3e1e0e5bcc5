use hl_orderbook::levels::compute_level_delta;
use hl_orderbook::servers::subscription::Subscription;
use hl_orderbook::servers::websocket_server::{
    filter_l4_updates, filter_orders, filter_prices, group_by_coin, levels_sent, new_universe,
    order_updates, parse_error, Answer, ClientMessage, FeedEvent, MarketCoin, MarketFilter, Session, Sides, BBO_ONLY,
    NOT_READY,
};
use hl_orderbook::strmap::StrMap;
use hl_orderbook::types::Level;
use std::collections::BTreeMap;

fn level(px: &str, sz: &str, n: usize) -> Level {
    Level::new(px.to_string(), sz.to_string(), n)
}

fn shown(v: &[Level]) -> Vec<(String, String, usize)> {
    v.iter().map(|l| (l.px().to_string(), l.sz().to_string(), l.n())).collect()
}

fn strings(v: &[&str]) -> Vec<String> {
    v.iter().map(|s| s.to_string()).collect()
}

#[test]
fn deltas_hold_what_changed_and_what_is_gone() {
    let old = vec![level("1", "5", 1), level("2", "6", 2), level("3", "7", 3)];
    let new = vec![level("2", "9", 2), level("3", "7", 3), level("10", "1", 1)];
    let d = compute_level_delta(&old, &new);
    assert_eq!(
        shown(&d),
        vec![
            ("10".to_string(), "1".to_string(), 1),
            ("2".to_string(), "9".to_string(), 2),
            ("1".to_string(), "0".to_string(), 0),
        ]
    );
    assert!(compute_level_delta(&new, &new).is_empty());
}

#[test]
fn deltas_put_in_give_the_new_levels() {
    let old = vec![level("1", "5", 1), level("2", "6", 2)];
    let new = vec![level("2", "8", 1), level("4", "4", 4)];
    let mut side: BTreeMap<String, (String, usize)> =
        shown(&old).into_iter().map(|(p, s, n)| (p, (s, n))).collect();
    for (p, s, n) in shown(&compute_level_delta(&old, &new)) {
        if s == "0" {
            side.remove(&p);
        } else {
            side.insert(p, (s, n));
        }
    }
    let want: BTreeMap<String, (String, usize)> =
        shown(&new).into_iter().map(|(p, s, n)| (p, (s, n))).collect();
    assert_eq!(side, want);
}

fn sides(bids: Vec<Level>, asks: Vec<Level>) -> Sides {
    Sides { bids, asks }
}

#[test]
fn books_are_sent_whole_once_and_by_changes_later() {
    let mut s = Session::new(false);
    let first = s.l2_update("BTC", None, None, sides(vec![level("1", "5", 1)], vec![])).unwrap();
    assert_eq!(shown(&first.bids), vec![("1".to_string(), "5".to_string(), 1)]);
    assert!(s.l2_update("BTC", None, None, sides(vec![level("1", "5", 1)], vec![])).is_none());
    let later = s.l2_update("BTC", None, None, sides(vec![], vec![level("2", "1", 1)])).unwrap();
    assert_eq!(shown(&later.bids), vec![("1".to_string(), "0".to_string(), 0)]);
    assert_eq!(shown(&later.asks), vec![("2".to_string(), "1".to_string(), 1)]);
    let other = s.l2_update("BTC", Some(3), None, sides(vec![level("1", "5", 1)], vec![])).unwrap();
    assert_eq!(other.bids.len(), 1);
    let triggers = s.trigger_update("BTC", None, None, sides(vec![level("1", "5", 1)], vec![])).unwrap();
    assert_eq!(triggers.bids.len(), 1);
}

#[test]
fn resubscribing_gets_the_whole_book() {
    let mut s = Session::new(false);
    let sub = || Subscription::L2Book {
        coin: "BTC".to_string(),
        n_sig_figs: None,
        n_levels: Some(5),
        mantissa: None,
    };
    assert!(matches!(
        s.receive(&ClientMessage::Subscribe { subscription: sub() }, "x", true),
        Answer::Confirmed { needs_snapshot: false, prices: None }
    ));
    s.l2_update("BTC", None, None, sides(vec![level("1", "5", 1)], vec![]));
    assert!(matches!(
        s.receive(&ClientMessage::Unsubscribe { subscription: sub() }, "x", true),
        Answer::Confirmed { .. }
    ));
    assert!(s.subscriptions().is_empty());
    let again = s.l2_update("BTC", None, None, sides(vec![level("1", "5", 1)], vec![])).unwrap();
    assert_eq!(again.bids.len(), 1);
}

#[test]
fn best_prices_are_sent_when_they_change() {
    let mut s = Session::new(false);
    let bid = Some(level("1", "5", 1));
    assert!(s.bbo_update("BTC", &bid, &None));
    assert!(!s.bbo_update("BTC", &bid, &None));
    assert!(!s.bbo_update("BTC", &Some(level("1", "5", 9)), &None));
    assert!(s.bbo_update("BTC", &bid, &Some(level("2", "5", 1))));
    assert!(s.bbo_update("ETH", &bid, &None));
}

#[test]
fn levels_are_capped() {
    assert_eq!(levels_sent(None), 400);
    assert_eq!(levels_sent(Some(7)), 7);
    assert_eq!(levels_sent(Some(4_000)), 400);
}

fn error_text(a: Answer) -> String {
    match a {
        Answer::Error { text } => text,
        _ => panic!("an error was due"),
    }
}

#[test]
fn requests_are_refused_for_a_reason() {
    let trades = || Subscription::Trades { coin: "BTC".to_string() };
    let mut s = Session::new(true);
    let on = ClientMessage::Subscribe { subscription: trades() };
    assert_eq!(error_text(s.receive(&on, "{s}", false)), "Invalid subscription: {s}");
    assert_eq!(error_text(s.receive(&on, "{s}", true)), BBO_ONLY);
    let bbo = ClientMessage::Subscribe { subscription: Subscription::Bbo { coin: "BTC".to_string() } };
    assert!(matches!(s.receive(&bbo, "{b}", true), Answer::Confirmed { .. }));
    assert_eq!(error_text(s.receive(&bbo, "{b}", true)), "Already subscribed: {b}");
    let off = ClientMessage::Unsubscribe { subscription: Subscription::Bbo { coin: "ETH".to_string() } };
    assert_eq!(error_text(s.receive(&off, "{e}", true)), "Already unsubscribed: {e}");
    assert!(matches!(s.receive(&ClientMessage::Ping, "", true), Answer::Pong));
    assert_eq!(parse_error("x"), "Error parsing JSON into valid websocket request: x");
    assert!(NOT_READY.starts_with("Order book not ready"));
}

#[test]
fn order_books_begin_with_a_snapshot() {
    let mut s = Session::new(false);
    let l4 = || Subscription::L4Book { coin: "BTC".to_string(), start_px: Some("1".to_string()), end_px: None };
    assert!(matches!(
        s.receive(&ClientMessage::Subscribe { subscription: l4() }, "", true),
        Answer::Confirmed { needs_snapshot: true, prices: None }
    ));
    assert_eq!(s.snapshot_failed(&l4(), "Snapshot Failed"), "Unable to grab order book snapshot: Snapshot Failed");
    assert!(s.subscriptions().is_empty());
}

#[test]
fn prices_are_filtered() {
    let mut prices: StrMap<String> = StrMap::new();
    for (c, p) in [("BTC", "1"), ("ETH", "2"), ("SOL", "3")] {
        prices.insert(c.to_string(), p.to_string());
    }
    assert_eq!(filter_prices(&prices, &None, &None).len(), 3);
    let one = filter_prices(&prices, &Some("BTC".to_string()), &None);
    assert_eq!((one.len(), one.get("BTC").cloned()), (1, Some("1".to_string())));
    let some = filter_prices(&prices, &Some("BTC".to_string()), &Some(strings(&["SOL", "XRP"])));
    assert_eq!(some.len(), 2);
    assert_eq!(filter_prices(&prices, &None, &Some(Vec::new())).len(), 0);
}

#[test]
fn trades_go_to_their_subscribers_and_other_prices_are_told() {
    let mut s = Session::new(false);
    let subscribe = |s: &mut Session, subscription: Subscription| {
        s.receive(&ClientMessage::Subscribe { subscription }, "", true);
    };
    subscribe(&mut s, Subscription::Trades { coin: "BTC".to_string() });
    subscribe(&mut s, Subscription::AllPrices { coin: None, coins: None });
    subscribe(&mut s, Subscription::AllPrices { coin: Some("XRP".to_string()), coins: None });
    let coins = strings(&["BTC", "ETH", "BTC", "ETH"]);
    let pxs = strings(&["1", "2", "3", "4"]);
    let out = s.on_fills(&coins, &pxs);
    assert_eq!(out.trades, vec![("BTC".to_string(), vec![0, 2])]);
    assert_eq!(out.prices.len(), 1);
    assert_eq!(out.prices[0].len(), 1);
    assert_eq!(out.prices[0].get("ETH").cloned(), Some("4".to_string()));
    assert!(s.on_fills(&strings(&["ETH"]), &strings(&["4"])).prices.is_empty());
    let answer = s.receive(
        &ClientMessage::Subscribe {
            subscription: Subscription::AllPrices { coin: None, coins: Some(strings(&["ETH"])) },
        },
        "",
        true,
    );
    match answer {
        Answer::Confirmed { prices: Some(p), .. } => assert_eq!(p.get("ETH").cloned(), Some("4".to_string())),
        _ => panic!("the known prices come first"),
    }
}

#[test]
fn items_are_grouped_by_coin_in_order() {
    let groups = group_by_coin(&strings(&["B", "A", "B"]));
    assert_eq!(groups.get("B").cloned(), Some(vec![0, 2]));
    assert_eq!(groups.get("A").cloned(), Some(vec![1]));
}

#[test]
fn trigger_orders_and_others_are_kept_apart() {
    let orders = vec![(false, true), (true, true), (false, false), (true, false)];
    assert_eq!(filter_orders(false, &orders), vec![0]);
    assert_eq!(filter_orders(true, &orders), vec![1]);
    assert_eq!(filter_l4_updates(false, &orders, &vec![false, true]), Some((vec![0], vec![1])));
    assert_eq!(filter_l4_updates(true, &orders, &vec![true, true]), Some((vec![1], vec![])));
    assert_eq!(filter_l4_updates(true, &vec![(false, true)], &vec![true]), None);
}

#[test]
fn order_updates_go_to_their_user() {
    let mut a = [0u8; 20];
    a[19] = 1;
    let b = [0u8; 20];
    let users = vec![a, b, a];
    assert_eq!(order_updates("0x0000000000000000000000000000000000000001", &users), vec![0, 2]);
    assert_eq!(order_updates("nobody", &users), Vec::<usize>::new());
}

#[test]
fn only_served_markets_are_in_the_universe() {
    let coin = |name: &str, is_perp: bool, is_spot: bool, is_hip3: bool| MarketCoin {
        coin: name.to_string(),
        is_perp,
        is_spot,
        is_hip3,
    };
    let coins = vec![coin("BTC", true, false, false), coin("@1", false, true, false), coin("x:Y", false, false, true)];
    let f = MarketFilter { include_perps: true, include_spot: false, include_hip3: true };
    let u = new_universe(&coins, f);
    assert_eq!(u.len(), 2);
    assert!(u.contains_key("BTC") && u.contains_key("x:Y"));
}

#[test]
fn subscriptions_are_told_apart() {
    let a = Subscription::AllPrices { coin: None, coins: Some(strings(&["A"])) };
    let b = Subscription::AllPrices { coin: None, coins: Some(strings(&["B"])) };
    assert!(a.same(&a.copy()));
    assert!(!a.same(&b));
    assert!(!a.same(&Subscription::OrderUpdates { user: "A".to_string() }));
}

#[test]
fn events_reach_the_subscriptions_they_concern() {
    let mut s = Session::new(false);
    let coin = || "BTC".to_string();
    let subs = vec![
        Subscription::L2Book { coin: coin(), n_sig_figs: None, n_levels: None, mantissa: None },
        Subscription::Bbo { coin: coin() },
        Subscription::L4Book { coin: coin(), start_px: None, end_px: None },
        Subscription::TriggerBook { coin: coin(), n_sig_figs: None, n_levels: None, mantissa: None },
        Subscription::OrderUpdates { user: "0xa".to_string() },
        Subscription::L4TriggerBook { coin: coin(), start_px: None, end_px: None },
        Subscription::Trades { coin: coin() },
    ];
    for subscription in subs {
        s.receive(&ClientMessage::Subscribe { subscription }, "", true);
    }
    assert_eq!(s.concerned(FeedEvent::Snapshot), vec![0, 3]);
    assert_eq!(s.concerned(FeedEvent::Bbo), vec![1]);
    assert_eq!(s.concerned(FeedEvent::OrderDiffs), vec![2, 5]);
    assert_eq!(s.concerned(FeedEvent::OrderStatuses), vec![2, 5]);
    assert_eq!(s.concerned(FeedEvent::UserOrders), vec![4]);
}

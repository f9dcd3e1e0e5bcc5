use hl_orderbook::daykeys::scan_days;
use hl_orderbook::rows::RowMap;
use hl_orderbook::strategy::aggregator::{accumulate_strategy_fill, epoch_day, strategy_row_keys};
use hl_orderbook::strategy::handlers::{
    batch_request, build_view, strategy_request, window_from, BatchRequest, MAX_USERS,
};
use hl_orderbook::strategy::stats_db::{
    cum_key, day_key, decode_strat_key_hex, decode_strategy_cloid, strat_key_hex, StratKey, StrategyStats,
};

#[test]
fn decode_valid_cloid() {
    // magic b05a, version 01, stratKey = 0011223344556677, nonce = 8899aabbcc
    let cloid = "0xb05a010011223344556677008899aabb";
    let key = decode_strategy_cloid(cloid).expect("valid borsa cloid");
    assert_eq!(key, [0x00, 0x11, 0x22, 0x33, 0x44, 0x55, 0x66, 0x77]);
    assert_eq!(strat_key_hex(&key), "0011223344556677");
}

#[test]
fn decode_accepts_no_0x_prefix_and_uppercase_magic() {
    let lower = decode_strategy_cloid("b05a01aabbccddeeff0011deadbeefca");
    let upper = decode_strategy_cloid("B05A01AABBCCDDEEFF0011DEADBEEFCA");
    assert!(lower.is_some());
    assert_eq!(lower, upper);
    assert_eq!(strat_key_hex(&lower.unwrap()), "aabbccddeeff0011");
}

#[test]
fn decode_rejects_wrong_magic() {
    // Same length/shape but magic is dead, not b05a.
    assert_eq!(decode_strategy_cloid("0xdead010011223344556677008899aabb"), None);
}

#[test]
fn decode_rejects_bad_length_and_nonhex() {
    assert_eq!(decode_strategy_cloid("0xb05a01"), None); // too short
    assert_eq!(decode_strategy_cloid("0xb05a010011223344556677008899aabbcc"), None); // too long
    assert_eq!(decode_strategy_cloid("0xb05a01zz11223344556677008899aabb"), None); // non-hex
    assert_eq!(decode_strategy_cloid(""), None);
}

#[test]
fn stats_db_day_keys_sort_after_cum_key_and_by_date() {
    let k: StratKey = [1, 2, 3, 4, 5, 6, 7, 8];
    let other: StratKey = [9, 0, 0, 0, 0, 0, 0, 0];
    let cum = cum_key(&k).to_vec();
    let d1 = day_key(&k, 20_000).to_vec();
    let d2 = day_key(&k, 20_001).to_vec();
    let other_cum = cum_key(&other).to_vec();
    assert!(cum < d1 && d1 < d2 && d2 < other_cum);
}

#[test]
fn daily_scan_respects_range_and_strategy_boundary() {
    let k: StratKey = [1; 8];
    let k2: StratKey = [2; 8];
    let mut keys: Vec<Vec<u8>> = vec![
        cum_key(&k).to_vec(),
        day_key(&k, 100).to_vec(),
        day_key(&k, 101).to_vec(),
        day_key(&k, 105).to_vec(),
        day_key(&k2, 101).to_vec(),
    ];
    keys.sort();
    let start = day_key(&k, 100).to_vec();
    let from_start: Vec<Vec<u8>> = keys.into_iter().filter(|x| *x >= start).collect();
    assert_eq!(scan_days(&from_start, &k, 104), vec![100, 101]);
}

#[test]
fn accumulate_tracks_users_and_first_last() {
    let mut s = StrategyStats::default();
    s.accumulate(100, 1, "0xaaa", 2000, true);
    s.accumulate(200, 2, "0xbbb", 1000, true);
    s.accumulate(50, 0, "0xaaa", 3000, true);
    assert_eq!(s.volume_quote_e8, 350);
    assert_eq!(s.builder_fees_quote_e8, 3);
    assert_eq!(s.fill_count, 3);
    assert_eq!(s.unique_users.len(), 2);
    assert_eq!(s.first_update_ms, 1000);
    assert_eq!(s.last_update_ms, 3000);
}

#[test]
fn buckets_borsa_cloid_into_cum_and_daily() {
    let mut by_key: RowMap<StrategyStats> = RowMap::new();
    let cloid = "0xb05a010011223344556677008899aabb";
    // px*sz = 2*3 = 6 USD; builder fee passed in exact, e8-scaled (60_000).
    let notional_e8 = ("2".parse::<f64>().unwrap() * "3".parse::<f64>().unwrap() * 1e8) as u128;
    accumulate_strategy_fill(
        &mut by_key,
        None,
        None,
        Some(cloid),
        notional_e8,
        "0xabc",
        1_700_000_000_000,
        60_000,
    );
    // One cumulative + one daily row.
    assert_eq!(by_key.len(), 2);
    let strat_key = decode_strategy_cloid(cloid).unwrap();
    let cum = by_key.get(&cum_key(&strat_key)).unwrap();
    assert_eq!(cum.volume_quote_e8, 600_000_000); // 6 * 1e8
    assert_eq!(cum.fill_count, 1);
    assert_eq!(cum.unique_users.len(), 1);
    assert_eq!(cum.builder_fees_quote_e8, 60_000);
    let day = by_key.get(&day_key(&strat_key, epoch_day(1_700_000_000_000))).unwrap();
    assert_eq!(day.volume_quote_e8, 600_000_000);
    assert_eq!(day.unique_users.len(), 0);
}

#[test]
fn ignores_non_borsa_and_missing_cloid() {
    let mut by_key: RowMap<StrategyStats> = RowMap::new();
    accumulate_strategy_fill(&mut by_key, None, None, None, 600_000_000, "0xabc", 1_700_000_000_000, 0);
    accumulate_strategy_fill(
        &mut by_key,
        None,
        None,
        Some("0xdead010011223344556677008899aabb"),
        600_000_000,
        "0xabc",
        1_700_000_000_000,
        0,
    );
    assert!(by_key.is_empty());
    assert!(strategy_row_keys(None, 1_700_000_000_000).is_none());
}

fn stored_strategy() -> StrategyStats {
    let mut s = StrategyStats::default();
    s.volume_quote_e8 = 600_000_000;
    s.fill_count = 2;
    s.last_update_ms = 1_700_000_000_000;
    s.unique_users.insert("0xaaa".to_string());
    s.unique_users.insert("0xbbb".to_string());
    s
}

#[test]
fn single_key_view_includes_users_array() {
    let s = stored_strategy();
    let view = build_view("0011223344556677", Some(&s), &Vec::new(), 20_000, true);
    // `users` is present and lists the stored lowercase addresses.
    assert_eq!(view.unique_users, 2);
    let addrs = view.users.expect("users array present");
    assert!(addrs.contains(&"0xaaa".to_string()) && addrs.contains(&"0xbbb".to_string()));
    assert!(addrs.len() <= MAX_USERS);
}

#[test]
fn batch_view_omits_users_array() {
    let s = stored_strategy();
    let view = build_view("0011223344556677", Some(&s), &Vec::new(), 20_000, false);
    // Batch keeps the count but skips the address list entirely.
    assert_eq!(view.unique_users, 2);
    assert!(view.users.is_none());
}

#[test]
fn unknown_strategy_zero_view_respects_with_users() {
    let with = build_view("0909090909090909", None, &Vec::new(), 20_000, true);
    let without = build_view("0909090909090909", None, &Vec::new(), 20_000, false);
    // GET returns an empty array for an unknown strategy; batch omits the field.
    assert_eq!(with.users.unwrap().len(), 0);
    assert!(without.users.is_none());
    assert_eq!(with.volume_quote_e8, 0);
}

#[test]
fn windows_count_back_from_today() {
    assert_eq!(window_from(100, 1), 100);
    assert_eq!(window_from(100, 7), 94);
    assert_eq!(window_from(3, 30), 0);
}

#[test]
fn views_hold_the_days_of_each_window() {
    let s = stored_strategy();
    let daily: Vec<(u32, u128)> = vec![(71, 1), (94, 2), (100, 4)];
    let view = build_view("0011223344556677", Some(&s), &daily, 100, false);
    assert_eq!(view.vol_24h, vec![4]);
    assert_eq!(view.vol_7d, vec![2, 4]);
    assert_eq!(view.vol_30d, vec![1, 2, 4]);
}

#[test]
fn keys_of_requests_are_checked() {
    let (hex, key) = strategy_request("00112233445566FF").unwrap();
    assert_eq!(hex, "00112233445566ff");
    assert_eq!(strat_key_hex(&key), "00112233445566ff");
    assert_eq!(strategy_request("zz").unwrap_err(), "invalid stratKey, want 16 hex chars");
    assert_eq!(decode_strat_key_hex("0909090909090909"), Some([9; 8]));
    assert_eq!(decode_strat_key_hex("09"), None);
    let many = BatchRequest { strat_keys: vec!["0909090909090909".to_string(); 501] };
    assert!(batch_request(&many).is_err());
    let few = BatchRequest { strat_keys: vec!["0909090909090909".to_string(), "x".to_string()] };
    assert_eq!(batch_request(&few).map(|m| m.len()).unwrap_or(0), 1);
}

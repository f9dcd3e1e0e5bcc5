use hl_orderbook::daykeys::scan_days;
use hl_orderbook::referral::address::{address_string, Address};
use hl_orderbook::referral::aggregator::{
    accumulate, attribute, is_our_builder, record_fill, user_row_keys, Attribution, FillRecord, StoredRows,
    FLAG_BUILDER, FLAG_REFERRAL,
};
use hl_orderbook::referral::handlers::{
    accrual_entry, accrual_of, accrual_request, daily_range, day_from, epoch_day_to_date, number_from, parse_epoch_day,
    too_many_users, top_limit, user_request, AccrualBatch, AccrualSpan, AccrualUser, DailyQuery, TopQuery,
};
use hl_orderbook::referral::referrer_tracker::{
    apply_actions, first_file_read, line_counts, next_offset, revokes, RefAction, RefBlock, RefResp,
    ReferrerTracker,
};
use hl_orderbook::referral::stats_db::{add_to_token_map, cum_key, day_key, is_user_row, top, UserStats};
use hl_orderbook::rows::RowMap;
use hl_orderbook::strategy::stats_db::StrategyStats;
use hl_orderbook::strmap::StrMap;

const BUILDER: &str = "0x74c362cd3a141769f38c48d66ee51b1938ea4bd0";

fn addr(last: u8) -> Address {
    let mut b = [0u8; 20];
    b[19] = last;
    b
}

#[test]
fn day_keys_sort_after_cum_key_and_by_date() {
    let a = addr(1);
    let cum = cum_key(&a).to_vec();
    let d1 = day_key(&a, 20_000).to_vec();
    let d2 = day_key(&a, 20_001).to_vec();
    let other = cum_key(&addr(2)).to_vec();
    assert!(cum < d1 && d1 < d2 && d2 < other);
}

#[test]
fn daily_scan_respects_range_and_user_boundary() {
    let a = addr(1);
    let mut keys: Vec<Vec<u8>> = vec![
        cum_key(&a).to_vec(),
        day_key(&a, 100).to_vec(),
        day_key(&a, 101).to_vec(),
        day_key(&a, 105).to_vec(),
        day_key(&addr(2), 101).to_vec(),
    ];
    keys.sort();
    let start = day_key(&a, 100).to_vec();
    let from_start: Vec<Vec<u8>> = keys.into_iter().filter(|x| *x >= start).collect();
    assert_eq!(scan_days(&from_start, &a, 104), vec![100, 101]);
}

#[test]
fn only_totals_are_user_rows() {
    assert!(is_user_row(&cum_key(&addr(1))));
    assert!(!is_user_row(&day_key(&addr(1), 5)));
}

#[test]
fn addresses_are_read_back() {
    let mut a = addr(0xab);
    a[0] = 0xf0;
    let text = address_string(&a);
    assert_eq!(text, "0xf0000000000000000000000000000000000000ab");
    assert_eq!(user_request(&text).unwrap(), a);
    assert_eq!(user_request(&text.to_uppercase().replace("0X", "0x")).unwrap(), a);
    assert!(user_request("0x12").is_err());
}

#[test]
fn fees_add_up_by_token() {
    let mut m: StrMap<String> = StrMap::new();
    add_to_token_map(&mut m, "USDC", 5);
    add_to_token_map(&mut m, "USDC", -12);
    add_to_token_map(&mut m, "HYPE", 1);
    assert_eq!(m.get("USDC").cloned(), Some("-7".to_string()));
    assert_eq!(m.get("HYPE").cloned(), Some("1".to_string()));
}

fn fill(a: Address, builder: Option<&str>) -> FillRecord {
    FillRecord {
        addr: a,
        builder: builder.map(String::from),
        builder_fee_e8: 7,
        cloid: None,
        notional_e8: 100,
        fee_token: "USDC".to_string(),
        fee_e8: Some(50),
        reward_e8: 5,
    }
}

fn builder_bytes() -> Address {
    user_request(BUILDER).unwrap()
}

#[test]
fn fills_are_attributed_to_referral_and_builder() {
    let mut t = ReferrerTracker::empty("CODE", BUILDER);
    assert_eq!(t.tracked_code(), "CODE");
    assert!(!t.is_tracked("0x0000000000000000000000000000000000000001"));
    t.insert("0x0000000000000000000000000000000000000001".to_string());
    assert_eq!(t.len(), 1);
    let both = attribute(&t, &builder_bytes(), &fill(addr(1), Some(BUILDER)));
    assert!(both.referral && both.builder);
    let none = attribute(&t, &builder_bytes(), &fill(addr(2), Some("0xdead")));
    assert!(!none.referral && !none.builder);
    assert!(is_our_builder(&Some(BUILDER.to_uppercase().replace("0X", "0x")), &builder_bytes()));
    assert!(!is_our_builder(&None, &builder_bytes()));
}

#[test]
fn totals_follow_the_attribution() {
    let mut s = UserStats::default();
    accumulate(&mut s, &fill(addr(1), None), 9, Attribution { referral: true, builder: false });
    assert_eq!((s.volume_quote_e8, s.fill_count, s.last_update_ms, s.match_flags), (100, 1, 9, FLAG_REFERRAL));
    assert_eq!(s.builder_fees_quote_e8, 0);
    assert_eq!(s.referral_fees_by_token.get("USDC").cloned(), Some("5".to_string()));
    accumulate(&mut s, &fill(addr(1), None), 10, Attribution { referral: false, builder: true });
    assert_eq!((s.builder_fees_quote_e8, s.builder_volume_quote_e8), (7, 100));
    assert_eq!(s.match_flags, FLAG_REFERRAL | FLAG_BUILDER);
    assert_eq!(s.fees_by_token.get("USDC").cloned(), Some("100".to_string()));
}

#[test]
fn fills_are_recorded_in_total_and_by_day() {
    let mut t = ReferrerTracker::empty("CODE", BUILDER);
    t.insert("0x0000000000000000000000000000000000000001".to_string());
    let mut rows: RowMap<UserStats> = RowMap::new();
    let mut strategies: RowMap<StrategyStats> = RowMap::new();
    let nothing = || StoredRows { user_total: None, user_day: None, strategy_total: None, strategy_day: None };
    let ms = 5 * 86_400_000;
    assert!(record_fill(&mut rows, &mut strategies, nothing(), &t, &builder_bytes(), &fill(addr(1), None), ms));
    assert!(!record_fill(&mut rows, &mut strategies, nothing(), &t, &builder_bytes(), &fill(addr(2), None), ms));
    assert_eq!(rows.len(), 2);
    let (total, day) = user_row_keys(&addr(1), ms);
    assert_eq!(total, cum_key(&addr(1)).to_vec());
    assert_eq!(day, day_key(&addr(1), 5).to_vec());
    assert_eq!(rows.get(&total).unwrap().volume_quote_e8, 100);
    assert_eq!(rows.get(&day).unwrap().volume_quote_e8, 100);
    assert!(strategies.is_empty());
}

#[test]
fn the_largest_volumes_come_first() {
    assert_eq!(top(&vec![5, 9, 7], 2), vec![1, 2]);
    assert_eq!(top(&vec![], 2), Vec::<usize>::new());
}

#[test]
fn days_are_dates() {
    assert_eq!(parse_epoch_day("1970-01-02"), Some(1));
    assert_eq!(parse_epoch_day("2023-11-14"), Some(19_675));
    assert_eq!(parse_epoch_day("1969-12-31"), None);
    assert_eq!(parse_epoch_day("soon"), None);
    assert_eq!(epoch_day_to_date(19_675), Some("2023-11-14".to_string()));
    assert_eq!(epoch_day_to_date(0), Some("1970-01-01".to_string()));
    assert_eq!(parse_epoch_day("2024-02-30"), None);
    assert_eq!(epoch_day_to_date(u32::MAX), None);
    assert_eq!(epoch_day_to_date(100_000_000), None);
    assert_eq!((day_from(Some(719_163)), day_from(Some(719_162)), day_from(None)), (Some(0), None, None));
    assert_eq!((number_from(0), number_from(u32::MAX)), (Some(719_163), None));
}

#[test]
fn ranges_are_checked() {
    let q = |from: Option<&str>, to: Option<&str>| DailyQuery { from: from.map(String::from), to: to.map(String::from) };
    assert_eq!(daily_range(&q(Some("1970-01-02"), Some("1970-01-05")), 100).unwrap(), (1, 4));
    assert!(daily_range(&q(Some("x"), None), 100).is_err());
    assert!(daily_range(&q(Some("1970-01-05"), Some("1970-01-02")), 100).is_err());
    assert_eq!(top_limit(&TopQuery { limit: Some(3) }), 3);
}

#[test]
fn accruals_are_summed() {
    let today = 100;
    let u = |address: &str, from: Option<&str>| AccrualUser { address: address.to_string(), from: from.map(String::from) };
    let a = "0x0000000000000000000000000000000000000001";
    assert!(matches!(accrual_request(&u(a, None), today), Ok((_, AccrualSpan::AllTime))));
    assert!(matches!(accrual_request(&u(a, Some("1970-01-11")), today), Ok((_, AccrualSpan::Days(10, 100)))));
    assert!(matches!(accrual_request(&u(a, Some("2023-11-14")), today), Ok((_, AccrualSpan::Nothing))));
    assert!(accrual_request(&u("0x1", None), today).is_err());
    let mut s = UserStats::default();
    s.builder_fees_quote_e8 = 3;
    s.volume_quote_e8 = 4;
    s.fill_count = 5;
    s.last_update_ms = 6;
    let mut other = UserStats::default();
    other.builder_fees_quote_e8 = 10;
    other.last_update_ms = 2;
    let entry = accrual_entry(&addr(1), accrual_of(&vec![s, other]));
    assert_eq!(entry.address, a);
    assert_eq!((entry.builder_fees_quote_e8.as_str(), entry.fill_count, entry.last_update_ms), ("13", 5, 6));
    let many = AccrualBatch { users: (0..1_001).map(|_| u(a, None)).collect() };
    assert!(too_many_users(&many));
}

#[test]
fn the_tracker_follows_signed_actions() {
    let mut t = ReferrerTracker::empty("Code", BUILDER);
    let act = |kind: &str, code: Option<&str>, builder: Option<&str>, rate: Option<&str>| RefAction {
        vault_address: None,
        action_type: Some(kind.to_string()),
        code: code.map(String::from),
        builder: builder.map(String::from),
        max_fee_rate: rate.map(String::from),
    };
    let resp = |user: &str, status: &str| RefResp { user: Some(user.to_string()), status: Some(status.to_string()) };
    let block = RefBlock {
        bundles: vec![vec![
            act("setReferrer", Some("CODE"), None, None),
            act("setReferrer", Some("other"), None, None),
            act("approveBuilderFee", None, Some(BUILDER), Some("0.1%")),
        ]],
        resps: Some(vec![vec![resp("0xA", "ok"), resp("0xB", "ok"), resp("0xC", "ok")]]),
    };
    apply_actions(&mut t, &block);
    assert!(t.is_tracked("0xa"));
    assert!(!t.is_tracked("0xb"));
    assert!(t.builder_is_tracked("0xc"));
    assert_eq!((t.len(), t.builder_len()), (1, 1));
    assert!(revokes("0%"));
    assert!(!revokes("0.1%"));
    assert!(line_counts(r#"{"type":"setReferrer"}"#));
    assert!(!line_counts(r#"{"type":"order"}"#));
    assert_eq!(first_file_read(0), 0);
    assert_eq!(next_offset(5, 3, 100), 8);
}

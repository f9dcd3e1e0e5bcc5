use hl_orderbook::assetmap::AssetMap;
use hl_orderbook::clearing_house::{
    AccountMode, AssetMeta, DexState, Leverage, LiquidationState, MarginMode, MarginTier, Position,
    UserState, UserStatePartial,
};
use hl_orderbook::strmap::StrMap;
use hl_orderbook::tools::node_sync::{
    block_time_in, build_summary, classify_status, colored_status, cutoff_ms, fmt_time,
    resolve_series_query, to_i64, Advance, Poller, Reading, SeriesWindow,
};
use hl_orderbook::tools::rmp_inspect::{margin_tables_of, pretty_line, read_args, tiers_of, user_standings};
use hl_orderbook::tools::user_trace::{
    collect_fills, collect_misc_events, collect_replica, expand_tilde, side_name, trace_command, trace_order, Source,
    TraceEvent,
};
use std::collections::HashSet;

#[test]
fn statuses_follow_the_lag() {
    assert_eq!(classify_status(4), "SYNCED");
    assert_eq!(classify_status(5), "BEHIND");
    assert_eq!(classify_status(30), "LAGGING");
    assert_eq!(classify_status(120), "FAR_BEHIND");
    assert_eq!(colored_status("SYNCED"), "\x1b[32mSYNCED\x1b[0m    ");
    assert_eq!(colored_status("DOWN"), "\x1b[36mUNKNOWN\x1b[0m   ");
}

#[test]
fn times_of_day_are_padded() {
    assert_eq!(fmt_time(0), "00:00:00");
    assert_eq!(fmt_time(86_399_999), "23:59:59");
    assert_eq!(fmt_time(3_661_000), "01:01:01");
    assert_eq!(to_i64(u64::MAX), i64::MAX);
    assert_eq!(to_i64(5), 5);
}

#[test]
fn polls_tell_how_blocks_advance() {
    let mut p = Poller { prev_block_time: None };
    let a = p.on_answer(10_000, 4_000);
    assert_eq!((a.lag_s, a.advance, a.advance_ms, a.status), (6, Advance::FirstCheck, None, "BEHIND"));
    let b = p.on_answer(11_000, 4_000);
    assert_eq!((b.advance, b.advance_ms), (Advance::Stalled, Some(0)));
    let c = p.on_answer(12_000, 13_000);
    assert_eq!((c.lag_s, c.advance, c.advance_ms), (0, Advance::By { ms: 9_000 }, Some(9_000)));
    assert_eq!(block_time_in(r#"{"time":12}"#), Some(12));
    assert_eq!(block_time_in(r#"{"time":"12"}"#), None);
}

#[test]
fn series_requests_are_clamped() {
    assert_eq!(resolve_series_query(None, None), SeriesWindow { minutes: 60, limit: 2_000 });
    assert_eq!(resolve_series_query(Some(0), Some(1)), SeriesWindow { minutes: 1, limit: 50 });
    assert_eq!(resolve_series_query(Some(99_999), Some(99_999)), SeriesWindow { minutes: 43_200, limit: 10_000 });
    assert_eq!(cutoff_ms(120_000, 1), 60_000);
    assert_eq!(cutoff_ms(i64::MIN, 1), i64::MIN);
}

#[test]
fn summaries_count_and_rank_lags() {
    let mut readings: Vec<Reading> = (1..=20)
        .map(|n| Reading { lag_seconds: Some(21 - n), status: "SYNCED".to_string() })
        .collect();
    readings.push(Reading { lag_seconds: None, status: "DOWN".to_string() });
    let s = build_summary(&readings);
    assert_eq!((s.total_samples, s.ok_samples, s.down_samples), (21, 20, 1));
    assert_eq!((s.lag_count, s.lag_sum), (20, 210));
    assert_eq!((s.p95_lag_seconds, s.max_lag_seconds), (Some(19), Some(20)));
    let index = ((20f64 * 0.95).ceil() as usize).saturating_sub(1);
    assert_eq!(index, 18);
    let none = build_summary(&Vec::new());
    assert_eq!((none.p95_lag_seconds, none.max_lag_seconds), (None, None));
}

#[test]
fn p95_agrees_with_the_rounded_up_share() {
    for n in 1..2_000usize {
        let readings: Vec<Reading> = (0..n)
            .map(|i| Reading { lag_seconds: Some(i as i64), status: String::new() })
            .collect();
        let index = ((n as f64 * 0.95).ceil() as usize).saturating_sub(1);
        if n % 97 == 0 || n < 50 {
            assert_eq!(build_summary(&readings).p95_lag_seconds, Some(index as i64));
        }
    }
}

#[test]
fn fills_of_a_user_are_traced() {
    let line = r#"{"block_number":7,"events":[["0xABC",{"coin":"BTC","side":"B","dir":"Open Long","sz":"1","px":"2","startPosition":"0","fee":"0.1"}],["0xdef",{}],["0xabc"]] , "x":"0xabc"}"#;
    let got = collect_fills(line, "0xabc", 6, 7);
    assert_eq!(got.len(), 1);
    assert_eq!((got[0].block, got[0].source), (7, Source::Fill));
    assert_eq!(got[0].summary, "BTC Bid/Buy Open Long sz=1 px=2 startPos=0 fee=0.1 dir=Open Long closedPnl=0");
    assert!(collect_fills(line, "0xabc", 7, 9).is_empty());
    assert!(collect_fills("nonsense 0xabc", "0xabc", 0, 9).is_empty());
    assert_eq!(side_name("A"), "Ask/Sell");
    assert_eq!(side_name("?"), "?");
}

#[test]
fn events_of_a_user_are_traced() {
    let line = r#"{"block_number":7,"events":[
        {"inner":{"Funding":{"deltas":[{"user":"0xABC","coin":"BTC","funding_amount":"1","szi":"2","fundingRate":"3"},{"user":"0xd"}]}}},
        {"inner":{"LedgerUpdate":{"users":["0xabc"],"delta":{"type":"deposit"}}}},
        {"inner":{"CDeposit":{"user":"0xabc"}}},
        {"inner":{"CDeposit":{"user":"0xdef"}}}]}"#;
    let got = collect_misc_events(line, "0xabc", 6, 7);
    let summaries: Vec<&str> = got.iter().map(|e| e.summary.as_str()).collect();
    assert_eq!(summaries, vec!["Funding coin=BTC amt=1 szi=2 rate=3", "LedgerUpdate type=deposit", "CDeposit"]);
    assert_eq!(got[1].detail, "{\n  \"type\": \"deposit\"\n}");
    assert_eq!(got[0].source.name(), "misc");
}

#[test]
fn commands_of_a_user_are_traced() {
    let line = r#"{"abci_block":{"signed_action_bundles":[["0xABCDEF0123456789",{"signed_actions":[
        {"action":{"type":"order"}},
        {"action":{"type":"usdSend","destination":"0xabcdef0123456789"}}]}],
        ["0xother",{"signed_actions":[{"action":{"type":"order","for":"0xabcdef0123456789"}},{"type":"spotSend","to":"0xabcdef0123456789"}]}]]},
        "resps":{"Full":[["x",[{"user":"0xabcdef0123456789","res":{"status":"err"}}]]]}}"#;
    let got = collect_replica(line, Some(100), 5, "0xabcdef0123456789", 100, 200);
    let summaries: Vec<&str> = got.iter().map(|e| e.summary.as_str()).collect();
    assert_eq!(
        summaries,
        vec![
            "type=order role=signer signer=0xabcdef012345.. status=err",
            "type=usdSend role=signer signer=0xabcdef012345.. status=ok",
            "type=spotSend role=referenced signer=0xother.. status=ok",
        ]
    );
    assert_eq!(got[0].block, 105);
    assert!(collect_replica(line, Some(100), 5, "0xabcdef0123456789", 105, 200).is_empty());
    let vault = trace_command(r#"{"action":{"type":"order"},"vaultAddress":"0xV"}"#, "0xs", None, "0xv", 1);
    assert!(vault.is_none());
    let resp = trace_command(r#"{"action":{"type":"x"}}"#, "0xs", Some(r#"{"user":"0xV"}"#), "0xv", 1);
    assert_eq!(resp.unwrap().summary, "type=x role=resp_user signer=0xs.. status=ok");
    let wide = trace_command(r#"{"action":{"type":"x"}}"#, "éééééééé", Some(r#"{"user":"0xV"}"#), "0xv", 1);
    assert_eq!(wide.unwrap().summary, "type=x role=resp_user signer=ééééééé.. status=ok");
}

#[test]
fn traces_are_shown_by_block() {
    let event = |block: u64| TraceEvent { block, source: Source::Misc, summary: String::new(), detail: String::new() };
    assert_eq!(trace_order(&vec![event(5), event(2), event(5), event(1)]), vec![3, 1, 0, 2]);
}

fn state() -> LiquidationState {
    let meta = |name: &str, table: u32| AssetMeta {
        name: name.to_string(),
        sz_decimals: 0,
        margin_table_id: table,
        margin_mode: MarginMode::Normal,
    };
    let mut margin_tables: AssetMap<Vec<MarginTier>> = AssetMap::new();
    margin_tables.insert(7, vec![MarginTier { lower_bound: 0, max_leverage: 40, maintenance_deduction: 0 }]);
    let mut positions: AssetMap<Position> = AssetMap::new();
    positions.insert(
        1,
        Position { szi: 3, cost_basis: 4, leverage: Leverage::Cross(2), margin_table_id: 7, outstanding_funding: 5 },
    );
    let mut settings: AssetMap<Leverage> = AssetMap::new();
    settings.insert(9, Leverage::Cross(1));
    settings.insert(1, Leverage::Cross(2));
    settings.insert(0, Leverage::Cross(3));
    let mut users: StrMap<UserState> = StrMap::new();
    users.insert(
        "0xa".to_string(),
        UserState {
            usdc_balance: 11,
            spot_collateral: 12,
            spot_collateral_decimals: 8,
            account_mode: AccountMode::Unified,
            positions,
            leverage_settings: settings,
        },
    );
    let mut partials: StrMap<UserStatePartial> = StrMap::new();
    partials.insert("0xb".to_string(), UserStatePartial::fresh());
    LiquidationState {
        dex_states: vec![DexState {
            pdi: 0,
            universe: vec![meta("BTC", 7), meta("ETH", 7), meta("SOL", 8)],
            margin_tables,
            oracle_prices: Vec::new(),
            users,
            collateral_token: 0,
            users_without_positions: partials,
        }],
        coin_to_dex_asset: StrMap::new(),
        processed_withdrawal_nonces: HashSet::new(),
        processed_vault_withdrawals: StrMap::new(),
        positions_needing_leverage_fix: Vec::new(),
        event_log: None,
        unified_balances: StrMap::new(),
        user_action_counts: StrMap::new(),
        borrow_lend_states: StrMap::new(),
        portfolio_margin_users: StrMap::new(),
        vault_states: StrMap::new(),
        mark_prices: AssetMap::new(),
        dex_name_to_pdi: StrMap::new(),
    }
}

#[test]
fn standings_list_positions_and_other_settings() {
    let s = state();
    let got = user_standings(&s, "0xa");
    assert_eq!(got.len(), 1);
    assert_eq!((got[0].usdc_balance, got[0].spot_collateral, got[0].partial), (11, 12, false));
    assert_eq!(got[0].positions.len(), 1);
    assert_eq!(got[0].positions[0].listing.coin, "ETH");
    assert_eq!(got[0].positions[0].listing.max_leverage, Some(40));
    let settings: Vec<(u32, &str, Option<u32>)> = got[0]
        .settings
        .iter()
        .map(|l| (l.asset, l.listing.coin.as_str(), l.listing.max_leverage))
        .collect();
    assert_eq!(settings, vec![(0, "BTC", Some(40)), (9, "?", None)]);
    assert!(user_standings(&s, "0xb")[0].partial);
    assert!(user_standings(&s, "0xc").is_empty());
}

#[test]
fn margin_tables_are_listed_once() {
    let s = state();
    assert_eq!(margin_tables_of(&s.dex_states[0], &vec![2, 0, 1, 50]), vec![8, 7]);
    assert_eq!(tiers_of(&s.dex_states[0], 7).unwrap().len(), 1);
    assert!(tiers_of(&s.dex_states[0], 8).is_none());
}

#[test]
fn raw_lines_are_made_readable() {
    assert_eq!(pretty_line("plain"), vec!["plain"]);
    assert_eq!(pretty_line("  k={\"a\":1}"), vec!["  k={", "        \"a\": 1", "      }"]);
    let wide = pretty_line("\u{3000}k={\"a\":1}");
    assert_eq!(wide, vec!["\u{3000}k={", "         \"a\": 1", "       }"]);
    assert_eq!(pretty_line("k={\"a\":1} x"), vec!["k={\"a\":1} x"]);
    assert_eq!(pretty_line("k={a}"), vec!["k={a}"]);
    assert_eq!(pretty_line("k=[]"), vec!["k=[]"]);
}

#[test]
fn switches_may_stand_anywhere() {
    let args: Vec<String> = ["f.rmp", "--raw", "0xA"].iter().map(|s| s.to_string()).collect();
    let r = read_args(&args);
    assert!(r.raw && !r.structure);
    assert_eq!(r.rest, vec!["f.rmp", "0xA"]);
}

#[test]
fn a_bare_tilde_is_no_home_directory_in_traces() {
    let home = Some("/home/u".to_string());
    assert_eq!(expand_tilde("~", &home), "~");
    assert_eq!(expand_tilde("~/d", &home), "/home/u/d");
    assert_eq!(expand_tilde("/d", &home), "/d");
    assert_eq!(expand_tilde("~/d", &None), "~/d");
}

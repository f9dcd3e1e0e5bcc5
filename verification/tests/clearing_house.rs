use hl_orderbook::assetmap::AssetMap;
use hl_orderbook::clearing_house::api_leverage::{
    api_setting, inject_leverage, leverage_from_answer, ApiSetting,
};
use hl_orderbook::clearing_house::compare::{compare_states, format_leverage, leverage_type_matches};
use hl_orderbook::clearing_house::fill::FillAmounts;
use hl_orderbook::clearing_house::liquidation_map::{
    build_l4_liquidation_map_from_entries, liq_entry, liquidated_coins, state_request, LeverageInfo,
    PositionInfo, PositionReading,
};
use hl_orderbook::clearing_house::misc_events::{
    apply_ledger_update, apply_misc_event_batch, FundingDelta, FundingEvent, LedgerDelta,
    LedgerUpdateEvent, MiscEvent, MiscEventBatch, MiscEventInner,
};
use hl_orderbook::clearing_house::misc_report::{
    classify_misc_event, extract_raw_debug_misc_events, related_debug_users_in_value, EventFile,
};
use hl_orderbook::clearing_house::replay::{
    block_height_from_rmp, extract_block_number, in_block_range, in_replay_range, replay_event, replay_order,
    replica_file_counts, replica_line_block, EventType, ReplayEvent, ReplayTotals,
};
use hl_orderbook::clearing_house::replica::{
    apply_replica_block, parse_token, AbciBlock, Action, ActionBundle, ActionResp, ActionResult,
    ReplicaBlock, Resps, SignedAction,
};
use hl_orderbook::clearing_house::state::decompose_asset_id;
use hl_orderbook::clearing_house::{
    AccountMode, AssetMeta, DexState, Leverage, LiquidationState, MarginMode, Position, UserState,
    UserStatePartial, VaultState,
};
use hl_orderbook::strmap::StrMap;
use std::collections::HashSet;

fn make_state(asset_count: usize) -> LiquidationState {
    let universe: Vec<AssetMeta> = (0..asset_count)
        .map(|idx| AssetMeta {
            name: format!("COIN{idx}"),
            sz_decimals: 0,
            margin_table_id: 0,
            margin_mode: MarginMode::Normal,
        })
        .collect();
    let mut coin_to_dex_asset: StrMap<(usize, usize)> = StrMap::new();
    for (idx, meta) in universe.iter().enumerate() {
        coin_to_dex_asset.insert(meta.name.clone(), (0, idx));
    }
    LiquidationState {
        dex_states: vec![DexState {
            pdi: 0,
            universe,
            margin_tables: AssetMap::new(),
            oracle_prices: vec![0; asset_count],
            users: StrMap::new(),
            collateral_token: 0,
            users_without_positions: StrMap::new(),
        }],
        coin_to_dex_asset,
        processed_withdrawal_nonces: HashSet::new(),
        processed_vault_withdrawals: StrMap::new(),
        positions_needing_leverage_fix: Vec::new(),
        event_log: None,
        unified_balances: StrMap::new(),
        user_action_counts: StrMap::new(),
        borrow_lend_states: StrMap::new(),
        portfolio_margin_users: StrMap::new(),
        vault_states: StrMap::new(),
        mark_prices: AssetMap::new(),
        dex_name_to_pdi: StrMap::new(),
    }
}

fn partial(usdc_balance: i64) -> UserStatePartial {
    UserStatePartial {
        usdc_balance,
        spot_collateral: 0,
        spot_collateral_decimals: 8,
        account_mode: AccountMode::Standard,
        leverage_settings: AssetMap::new(),
    }
}

fn user_with(usdc_balance: i64, asset: u32, position: Position) -> UserState {
    let mut positions: AssetMap<Position> = AssetMap::new();
    positions.insert(asset, position);
    let mut leverage_settings: AssetMap<Leverage> = AssetMap::new();
    let setting = match position.leverage {
        Leverage::Cross(l) => Leverage::Cross(l),
        Leverage::Isolated { leverage, .. } => Leverage::Isolated { leverage, raw_usd: 0 },
    };
    leverage_settings.insert(asset, setting);
    UserState {
        usdc_balance,
        spot_collateral: 0,
        spot_collateral_decimals: 8,
        account_mode: AccountMode::Standard,
        positions,
        leverage_settings,
    }
}

fn cross(szi: i64, cost_basis: i64) -> Position {
    Position { szi, cost_basis, leverage: Leverage::Cross(10), margin_table_id: 0, outstanding_funding: 0 }
}

/// A buy at price 100 of size 2 with a fee of 1, from nothing.
fn first_buy() -> FillAmounts {
    let (px, sz, fee) = (100f64, 2f64, 1f64);
    FillAmounts {
        is_buy: true,
        start_szi: 0,
        new_szi: sz as i64,
        had_size: false,
        delta_u: (-(px * sz + fee) * 1e6) as i64,
        notional: (px * sz * 1e6) as i64,
        oracle_px: (px * 1e6) as i64,
        close_delta: 0,
        open_delta: 0,
        open_notional: 0,
        open_cost_basis: 0,
        reduced_cost_basis: 0,
        released_raw_usd: 0,
    }
}

#[test]
fn leverage_updates_on_partial_users_survive_until_first_fill() {
    let mut state = make_state(11);
    let user = "0xabc";
    state.dex_states[0].users_without_positions.insert(user.to_string(), partial(250_000_000));

    state.apply_leverage_update(user, 10, false, 40);
    assert!(state.dex_states[0].users.get(user).is_none());
    assert!(matches!(
        state.dex_states[0].users_without_positions.get(user).unwrap().leverage_settings.get(10),
        Some(Leverage::Isolated { leverage: 40, raw_usd: 0 })
    ));

    state.apply_fill(user, "COIN10", Some(first_buy()));

    let user_state = state.dex_states[0].users.get(user).unwrap();
    let pos = user_state.positions.get(10).unwrap();
    // Isolated add: delta_u + margin_transfer goes to raw_usd, usdc -= margin
    // fill_notional = 2*100*1e6 = 200M, margin = 200M/40 = 5M
    assert!(matches!(pos.leverage, Leverage::Isolated { leverage: 40, raw_usd: -196_000_000 }));
    assert_eq!(user_state.usdc_balance, 245_000_000);
}

#[test]
fn isolated_margin_updates_normalize_encoded_asset_ids() {
    let mut state = make_state(11);
    let user = "0xdef".to_string();
    state.dex_states[0].users.insert(
        user.clone(),
        user_with(
            300_000_000,
            10,
            Position {
                szi: 2,
                cost_basis: 200_000_000,
                leverage: Leverage::Isolated { leverage: 5, raw_usd: 50_000_000 },
                margin_table_id: 0,
                outstanding_funding: 0,
            },
        ),
    );

    state.apply_isolated_margin_update(&user, 10, true, 25_000_000);

    let user_state = state.dex_states[0].users.get(&user).unwrap();
    let pos = user_state.positions.get(10).unwrap();
    assert!(matches!(pos.leverage, Leverage::Isolated { leverage: 5, raw_usd: 75_000_000 }));
    assert_eq!(user_state.usdc_balance, 275_000_000);
}

#[test]
fn usd_transfers_update_partial_users_without_promoting_them() {
    let mut state = make_state(1);
    let user = "0x123";
    state.dex_states[0].users_without_positions.insert(user.to_string(), partial(10_000_000));

    state.apply_usd_transfer(user, 2_500_000);

    assert!(state.dex_states[0].users.get(user).is_none());
    assert_eq!(state.dex_states[0].users_without_positions.get(user).unwrap().usdc_balance, 12_500_000);
}

#[test]
fn users_are_known_by_small_letters() {
    let mut state = make_state(1);
    state.dex_states[0].users_without_positions.insert("0xabc".to_string(), partial(0));
    state.apply_usd_transfer("0xABC", 5);
    assert_eq!(state.dex_states[0].users_without_positions.get("0xabc").unwrap().usdc_balance, 5);
}

#[test]
fn fills_in_unknown_coins_change_nothing() {
    let mut state = make_state(1);
    assert_eq!(state.apply_fill("0x1", "NOPE", Some(first_buy())), None);
    assert!(state.dex_states[0].users.is_empty());
    assert_eq!(state.apply_fill("0x1", "COIN0", None), Some("COIN0".to_string()));
    assert!(state.dex_states[0].users.is_empty());
}

#[test]
fn new_positions_of_unknown_users_are_noted() {
    let mut state = make_state(1);
    state.apply_fill("0xNEW", "COIN0", Some(first_buy()));
    assert_eq!(state.positions_needing_leverage_fix, vec![("0xnew".to_string(), 0, 0)]);
    let who = state.users_needing_leverage();
    assert_eq!(who.len(), 1);
    assert!(who.contains_key("0xnew"));
    assert_eq!(state.user_action_counts.get("0xnew"), Some(&1));
}

#[test]
fn transfers_keep_the_sum() {
    let mut state = make_state(1);
    state.dex_states[0].users_without_positions.insert("0xa".to_string(), partial(100));
    state.dex_states[0].users_without_positions.insert("0xb".to_string(), partial(1));
    state.apply_usd_transfer("0xa", -30);
    state.apply_usd_transfer("0xb", 30);
    let a = state.dex_states[0].users_without_positions.get("0xa").unwrap().usdc_balance;
    let b = state.dex_states[0].users_without_positions.get("0xb").unwrap().usdc_balance;
    assert_eq!((a, b), (70, 31));
}

#[test]
fn asset_ids_name_dex_and_asset() {
    assert_eq!(decompose_asset_id(10), (None, 10));
    let (dex, asset) = decompose_asset_id(110_003);
    assert_eq!((dex, asset), (Some(1), 3));
}

#[test]
fn funding_is_outstanding_until_it_is_settled() {
    let mut state = make_state(1);
    state.dex_states[0].users.insert("0xa".to_string(), user_with(100, 0, cross(5, 50)));
    state.apply_funding_payment("0xA", "COIN0", Some(-7));
    let u = state.dex_states[0].users.get("0xa").unwrap();
    let before = u.usdc_balance + u.positions.get(0).unwrap().outstanding_funding;
    state.settle_funding();
    let u = state.dex_states[0].users.get("0xa").unwrap();
    assert_eq!(u.positions.get(0).unwrap().outstanding_funding, 0);
    assert_eq!(u.usdc_balance, before);
}

#[test]
fn a_state_does_not_differ_from_itself() {
    let mut state = make_state(1);
    state.dex_states[0].users.insert("0xa".to_string(), user_with(100, 0, cross(5, 50)));
    let mut two = user_with(7, 0, cross(5, 50));
    two.positions.insert(1, cross(-3, 20));
    state.dex_states[0].users.insert("0xb".to_string(), two);
    state.dex_states[0].users.insert("0xv".to_string(), user_with(9, 0, cross(1, 1)));
    state.vault_states.insert("0xv".to_string(), VaultState { user_ownership: StrMap::new() });
    state.dex_states[0].users.insert("0xp".to_string(), user_with(9, 0, cross(1, 1)));
    state.portfolio_margin_users.insert("0xp".to_string(), ());
    let results = compare_states(&state, &state);
    assert_eq!(results.len(), 1);
    let r = &results[0];
    // The positions of the vault and of the portfolio-margin user are not counted.
    assert_eq!((r.users_in_truth, r.users_in_replay, r.szi_matches), (4, 4, 3));
    assert!(r.szi_mismatches.is_empty() && r.balance_drifts.is_empty() && r.leverage_mismatches.is_empty());
    assert!(r.missing_after_replay.is_empty() && r.extra_after_replay.is_empty());
}

#[test]
fn differences_are_told_apart() {
    let mut replay = make_state(1);
    let mut truth = make_state(1);
    replay.dex_states[0].users.insert("0xa".to_string(), user_with(9_000_000, 0, cross(5, 50)));
    truth.dex_states[0].users.insert("0xa".to_string(), user_with(1_000_000, 0, cross(6, 50)));
    truth.dex_states[0].users.insert("0xb".to_string(), user_with(1, 0, cross(1, 1)));
    let r = &compare_states(&replay, &truth)[0];
    assert_eq!(r.szi_mismatches.len(), 1);
    assert_eq!((r.szi_mismatches[0].replay_szi, r.szi_mismatches[0].truth_szi), (5, 6));
    assert_eq!(r.balance_drifts.len(), 1);
    assert_eq!(r.missing_after_replay, vec!["0xb"]);
}

#[test]
fn leverages_are_compared_by_type_and_multiple() {
    let a = Leverage::Isolated { leverage: 3, raw_usd: 1 };
    let b = Leverage::Isolated { leverage: 3, raw_usd: 2 };
    assert!(leverage_type_matches(&a, &b));
    assert!(!leverage_type_matches(&a, &Leverage::Cross(3)));
    assert_eq!(format_leverage(&Leverage::Cross(3)), "Cross(3)");
}

#[test]
fn finds_debug_users_from_serialized_event_json() {
    let mut debug_users: StrMap<()> = StrMap::new();
    debug_users.insert("0xabc".to_string(), ());
    debug_users.insert("0xdef".to_string(), ());
    let event = r#"{"inner":{"CWithdrawal":{"payload":{"user":"0xAbC","nested":["ignored",{"account":"0xdEf"}]}}}}"#;
    assert_eq!(
        related_debug_users_in_value(event, "", &debug_users),
        vec![String::from("0xabc"), String::from("0xdef")]
    );
}

#[test]
fn classifies_skipped_and_applied_events() {
    let skipped = r#"{"inner":{"LedgerUpdate":{"users":["0xabc"],"delta":{"type":"borrowLend"}}}}"#;
    let applied = r#"{"inner":{"LedgerUpdate":{"users":["0xabc"],"delta":{"type":"liquidation"}}}}"#;
    assert_eq!(classify_misc_event(skipped, ""), (String::from("LedgerUpdate/borrowLend"), "skipped"));
    assert_eq!(classify_misc_event(applied, ""), (String::from("LedgerUpdate/liquidation"), "applied"));
}

#[test]
fn related_events_are_reported() {
    let mut users: StrMap<()> = StrMap::new();
    users.insert("0xabc".to_string(), ());
    let line = r#"{"block_number":5,"events":[{"inner":{"CDeposit":{"user":"0xABC"}}},{"inner":{"CDeposit":{"user":"0xdef"}}}]}"#;
    let files = vec![EventFile { path: "/d/f".to_string(), lines: vec![line.to_string()] }];
    let out = extract_raw_debug_misc_events(&files, &users, 4, 5);
    assert!(out.contains("0xABC"));
    assert!(!out.contains("0xdef"));
    assert!(!extract_raw_debug_misc_events(&files, &users, 5, 9).contains("0xABC"));
}

#[test]
fn sends_move_money_between_users() {
    let mut state = make_state(1);
    state.dex_states[0].users_without_positions.insert("0xa".to_string(), partial(1_000_000));
    let applied = apply_ledger_update(
        &mut state,
        &LedgerUpdateEvent {
            users: vec!["0xa".to_string()],
            delta: LedgerDelta::RewardsClaim { micro: 500_000 },
        },
    );
    assert!(applied);
    assert_eq!(state.dex_states[0].users_without_positions.get("0xa").unwrap().usdc_balance, 1_500_000);
    let skipped = apply_ledger_update(
        &mut state,
        &LedgerUpdateEvent { users: vec!["0xa".to_string()], delta: LedgerDelta::BorrowLend },
    );
    assert!(!skipped);
}

#[test]
fn batches_count_what_they_apply() {
    let mut state = make_state(1);
    state.dex_states[0].users.insert("0xa".to_string(), user_with(100, 0, cross(5, 50)));
    let batch = MiscEventBatch {
        block_number: 1,
        events: vec![
            MiscEvent {
                inner: MiscEventInner::Funding(FundingEvent {
                    deltas: vec![FundingDelta {
                        user: "0xa".to_string(),
                        coin: "COIN0".to_string(),
                        micro: Some(3),
                    }],
                }),
            },
            MiscEvent { inner: MiscEventInner::Delegation },
        ],
    };
    let (funding, ledger) = apply_misc_event_batch(&mut state, &batch);
    assert_eq!((funding, ledger), (1, 0));
}

fn block_of(user: &str, action: Action, status: &str) -> ReplicaBlock {
    ReplicaBlock {
        abci_block: AbciBlock {
            time: None,
            signed_action_bundles: vec![(
                "0xbundle".to_string(),
                ActionBundle { signed_actions: vec![SignedAction { vault_address: None, action }] },
            )],
        },
        resps: Some(Resps::Full(vec![(
            "0xbundle".to_string(),
            vec![ActionResp {
                user: Some(user.to_string()),
                res: Some(ActionResult { status: status.to_string() }),
            }],
        )])),
    }
}

#[test]
fn successful_actions_change_the_state() {
    let mut state = make_state(2);
    state.dex_states[0].users_without_positions.insert("0xa".to_string(), partial(0));
    let action = || Action::UpdateLeverage { asset: 1, is_cross: true, leverage: 7 };
    let failed = apply_replica_block(&mut state, &block_of("0xa", action(), "err"));
    assert!(failed.is_ok());
    assert!(state.dex_states[0].users_without_positions.get("0xa").unwrap().leverage_settings.get(1).is_none());
    let touched = apply_replica_block(&mut state, &block_of("0xa", action(), "ok"));
    assert!(touched.is_ok());
    assert_eq!(
        state.dex_states[0].users_without_positions.get("0xa").unwrap().leverage_settings.get(1),
        Some(&Leverage::Cross(7))
    );
}

#[test]
fn tokens_are_numbers_or_names() {
    assert_eq!(parse_token("150"), 150);
    assert_eq!(parse_token("USDC:0x1"), 0);
    assert_eq!(parse_token("USDH:0x1"), 360);
    assert_eq!(parse_token("USDE"), 235);
    assert_eq!(parse_token("HYPE:0x1"), u32::MAX);
}

#[test]
fn blocks_behind_the_snapshot_are_replayed() {
    assert!(!in_replay_range(10, 10, 20));
    assert!(in_replay_range(11, 10, 20));
    assert!(in_replay_range(20, 10, 20));
    assert!(!in_replay_range(21, 10, 20));
    assert!(!in_block_range(9, 10, 20));
    assert!(in_block_range(10, 10, 20));
    assert!(in_block_range(19, 10, 20));
    assert!(!in_block_range(20, 10, 20));
    assert!(replica_file_counts(Some(1), 10_000, 20_000));
    assert!(!replica_file_counts(Some(0), 10_000, 20_000));
    assert!(!replica_file_counts(Some(20_001), 10_000, 20_000));
    assert!(replica_file_counts(None, 10_000, 20_000));
    assert_eq!(replica_line_block(Some(40), 2), 42);
    assert_eq!(extract_block_number("x \"block_number\":17,"), Some(17));
    assert_eq!(extract_block_number("\"block_number\":x"), None);
    assert_eq!(block_height_from_rmp("900"), Some(900));
    assert_eq!(block_height_from_rmp("latest"), None);
}

#[test]
fn events_come_by_block_and_kind() {
    let events = vec![
        (2, EventType::Fill),
        (1, EventType::Fill),
        (2, EventType::Replica),
        (1, EventType::Hip3Oracle),
        (1, EventType::MiscEvent),
    ];
    assert_eq!(replay_order(&events), vec![3, 4, 1, 2, 0]);
}

#[test]
fn replayed_events_are_counted() {
    let mut state = make_state(1);
    let mut totals = ReplayTotals::new();
    let fill = ReplayEvent::Fill {
        user: "0xa".to_string(),
        coin: "COIN0".to_string(),
        amounts: Some(first_buy()),
    };
    replay_event(&mut state, &mut totals, &fill);
    assert_eq!((totals.fills, totals.replica, totals.misc, totals.oracle), (1, 0, 0, 0));
    assert!(state.dex_states[0].users.contains_key("0xa"));
    let marks = ReplayEvent::Marks(vec![("COIN0".to_string(), Some(2.5f64.to_bits()))]);
    replay_event(&mut state, &mut totals, &marks);
    assert_eq!(f64::from_bits(*state.mark_prices.get(0).unwrap().get(0).unwrap()), 2.5);
}

#[test]
fn answers_give_leverage_by_coin() {
    let doc = r#"{"assetPositions":[
        {"position":{"coin":"BTC","leverage":{"type":"isolated","value":5}}},
        {"coin":"ETH","leverage":{}},
        {"position":{"coin":"","leverage":{"type":"cross","value":3}}},
        {"position":{"coin":"SOL"}}]}"#;
    let got = leverage_from_answer(doc);
    assert_eq!(got.len(), 2);
    assert_eq!(got.get("BTC"), Some(&ApiSetting { is_cross: false, value: 5 }));
    assert_eq!(got.get("ETH"), Some(&ApiSetting { is_cross: true, value: 20 }));
    assert_eq!(leverage_from_answer("[]").len(), 0);
    assert_eq!(api_setting(None, true, None, None), None);
}

#[test]
fn asked_settings_are_put_in_but_not_over_others() {
    let mut state = make_state(2);
    let mut known = partial(0);
    known.leverage_settings.insert(0, Leverage::Cross(2));
    state.dex_states[0].users_without_positions.insert("0xa".to_string(), known);
    let mut of_a: StrMap<ApiSetting> = StrMap::new();
    of_a.insert("COIN0".to_string(), ApiSetting { is_cross: true, value: 9 });
    of_a.insert("COIN1".to_string(), ApiSetting { is_cross: false, value: 4 });
    let mut answers: StrMap<StrMap<ApiSetting>> = StrMap::new();
    answers.insert("0xa".to_string(), of_a);
    let fixes = vec![
        ("0xa".to_string(), 0, 0),
        ("0xa".to_string(), 0, 1),
        ("0xa".to_string(), 0, 2),
        ("0xb".to_string(), 0, 1),
        ("0xa".to_string(), 7, 1),
    ];
    assert_eq!(inject_leverage(&fixes, &answers, &mut state), 2);
    let settings = &state.dex_states[0].users_without_positions.get("0xa").unwrap().leverage_settings;
    assert_eq!(settings.get(0), Some(&Leverage::Cross(2)));
    assert_eq!(settings.get(1), Some(&Leverage::Isolated { leverage: 4, raw_usd: 0 }));
}

fn info(coin: &str, liq: Option<&str>) -> PositionInfo {
    PositionInfo {
        coin: coin.to_string(),
        szi: "1".to_string(),
        leverage: LeverageInfo { lev_type: "cross".to_string(), value: 20, raw_usd: None },
        entry_px: "10".to_string(),
        liquidation_px: liq.map(String::from),
        position_value: "10".to_string(),
        unrealized_pnl: "0".to_string(),
        max_leverage: 40,
    }
}

fn reading(is_zero: bool, is_long: bool, liq_counts: bool) -> PositionReading {
    PositionReading {
        is_zero,
        is_long,
        liq_counts,
        sz: "1".to_string(),
        entry_px: "10".to_string(),
        liq_px: "8".to_string(),
    }
}

#[test]
fn positions_with_a_liquidation_price_are_listed() {
    let user = "0xa";
    assert!(liq_entry(user, &info("BTC", None), &reading(false, true, true)).is_none());
    assert!(liq_entry(user, &info("BTC", Some("8")), &reading(true, true, true)).is_none());
    assert!(liq_entry(user, &info("BTC", Some("0")), &reading(false, true, false)).is_none());
    let entries = vec![
        liq_entry(user, &info("ETH", Some("8")), &reading(false, true, true)).unwrap(),
        liq_entry(user, &info("BTC", Some("8")), &reading(false, false, true)).unwrap(),
        liq_entry("0xb", &info("ETH", Some("8")), &reading(false, false, true)).unwrap(),
    ];
    assert_eq!(liquidated_coins(&entries), vec!["BTC", "ETH"]);
    let map = build_l4_liquidation_map_from_entries(&entries, "ETH", 5);
    assert_eq!((map.coin.as_str(), map.time, map.positions.len()), ("ETH", 5, 2));
    assert_eq!(map.positions[0].side, "long");
    assert_eq!(map.positions[1].side, "short");
    assert_eq!(map.positions[0].leverage, "20");
}

#[test]
fn state_requests_name_the_dex_only_where_needed() {
    assert_eq!(state_request("0xa", ""), r#"{"type":"clearinghouseState","user":"0xa"}"#);
    assert_eq!(state_request("0xa", "xyz"), r#"{"dex":"xyz","type":"clearinghouseState","user":"0xa"}"#);
}

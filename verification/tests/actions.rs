use hl_orderbook::assetmap::AssetMap;
use hl_orderbook::clearing_house::misc_events::{
    apply_ledger_update, Amount, LedgerDelta, LedgerUpdateEvent, BRIDGE,
};
use hl_orderbook::clearing_house::replay::{funding_note, oracle_pairs, replica_log_targets};
use hl_orderbook::clearing_house::replica::{
    apply_replica_block, key_of_deposit, AbciBlock, Action, ActionBundle, ActionResp, ReplicaBlock, Resps,
    SetOracle, SignedAction,
};
use hl_orderbook::clearing_house::{
    AccountMode, AssetMeta, BorrowLendState, DexState, LiquidationState, MarginMode, UserState,
    UserStatePartial, VaultState,
};
use hl_orderbook::msgpack::Fraction;
use hl_orderbook::strmap::StrMap;
use std::collections::hash_map::DefaultHasher;
use std::collections::HashSet;
use std::hash::{Hash, Hasher};

fn dex(pdi: u32, coin: &str) -> DexState {
    DexState {
        pdi,
        universe: vec![AssetMeta {
            name: coin.to_string(),
            sz_decimals: 0,
            margin_table_id: 0,
            margin_mode: MarginMode::Normal,
        }],
        margin_tables: AssetMap::new(),
        oracle_prices: vec![0],
        users: StrMap::new(),
        collateral_token: 0,
        users_without_positions: StrMap::new(),
    }
}

fn partial(balance: i64, mode: AccountMode) -> UserStatePartial {
    UserStatePartial {
        usdc_balance: balance,
        spot_collateral: 0,
        spot_collateral_decimals: 8,
        account_mode: mode,
        leverage_settings: AssetMap::new(),
    }
}

fn state() -> LiquidationState {
    let mut coins: StrMap<(usize, usize)> = StrMap::new();
    coins.insert("BTC".to_string(), (0, 0));
    let mut names: StrMap<u32> = StrMap::new();
    names.insert("".to_string(), 0);
    names.insert("xyz".to_string(), 1);
    let mut s = LiquidationState {
        dex_states: vec![dex(0, "BTC"), dex(1, "xyz:GOLD")],
        coin_to_dex_asset: coins,
        processed_withdrawal_nonces: HashSet::new(),
        processed_vault_withdrawals: StrMap::new(),
        positions_needing_leverage_fix: Vec::new(),
        event_log: None,
        unified_balances: StrMap::new(),
        user_action_counts: StrMap::new(),
        borrow_lend_states: StrMap::new(),
        portfolio_margin_users: StrMap::new(),
        vault_states: StrMap::new(),
        mark_prices: AssetMap::new(),
        dex_name_to_pdi: names,
    };
    s.dex_states[0].users_without_positions.insert("0xa".to_string(), partial(100, AccountMode::Standard));
    s.dex_states[0].users_without_positions.insert("0xu".to_string(), partial(10, AccountMode::Unified));
    s
}

fn signed(action: Action) -> SignedAction {
    SignedAction { vault_address: None, action }
}

fn block(user: &str, actions: Vec<Action>) -> ReplicaBlock {
    let resps = actions.iter().map(|_| ActionResp { user: Some(user.to_string()), res: None }).collect();
    ReplicaBlock {
        abci_block: AbciBlock {
            time: None,
            signed_action_bundles: vec![(
                "0xh".to_string(),
                ActionBundle { signed_actions: actions.into_iter().map(signed).collect() },
            )],
        },
        resps: Some(Resps::Full(vec![("0xh".to_string(), resps)])),
    }
}

fn apply(s: &mut LiquidationState, user: &str, action: Action) -> Vec<String> {
    apply_replica_block(s, &block(user, vec![action])).ok().unwrap().sorted_keys()
}

fn balance(s: &LiquidationState, dex: usize, user: &str) -> Option<i64> {
    s.dex_states[dex].users_without_positions.get(user).map(|p| p.usdc_balance)
}

fn shared(s: &LiquidationState, user: &str, token: u32) -> i64 {
    s.unified_balance_get(user, token)
}

#[test]
fn dollars_are_sent() {
    let mut s = state();
    let touched = apply(&mut s, "0xA", Action::UsdSend { destination: "0xB".to_string(), micro: 30 });
    assert_eq!(touched, vec!["0xa", "0xb"]);
    assert_eq!((balance(&s, 0, "0xa"), balance(&s, 0, "0xb")), (Some(70), Some(30)));
    assert_eq!(s.user_action_counts.get("0xb"), Some(&1));
}

#[test]
fn dollars_move_between_spot_and_perps() {
    let mut s = state();
    apply(&mut s, "0xu", Action::UsdClassTransfer { micro: 3, wei: 300, to_perp: true });
    assert_eq!((balance(&s, 0, "0xu"), shared(&s, "0xu", 0)), (Some(13), -300));
    apply(&mut s, "0xu", Action::UsdClassTransfer { micro: 3, wei: 300, to_perp: false });
    assert_eq!((balance(&s, 0, "0xu"), shared(&s, "0xu", 0)), (Some(10), 0));
}

#[test]
fn sub_accounts_are_filled_and_emptied() {
    let mut s = state();
    let to = |is_deposit: bool| Action::SubAccountTransfer {
        sub_account_user: "0xSub".to_string(),
        is_deposit,
        usd: 40,
    };
    apply(&mut s, "0xa", to(true));
    assert_eq!((balance(&s, 0, "0xa"), balance(&s, 0, "0xsub")), (Some(60), Some(40)));
    apply(&mut s, "0xa", to(false));
    assert_eq!((balance(&s, 0, "0xa"), balance(&s, 0, "0xsub")), (Some(100), Some(0)));
}

#[test]
fn withdrawals_leave_the_main_dex() {
    let mut s = state();
    apply(&mut s, "0xa", Action::Withdraw3 { micro: 25 });
    assert_eq!(balance(&s, 0, "0xa"), Some(75));
}

#[test]
fn deposits_count_once() {
    let mut s = state();
    let vote = |id: &str| Action::VoteEthDepositAction {
        user: "0xA".to_string(),
        usd: 5,
        eth_id: id.to_string(),
    };
    apply(&mut s, "0xval", vote("[\"0x1\",0]"));
    apply(&mut s, "0xother", vote("[\"0x1\",0]"));
    assert_eq!(balance(&s, 0, "0xa"), Some(105));
    // Other actions and ledger events do not make it forgotten, and no action is counted.
    apply(&mut s, "0xa", Action::Withdraw3 { micro: 5 });
    apply_ledger_update(&mut s, &ledger(&["0xA"], LedgerDelta::RewardsClaim { micro: 5 }));
    let counted = s.user_action_counts.get("0xa").copied();
    assert!(apply(&mut s, "0xthird", vote("[\"0x1\",0]")).is_empty());
    assert_eq!((balance(&s, 0, "0xa"), s.user_action_counts.get("0xa").copied()), (Some(105), counted));
    apply(&mut s, "0xval", vote("[\"0x1\",1]"));
    assert_eq!(balance(&s, 0, "0xa"), Some(110));
    let mut h = DefaultHasher::new();
    "[\"0x1\",0]".to_string().hash(&mut h);
    assert_eq!(key_of_deposit("[\"0x1\",0]"), h.finish() as i64);
    assert!(s.processed_withdrawal_nonces.contains(&key_of_deposit("[\"0x1\",1]")));
}

#[test]
fn spot_balances_of_users_who_share_them_change() {
    let mut s = state();
    apply(
        &mut s,
        "0xa",
        Action::SpotSend { destination: "0xU".to_string(), token: "USDC:0x1".to_string(), wei: 700 },
    );
    assert_eq!(shared(&s, "0xu", 0), 700);
    assert_eq!(shared(&s, "0xa", 0), 0);
    apply(&mut s, "0xu", Action::BorrowLend { operation: "supply".to_string(), token: 0, wei: Some(200) });
    assert_eq!(shared(&s, "0xu", 0), 500);
    apply(&mut s, "0xu", Action::BorrowLend { operation: "borrow".to_string(), token: 0, wei: Some(1) });
    apply(&mut s, "0xu", Action::BorrowLend { operation: "borrow".to_string(), token: 0, wei: None });
    assert_eq!(shared(&s, "0xu", 0), 501);
    // The token that is staked is nobody's collateral here.
    apply(&mut s, "0xu", Action::CDeposit { wei: 9 });
    assert_eq!(shared(&s, "0xu", 150), 0);
}

fn send(destination: &str, source_dex: Option<&str>, destination_dex: Option<&str>) -> Action {
    Action::SendAsset {
        destination: destination.to_string(),
        token: "USDC:0x1".to_string(),
        micro: 7,
        wei: 700,
        source_dex: source_dex.map(String::from),
        destination_dex: destination_dex.map(String::from),
        from_sub_account: None,
    }
}

#[test]
fn assets_are_sent_between_dexes() {
    let mut s = state();
    apply(&mut s, "0xa", send("0xB", Some(""), Some("xyz")));
    assert_eq!((balance(&s, 0, "0xa"), balance(&s, 1, "0xb")), (Some(93), Some(7)));
    // What reaches a user who shares balances is spot.
    apply(&mut s, "0xa", send("0xU", Some(""), Some("xyz")));
    assert_eq!((balance(&s, 0, "0xa"), shared(&s, "0xu", 0)), (Some(86), 700));
    // Without dexes it is spot on both sides.
    apply(&mut s, "0xu", send("0xA", None, None));
    assert_eq!((balance(&s, 0, "0xa"), shared(&s, "0xu", 0)), (Some(86), 0));
}

#[test]
fn vault_transfers_without_an_amount_are_left_to_the_ledger() {
    let mut s = state();
    let to = |is_deposit: bool, usd: i64| Action::VaultTransfer {
        vault_address: "0xV".to_string(),
        is_deposit,
        usd,
    };
    apply(&mut s, "0xa", to(true, 60));
    assert_eq!((balance(&s, 0, "0xa"), balance(&s, 0, "0xv")), (Some(40), Some(60)));
    assert_eq!(apply(&mut s, "0xa", to(false, 0)), vec!["0xa", "0xv"]);
    assert_eq!(balance(&s, 0, "0xv"), Some(60));
    let withdraw = LedgerUpdateEvent {
        users: vec!["0xa".to_string()],
        delta: LedgerDelta::VaultWithdraw {
            user: Some("0xA".to_string()),
            vault: Some("0xV".to_string()),
            net_micro: Some(20),
        },
    };
    assert!(apply_ledger_update(&mut s, &withdraw));
    assert_eq!((balance(&s, 0, "0xa"), balance(&s, 0, "0xv")), (Some(60), Some(40)));
    // One with an amount is not counted again.
    apply(&mut s, "0xa", to(false, 40));
    assert_eq!((balance(&s, 0, "0xa"), balance(&s, 0, "0xv")), (Some(100), Some(0)));
    assert!(!apply_ledger_update(&mut s, &withdraw));
}

#[test]
fn account_modes_are_set() {
    let mut s = state();
    let mode = |s: &LiquidationState| s.dex_states[0].users_without_positions.get("0xa").unwrap().account_mode;
    apply(&mut s, "0xa", Action::AgentEnableDexAbstraction);
    assert_eq!(mode(&s), AccountMode::DexAbstraction);
    apply(&mut s, "0xx", Action::UserSetAbstraction { user: "0xA".to_string(), abstraction: "u".to_string() });
    assert_eq!(mode(&s), AccountMode::Unified);
    apply(&mut s, "0xa", Action::AgentSetAbstraction { abstraction: "p".to_string() });
    assert_eq!(mode(&s), AccountMode::PortfolioMargin);
    apply(&mut s, "0xa", Action::UserDexAbstraction { abstraction: Some("x".to_string()) });
    assert_eq!(mode(&s), AccountMode::Standard);
    apply(&mut s, "0xa", Action::UserDexAbstraction { abstraction: None });
    assert_eq!(mode(&s), AccountMode::DexAbstraction);
}

#[test]
fn mark_prices_are_set() {
    let mut s = state();
    let bits = |px: f64| px.to_bits();
    apply(&mut s, "0xval", Action::SetGlobalAction { pxs: vec![None, Some(bits(2.5))] });
    assert_eq!(s.mark_prices.get(0).unwrap().get(1), Some(&bits(2.5)));
    assert!(s.mark_prices.get(0).unwrap().get(0).is_none());
    let oracle = SetOracle {
        dex: "xyz".to_string(),
        prices: vec![("xyz:GOLD".to_string(), bits(9.0)), ("xyz:NONE".to_string(), bits(1.0))],
    };
    apply(&mut s, "0xdep", Action::PerpDeploy { set_oracle: Some(oracle) });
    assert_eq!(s.mark_prices.get(1).unwrap().get(0), Some(&bits(9.0)));
}

#[test]
fn votes_on_withdrawals_change_nothing() {
    let mut s = state();
    let vote = Action::VoteEthFinalizedWithdrawalAction { user: "0xA".to_string(), usd: 5, nonce: 1 };
    assert!(vote.is_ignored());
    assert!(apply(&mut s, "0xa", vote).is_empty());
    assert_eq!(balance(&s, 0, "0xa"), Some(100));
    assert!(Action::Order.is_ignored() && Action::Unknown.is_ignored());
    assert!(!Action::CDeposit { wei: 1 }.is_ignored());
}

#[test]
fn actions_for_vaults_are_logged() {
    let mut b = block("0xa", vec![Action::Order, Action::CDeposit { wei: 1 }, Action::CWithdraw { wei: 1 }]);
    let actions = &mut b.abci_block.signed_action_bundles[0].1.signed_actions;
    actions[0].vault_address = Some("0xV".to_string());
    actions[2].vault_address = Some("0xV".to_string());
    assert_eq!(replica_log_targets(&b), vec![(0, 2, "0xv".to_string())]);
}

fn ledger(users: &[&str], delta: LedgerDelta) -> LedgerUpdateEvent {
    LedgerUpdateEvent { users: users.iter().map(|u| u.to_string()).collect(), delta }
}

#[test]
fn ledger_changes_are_applied() {
    let mut s = state();
    assert!(apply_ledger_update(&mut s, &ledger(&["0xA"], LedgerDelta::RewardsClaim { micro: 5 })));
    assert_eq!(balance(&s, 0, "0xa"), Some(105));
    assert!(apply_ledger_update(&mut s, &ledger(&["0xa"], LedgerDelta::DeployGasAuction { micro: 5 })));
    assert!(apply_ledger_update(&mut s, &ledger(&["0xa"], LedgerDelta::AccountActivationGas { micro: 1 })));
    assert_eq!(balance(&s, 0, "0xa"), Some(99));
    let vault = || "0xV".to_string();
    assert!(apply_ledger_update(
        &mut s,
        &ledger(&["0xa"], LedgerDelta::VaultLeaderCommission { vault: vault(), micro: 4 })
    ));
    assert_eq!((balance(&s, 0, "0xa"), balance(&s, 0, "0xv")), (Some(103), Some(-4)));
    assert!(apply_ledger_update(
        &mut s,
        &ledger(&["0xa"], LedgerDelta::VaultDistribution { vault: vault(), micro: 6 })
    ));
    assert_eq!((balance(&s, 0, "0xa"), balance(&s, 0, "0xv")), (Some(103), Some(-10)));
    let class = |amount: Option<Amount>| LedgerDelta::AccountClassTransfer { to_perp: Some(true), amount };
    let amount = Some(Amount { micro: 2, wei: 200 });
    assert!(apply_ledger_update(&mut s, &ledger(&["0xU"], class(amount))));
    assert_eq!((balance(&s, 0, "0xu"), shared(&s, "0xu", 0)), (Some(12), -200));
    assert!(!apply_ledger_update(&mut s, &ledger(&["0xu"], class(None))));
    assert!(!apply_ledger_update(&mut s, &ledger(&[], class(amount))));
    assert!(!apply_ledger_update(&mut s, &ledger(&["0xu"], LedgerDelta::Deposit)));
}

#[test]
fn deposits_through_the_bridge_are_applied() {
    let mut s = state();
    let from = |user: &str, dex: Option<&str>, token: &str| LedgerDelta::Send {
        user: Some(user.to_string()),
        destination: Some("0xU".to_string()),
        destination_dex: dex.map(String::from),
        token: Some(token.to_string()),
        amount: Some(Amount { micro: 3, wei: 300 }),
    };
    assert!(!apply_ledger_update(&mut s, &ledger(&[], from("0xa", Some(""), "USDC"))));
    assert!(apply_ledger_update(&mut s, &ledger(&[], from(BRIDGE, None, "OTHER"))));
    assert_eq!(shared(&s, "0xu", 0), 300);
    assert!(apply_ledger_update(&mut s, &ledger(&[], from(BRIDGE, Some(""), "USDC"))));
    assert_eq!((balance(&s, 0, "0xu"), shared(&s, "0xu", 0)), (Some(10), 600));
}

#[test]
fn transfers_of_the_system_are_applied() {
    let system = "0x2000000000000000000000000000000000000001";
    let mut s = state();
    let spot = |from: &str, to: &str, token: &str| LedgerDelta::SpotTransfer {
        user: Some(from.to_string()),
        destination: Some(to.to_string()),
        token: Some(token.to_string()),
        amount: Some(Amount { micro: 4, wei: 400 }),
    };
    assert!(!apply_ledger_update(&mut s, &ledger(&[], spot("0xa", "0xu", "USDC"))));
    assert!(apply_ledger_update(&mut s, &ledger(&[], spot(system, "0xU", "USDC"))));
    assert_eq!(shared(&s, "0xu", 0), 400);
    assert!(apply_ledger_update(&mut s, &ledger(&[], spot("0xU", system, "USDC"))));
    assert_eq!(shared(&s, "0xu", 0), 0);
    assert!(!apply_ledger_update(&mut s, &ledger(&[], spot(system, "0xU", "PURR"))));
}

#[test]
fn shared_balances_have_two_more_decimals() {
    let mut s = state();
    assert_eq!(s.unified_balance_add("0xU", 0, 5), 500);
    assert_eq!(s.unified_balance_add("0xu", 0, -2), 300);
    assert_eq!(s.unified_balance_get("0xU", 0), 300);
    assert_eq!(s.unified_balance_get("0xu", 360), 0);
}

fn full(balance: i64) -> UserState {
    UserState {
        usdc_balance: balance,
        spot_collateral: 0,
        spot_collateral_decimals: 8,
        account_mode: AccountMode::PortfolioMargin,
        positions: AssetMap::new(),
        leverage_settings: AssetMap::new(),
    }
}

#[test]
fn debts_are_paid_and_made() {
    let mut s = state();
    s.dex_states[0].users.insert("0xp".to_string(), full(50));
    // Somebody who is not in the mode is left alone.
    s.pm_auto_borrow_repay("0xP", 0, 10);
    assert_eq!(s.dex_states[0].users.get("0xp").unwrap().usdc_balance, 50);
    s.portfolio_margin_users.insert("0xp".to_string(), ());
    let mut owed: AssetMap<BorrowLendState> = AssetMap::new();
    owed.insert(0, BorrowLendState { borrowed: 3_000, borrow_shares: 0, supplied: 0, supply_shares: 0 });
    s.borrow_lend_states.insert("0xp".to_string(), owed);
    s.pm_auto_borrow_repay("0xP", 0, 10);
    let debt = |s: &LiquidationState| s.borrow_lend_states.get("0xp").unwrap().get(0).unwrap().borrowed;
    assert_eq!((s.dex_states[0].users.get("0xp").unwrap().usdc_balance, debt(&s)), (40, 2_000));
    s.dex_states[0].users.get_mut("0xp").unwrap().usdc_balance = -5;
    s.pm_auto_borrow_repay("0xp", 0, -20);
    assert_eq!((s.dex_states[0].users.get("0xp").unwrap().usdc_balance, debt(&s)), (0, 2_500));
}

#[test]
fn shares_of_vaults_are_found() {
    let mut s = state();
    s.dex_states[0].users.insert("0xv".to_string(), full(70));
    s.dex_states[1].users.insert("0xv".to_string(), full(30));
    let mut owners: StrMap<Fraction> = StrMap::new();
    owners.insert("0xa".to_string(), Fraction::Double(0.25f64.to_bits()));
    s.vault_states.insert("0xv".to_string(), VaultState { user_ownership: owners });
    assert_eq!(s.vault_share("0xV", "0xA"), Some((100, Fraction::Double(0.25f64.to_bits()))));
    assert_eq!(s.vault_share("0xv", "0xb"), None);
    assert_eq!(s.vault_share("0xa", "0xa"), None);
}

#[test]
fn oracle_updates_name_coins_and_prices() {
    let line = r#"{"block_number":1,"events":[{"oracle_pxs":{"coin_to_mark_px":[["xyz:A",{"px":"1.5"}],["xyz:B"],[7,{}]]}},{"x":1}]}"#;
    assert_eq!(
        oracle_pairs(line),
        vec![("xyz:A".to_string(), "1.5".to_string()), ("".to_string(), "0".to_string())]
    );
    assert!(oracle_pairs("no json").is_empty());
    assert_eq!(funding_note("BTC", "-0.5"), "funding coin=BTC amt=-0.5");
}

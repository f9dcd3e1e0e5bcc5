use hl_orderbook::assetmap::AssetMap;
use hl_orderbook::clearing_house::fill::FillAmounts;
use hl_orderbook::clearing_house::{
    AccountMode, AssetMeta, DexState, Leverage, LiquidationState, MarginMode, Position, UserState,
};
use hl_orderbook::strmap::StrMap;
use std::collections::HashSet;

const USD: i64 = 1_000_000;

fn dex(pdi: u32, coin: &str) -> DexState {
    DexState {
        pdi,
        universe: vec![AssetMeta {
            name: coin.to_string(),
            sz_decimals: 0,
            margin_table_id: 40,
            margin_mode: MarginMode::Normal,
        }],
        margin_tables: AssetMap::new(),
        oracle_prices: vec![0],
        users: StrMap::new(),
        collateral_token: 0,
        users_without_positions: StrMap::new(),
    }
}

fn state() -> LiquidationState {
    let mut coins: StrMap<(usize, usize)> = StrMap::new();
    coins.insert("BTC".to_string(), (0, 0));
    coins.insert("xyz:GOLD".to_string(), (1, 0));
    LiquidationState {
        dex_states: vec![dex(0, "BTC"), dex(1, "xyz:GOLD")],
        coin_to_dex_asset: coins,
        processed_withdrawal_nonces: HashSet::new(),
        processed_vault_withdrawals: StrMap::new(),
        positions_needing_leverage_fix: Vec::new(),
        event_log: None,
        unified_balances: StrMap::new(),
        user_action_counts: StrMap::new(),
        borrow_lend_states: StrMap::new(),
        portfolio_margin_users: StrMap::new(),
        vault_states: StrMap::new(),
        mark_prices: AssetMap::new(),
        dex_name_to_pdi: StrMap::new(),
    }
}

fn user(balance: i64, setting: Option<Leverage>) -> UserState {
    let mut settings: AssetMap<Leverage> = AssetMap::new();
    if let Some(l) = setting {
        settings.insert(0, l);
    }
    UserState {
        usdc_balance: balance,
        spot_collateral: 0,
        spot_collateral_decimals: 8,
        account_mode: AccountMode::Standard,
        positions: AssetMap::new(),
        leverage_settings: settings,
    }
}

const TENFOLD: Leverage = Leverage::Isolated { leverage: 10, raw_usd: 0 };

/// Trades a size at a price, from a position of a size.
fn trade(state: &mut LiquidationState, coin: &str, is_buy: bool, start: f64, size: f64, price: f64, fee: f64) {
    let end = if is_buy { start + size } else { start - size };
    let sign = if is_buy { -1.0 } else { 1.0 };
    let part = |p: f64| (sign * p * price * 1e6 - fee * 1e6 * (p / size)).round() as i64;
    let (basis, raw) = state.fill_basis("0xA", coin, start as i64);
    let old = start.abs();
    let amounts = FillAmounts {
        is_buy,
        start_szi: start as i64,
        new_szi: end as i64,
        had_size: old > 0.0,
        delta_u: (sign * size * price * 1e6 - fee * 1e6).round() as i64,
        notional: (size * price * 1e6).round() as i64,
        oracle_px: (price * 1e6).round() as i64,
        close_delta: part(old),
        open_delta: part(size - old),
        open_notional: ((size - old) * price * 1e6).round() as i64,
        open_cost_basis: (end.abs() * price * 1e6).round() as i64,
        reduced_cost_basis: if old > 0.0 { (basis as f64 * (old - size).max(0.0) / old).round() as i64 } else { 0 },
        released_raw_usd: if old > 0.0 { (raw as f64 * (size / old)).round() as i64 } else { 0 },
    };
    assert_eq!(state.apply_fill("0xA", coin, Some(amounts)), Some(coin.to_string()));
}

fn isolated_long() -> LiquidationState {
    let mut s = state();
    s.dex_states[0].users.insert("0xa".to_string(), user(1_000 * USD, Some(TENFOLD)));
    trade(&mut s, "BTC", true, 0.0, 2.0, 100.0, 1.0);
    s
}

fn standing(s: &LiquidationState) -> (i64, Option<Position>) {
    let u = s.dex_states[0].users.get("0xa").unwrap();
    (u.usdc_balance, u.positions.get(0).copied())
}

fn isolated(szi: i64, cost_basis: i64, raw_usd: i64) -> Option<Position> {
    Some(Position {
        szi,
        cost_basis,
        leverage: Leverage::Isolated { leverage: 10, raw_usd },
        margin_table_id: 40,
        outstanding_funding: 0,
    })
}

#[test]
fn isolated_positions_take_their_margin_along() {
    let s = isolated_long();
    assert_eq!(standing(&s), (980 * USD, isolated(2, 200 * USD, -181 * USD)));
    assert_eq!(s.dex_states[0].oracle_prices, vec![100 * USD]);
    assert_eq!(s.user_action_counts.get("0xa"), Some(&1));
    assert!(s.positions_needing_leverage_fix.is_empty());
}

#[test]
fn isolated_positions_grow_and_shrink() {
    let mut s = isolated_long();
    trade(&mut s, "BTC", true, 2.0, 1.0, 110.0, 0.0);
    assert_eq!(standing(&s), (969 * USD, isolated(3, 310 * USD, -280 * USD)));
    trade(&mut s, "BTC", false, 3.0, 1.0, 120.0, 0.0);
    assert_eq!(standing(&s), (995_666_667, isolated(2, 206_666_667, -186_666_667)));
    trade(&mut s, "BTC", false, 2.0, 2.0, 100.0, 0.0);
    assert_eq!(standing(&s), (1_009 * USD, None));
    assert_eq!(s.dex_states[0].users.get("0xa").unwrap().leverage_settings.get(0), Some(&TENFOLD));
}

#[test]
fn isolated_positions_turn_over() {
    let mut s = isolated_long();
    trade(&mut s, "BTC", false, 2.0, 5.0, 90.0, 5.0);
    assert_eq!(standing(&s), (950 * USD, isolated(-3, 270 * USD, 294 * USD)));
}

#[test]
fn positions_that_were_closed_outside_give_their_margin_back() {
    let mut s = isolated_long();
    trade(&mut s, "BTC", true, 0.0, 1.0, 100.0, 0.0);
    // 980 less the 181 that the old position owed, less the margin of ten for the new one.
    assert_eq!(standing(&s), (789 * USD, isolated(1, 100 * USD, -90 * USD)));
}

#[test]
fn cross_positions_are_paid_from_the_balance() {
    let mut s = state();
    trade(&mut s, "BTC", true, 0.0, 2.0, 100.0, 1.0);
    let (balance, position) = standing(&s);
    assert_eq!(balance, -201 * USD);
    // The most leverage is that of the margin table's number, but no more than twenty.
    assert_eq!(position.unwrap().leverage, Leverage::Cross(20));
    assert_eq!(s.positions_needing_leverage_fix, vec![("0xa".to_string(), 0, 0)]);
    trade(&mut s, "BTC", false, 2.0, 1.0, 100.0, 0.0);
    assert_eq!(standing(&s).0, -101 * USD);
    assert_eq!(standing(&s).1.unwrap().cost_basis, 100 * USD);
    trade(&mut s, "BTC", false, 1.0, 1.0, 100.0, 0.0);
    assert_eq!(standing(&s), (-USD, None));
}

#[test]
fn margin_that_a_dex_lacks_comes_from_the_main_one() {
    let mut s = state();
    s.dex_states[0].users.insert("0xa".to_string(), user(100 * USD, None));
    s.dex_states[1].users.insert("0xa".to_string(), user(5 * USD, Some(TENFOLD)));
    trade(&mut s, "xyz:GOLD", true, 0.0, 2.0, 100.0, 0.0);
    assert_eq!(s.dex_states[1].users.get("0xa").unwrap().usdc_balance, 0);
    assert_eq!(s.dex_states[0].users.get("0xa").unwrap().usdc_balance, 85 * USD);
}

#[test]
fn users_who_share_balances_pay_what_they_have() {
    let mut s = state();
    let mut u = user(5 * USD, Some(TENFOLD));
    u.account_mode = AccountMode::Unified;
    s.dex_states[0].users.insert("0xa".to_string(), u);
    trade(&mut s, "BTC", true, 0.0, 2.0, 100.0, 0.0);
    assert_eq!(standing(&s), (0, isolated(2, 200 * USD, -180 * USD)));
}

#[test]
fn fills_are_reckoned_with_the_decimals_of_the_coin() {
    let mut s = state();
    s.dex_states[0].universe[0].sz_decimals = 5;
    assert_eq!(s.fill_decimals("BTC"), Some(5));
    assert_eq!(s.fill_decimals("NONE"), None);
    assert_eq!(s.fill_basis("0xa", "NONE", 0), (0, 0));
    let s = isolated_long();
    assert_eq!(s.fill_basis("0xA", "BTC", 2), (200 * USD, -181 * USD));
    assert_eq!(s.fill_basis("0xA", "BTC", 0), (0, 0));
}

#[test]
fn events_are_logged_only_where_asked_for() {
    let mut s = state();
    s.log_event("0xA", 5, "lost".to_string());
    assert!(s.event_log.is_none());
    s.enable_event_log();
    s.log_event("0xA", 6, "kept".to_string());
    s.log_event("0xa", 7, "too".to_string());
    let log = s.event_log.as_ref().unwrap();
    assert_eq!(log.get("0xa").unwrap(), &vec![(6, "kept".to_string()), (7, "too".to_string())]);
}

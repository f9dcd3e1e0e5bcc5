//! The clearing-house state: dexes, their users and positions, and the balances around them.
use crate::assetmap::AssetMap;
pub use crate::msgpack::Fraction;
use crate::strmap::StrMap;
use std::collections::HashSet;
use vstd::prelude::*;

pub mod action_laws;
pub mod api_leverage;
pub mod compare;
pub mod compare_laws;
pub mod deposits;
pub mod event_laws;
pub mod fill;
pub mod fill_laws;
pub mod funding;
pub mod laws;
pub mod liquidation_map;
pub mod loaded_laws;
pub mod misc_events;
pub mod misc_report;
pub mod notes;
pub mod replay;
pub mod replay_laws;
pub mod replica;
pub mod report_laws;
pub mod rmp_streaming;
pub mod snapshot_laws;
pub mod snapshot_list_laws;
pub mod snapshot_money_laws;
pub mod snapshot_referral_laws;
pub mod snapshot_root_laws;
pub mod state;
pub mod transfer_laws;

verus! {

#[derive(Debug, Clone, Copy, PartialEq, Eq, Structural)]
pub enum AccountMode {
    /// Separate perp and spot balances, separate DEX balances.
    Standard,
    /// Single balance per asset, shared across all dexes via scl.
    Unified,
    /// USDC defaults to perps, other collateral to spot. Cross-dex USDC sharing.
    DexAbstraction,
    /// Like standard but with auto-borrowing against collateral.
    PortfolioMargin,
}

impl AccountMode {
    /// Whether this mode shares USDC across dexes (for balance comparison).
    pub open spec fn shared(self) -> bool {
        self is Unified || self is DexAbstraction
    }

    /// Whether this mode shares USDC across dexes (for balance comparison).
    pub fn is_shared_usdc(&self) -> (r: bool)
        ensures
            r == self.shared(),
    {
        match self {
            AccountMode::Unified => true,
            AccountMode::DexAbstraction => true,
            _ => false,
        }
    }
}

#[derive(Debug, Clone, Copy, PartialEq, Eq, Structural)]
pub enum MarginMode {
    /// Cross and Isolated both allowed, default is Cross.
    Normal,
    /// Only Isolated allowed (no cross margin).
    NoCross,
    /// Only Isolated, margin cannot be removed.
    StrictIsolated,
}

#[derive(Debug, Clone)]
pub struct AssetMeta {
    pub name: String,
    pub sz_decimals: u32,
    pub margin_table_id: u32,
    pub margin_mode: MarginMode,
}

#[derive(Debug, Clone, Copy, PartialEq, Eq, Structural)]
pub struct MarginTier {
    pub lower_bound: i64,
    pub max_leverage: u32,
    pub maintenance_deduction: i64,
}

#[derive(Debug, Clone, Copy, PartialEq, Eq, Structural)]
pub enum Leverage {
    Cross(u32),
    Isolated { leverage: u32, raw_usd: i64 },
}

#[derive(Debug, Clone, Copy, PartialEq, Eq, Structural)]
pub struct Position {
    pub szi: i64,
    pub cost_basis: i64,
    pub leverage: Leverage,
    pub margin_table_id: u32,
    /// Outstanding funding not yet settled into usdc_balance.
    /// Settles hourly when funding distributes.
    pub outstanding_funding: i64,
}

pub struct UserState {
    pub usdc_balance: i64,
    pub spot_collateral: i64,
    pub spot_collateral_decimals: u32,
    pub account_mode: AccountMode,
    pub positions: AssetMap<Position>,
    /// Leverage settings per asset, persisted even when positions are closed.
    /// When a fill opens a new position, this is used instead of a default.
    pub leverage_settings: AssetMap<Leverage>,
}

pub struct DexState {
    pub pdi: u32,
    pub universe: Vec<AssetMeta>,
    pub margin_tables: AssetMap<Vec<MarginTier>>,
    pub oracle_prices: Vec<i64>,
    pub users: StrMap<UserState>,
    pub collateral_token: u32,
    /// Partial state for users without positions at snapshot time.
    /// When a fill or replica action touches such a user, their state is
    /// initialized from here instead of defaults.
    pub users_without_positions: StrMap<UserStatePartial>,
}

pub struct UserStatePartial {
    pub usdc_balance: i64,
    pub spot_collateral: i64,
    pub spot_collateral_decimals: u32,
    pub account_mode: AccountMode,
    pub leverage_settings: AssetMap<Leverage>,
}

pub struct LiquidationState {
    pub dex_states: Vec<DexState>,
    /// Coin name → (position of its dex, position in that dex's universe).
    pub coin_to_dex_asset: StrMap<(usize, usize)>,
    /// Track processed withdrawal nonces to avoid double-counting
    /// (multiple validators vote on the same withdrawal).
    pub processed_withdrawal_nonces: HashSet<i64>,
    /// Vault → users whose withdrawal was already applied with its exact amount.
    pub processed_vault_withdrawals: StrMap<StrMap<()>>,
    /// Users who opened positions with default leverage (no snapshot data).
    /// List of (user_addr, dex_idx, asset_idx) that need a leverage fix from outside.
    pub positions_needing_leverage_fix: Vec<(String, usize, u32)>,
    /// Per-user event log for tracing: user_addr → list of (block_number, event_description).
    pub event_log: Option<StrMap<Vec<(u64, String)>>>,
    /// Shared unified balance per user and collateral token.
    /// For unified mode users, spot_collateral is shared across all dexes
    /// with the same collateral token. All mutations go through this map.
    /// Stored in 8-decimal (weiDecimals) units.
    pub unified_balances: StrMap<AssetMap<i64>>,
    /// Per-user action counter: fills + replica actions applied.
    pub user_action_counts: StrMap<u32>,
    /// Per-user borrow/supply state, by user and token.
    /// Amounts in 8-decimal (weiDecimals) units.
    pub borrow_lend_states: StrMap<AssetMap<BorrowLendState>>,
    /// Users in portfolio margin mode ("a"="p").
    pub portfolio_margin_users: StrMap<()>,
    /// Vault state: vault_addr → per-user ownership fractions.
    pub vault_states: StrMap<VaultState>,
    /// Mark prices by dex position and asset: the bits of the price in USD.
    pub mark_prices: AssetMap<AssetMap<u64>>,
    /// Dex name → pdi mapping (e.g. "xyz" → 1, "cash" → 7).
    /// Populated from coin name prefixes in the snapshot.
    pub dex_name_to_pdi: StrMap<u32>,
}

/// Per-vault ownership data.
pub struct VaultState {
    /// Map of user_addr → ownership fraction (0.0 to 1.0).
    pub user_ownership: StrMap<Fraction>,
}

#[derive(Debug, Clone, Copy, PartialEq, Eq, Structural)]
pub struct BorrowLendState {
    pub borrowed: i64,
    pub borrow_shares: i64,
    pub supplied: i64,
    pub supply_shares: i64,
}

impl Default for BorrowLendState {
    fn default() -> (r: Self)
        ensures
            r == BorrowLendState::none(),
    {
        BorrowLendState { borrowed: 0, borrow_shares: 0, supplied: 0, supply_shares: 0 }
    }
}

impl BorrowLendState {
    /// Nothing borrowed and nothing supplied.
    pub open spec fn none() -> BorrowLendState {
        BorrowLendState { borrowed: 0, borrow_shares: 0, supplied: 0, supply_shares: 0 }
    }
}

// ── What the state is, mathematically ────────────────────────────────────

/// What a user state holds.
#[verifier::ext_equal]
pub struct UserModel {
    pub usdc_balance: i64,
    pub spot_collateral: i64,
    pub spot_collateral_decimals: u32,
    pub account_mode: AccountMode,
    pub positions: Map<u32, Position>,
    pub leverage_settings: Map<u32, Leverage>,
}

/// What the state of a user without positions holds.
#[verifier::ext_equal]
pub struct PartialModel {
    pub usdc_balance: i64,
    pub spot_collateral: i64,
    pub spot_collateral_decimals: u32,
    pub account_mode: AccountMode,
    pub leverage_settings: Map<u32, Leverage>,
}

/// What the description of an asset holds.
#[verifier::ext_equal]
pub struct AssetModel {
    pub name: Seq<char>,
    pub sz_decimals: u32,
    pub margin_table_id: u32,
    pub margin_mode: MarginMode,
}

/// What the state of a dex holds.
#[verifier::ext_equal]
pub struct DexModel {
    pub pdi: u32,
    pub universe: Seq<AssetModel>,
    pub margin_tables: Map<u32, Seq<MarginTier>>,
    pub oracle_prices: Seq<i64>,
    pub users: Map<Seq<char>, UserModel>,
    pub collateral_token: u32,
    pub partials: Map<Seq<char>, PartialModel>,
}

/// What the whole state holds.
#[verifier::ext_equal]
pub struct StateModel {
    pub dexes: Seq<DexModel>,
    pub coins: Map<Seq<char>, (usize, usize)>,
    pub nonces: Set<i64>,
    pub vault_withdrawals: Map<Seq<char>, Map<Seq<char>, ()>>,
    pub leverage_fixes: Seq<(Seq<char>, usize, u32)>,
    pub event_log: Option<Map<Seq<char>, Seq<(u64, String)>>>,
    pub unified: Map<Seq<char>, Map<u32, i64>>,
    pub action_counts: Map<Seq<char>, u32>,
    pub borrows: Map<Seq<char>, Map<u32, BorrowLendState>>,
    pub portfolio_margin: Map<Seq<char>, ()>,
    pub vaults: Map<Seq<char>, Map<Seq<char>, Fraction>>,
    pub marks: Map<u32, Map<u32, u64>>,
    pub dex_names: Map<Seq<char>, u32>,
}

impl View for Position {
    type V = Position;

    open spec fn view(&self) -> Position {
        *self
    }
}

impl View for MarginTier {
    type V = MarginTier;

    open spec fn view(&self) -> MarginTier {
        *self
    }
}

impl View for AccountMode {
    type V = AccountMode;

    open spec fn view(&self) -> AccountMode {
        *self
    }
}

impl View for Leverage {
    type V = Leverage;

    open spec fn view(&self) -> Leverage {
        *self
    }
}

impl View for BorrowLendState {
    type V = BorrowLendState;

    open spec fn view(&self) -> BorrowLendState {
        *self
    }
}

impl View for VaultState {
    type V = Map<Seq<char>, Fraction>;

    open spec fn view(&self) -> Map<Seq<char>, Fraction> {
        self.user_ownership@
    }
}

impl View for AssetMeta {
    type V = AssetModel;

    open spec fn view(&self) -> AssetModel {
        AssetModel {
            name: self.name@,
            sz_decimals: self.sz_decimals,
            margin_table_id: self.margin_table_id,
            margin_mode: self.margin_mode,
        }
    }
}

impl View for UserState {
    type V = UserModel;

    open spec fn view(&self) -> UserModel {
        UserModel {
            usdc_balance: self.usdc_balance,
            spot_collateral: self.spot_collateral,
            spot_collateral_decimals: self.spot_collateral_decimals,
            account_mode: self.account_mode,
            positions: self.positions@,
            leverage_settings: self.leverage_settings@,
        }
    }
}

impl View for UserStatePartial {
    type V = PartialModel;

    open spec fn view(&self) -> PartialModel {
        PartialModel {
            usdc_balance: self.usdc_balance,
            spot_collateral: self.spot_collateral,
            spot_collateral_decimals: self.spot_collateral_decimals,
            account_mode: self.account_mode,
            leverage_settings: self.leverage_settings@,
        }
    }
}

impl View for DexState {
    type V = DexModel;

    open spec fn view(&self) -> DexModel {
        DexModel {
            pdi: self.pdi,
            universe: self.universe@.map_values(|a: AssetMeta| a@),
            margin_tables: self.margin_tables@,
            oracle_prices: self.oracle_prices@,
            users: self.users@,
            collateral_token: self.collateral_token,
            partials: self.users_without_positions@,
        }
    }
}

/// What an event log holds, where there is one.
pub open spec fn log_view(log: Option<StrMap<Vec<(u64, String)>>>) -> Option<
    Map<Seq<char>, Seq<(u64, String)>>,
> {
    match log {
        Some(m) => Some(m@),
        None => None,
    }
}

impl View for LiquidationState {
    type V = StateModel;

    open spec fn view(&self) -> StateModel {
        StateModel {
            dexes: self.dex_states@.map_values(|d: DexState| d@),
            coins: self.coin_to_dex_asset@,
            nonces: self.processed_withdrawal_nonces@,
            vault_withdrawals: self.processed_vault_withdrawals@,
            leverage_fixes: self.positions_needing_leverage_fix@.map_values(
                |f: (String, usize, u32)| (f.0@, f.1, f.2),
            ),
            event_log: log_view(self.event_log),
            unified: self.unified_balances@,
            action_counts: self.user_action_counts@,
            borrows: self.borrow_lend_states@,
            portfolio_margin: self.portfolio_margin_users@,
            vaults: self.vault_states@,
            marks: self.mark_prices@,
            dex_names: self.dex_name_to_pdi@,
        }
    }
}

impl PartialModel {
    /// A user of whom nothing is known: no funds, no settings, standard mode.
    pub open spec fn fresh() -> PartialModel {
        PartialModel {
            usdc_balance: 0,
            spot_collateral: 0,
            spot_collateral_decimals: 8,
            account_mode: AccountMode::Standard,
            leverage_settings: Map::empty(),
        }
    }

    /// The full state that this partial state stands for: the same balances and settings, no
    /// positions.
    pub open spec fn promoted(self) -> UserModel {
        UserModel {
            usdc_balance: self.usdc_balance,
            spot_collateral: self.spot_collateral,
            spot_collateral_decimals: self.spot_collateral_decimals,
            account_mode: self.account_mode,
            positions: Map::empty(),
            leverage_settings: self.leverage_settings,
        }
    }
}

impl UserStatePartial {
    pub fn into_user_state(self) -> (r: UserState)
        ensures
            r@ == self@.promoted(),
    {
        UserState {
            usdc_balance: self.usdc_balance,
            spot_collateral: self.spot_collateral,
            spot_collateral_decimals: self.spot_collateral_decimals,
            account_mode: self.account_mode,
            positions: AssetMap::new(),
            leverage_settings: self.leverage_settings,
        }
    }

    /// A user of whom nothing is known.
    pub fn fresh() -> (r: UserStatePartial)
        ensures
            r@ == PartialModel::fresh(),
    {
        UserStatePartial {
            usdc_balance: 0,
            spot_collateral: 0,
            spot_collateral_decimals: 8,
            account_mode: AccountMode::Standard,
            leverage_settings: AssetMap::new(),
        }
    }
}

impl StateModel {
    /// Whether every known coin points at an asset that its dex lists.
    pub open spec fn coins_valid(self) -> bool {
        forall|c: Seq<char>| #[trigger]
            self.coins.contains_key(c) ==> self.coins[c].0 < self.dexes.len() && self.coins[c].1
                < self.dexes[self.coins[c].0 as int].universe.len()
    }
}

} // verus!

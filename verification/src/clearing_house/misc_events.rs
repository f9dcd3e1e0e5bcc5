//! Misc events: funding, liquidations, vault operations, rewards and other changes that replica
//! blocks do not bring. Events that replica blocks do bring (deposits, withdrawals, transfers,
//! leverage updates) are skipped here to avoid double-counting.
//!
//! Decimal amounts come in as integers: `micro` in 6 decimals, `wei` in 8 decimals.
use crate::clearing_house::{LiquidationState, StateModel};
use crate::text::{starts_with, str_eq, to_lowercase};
use vstd::prelude::*;

verus! {

pub struct MiscEventBatch {
    pub block_number: u64,
    pub events: Vec<MiscEvent>,
}

pub struct MiscEvent {
    pub inner: MiscEventInner,
}

pub enum MiscEventInner {
    Funding(FundingEvent),
    LedgerUpdate(LedgerUpdateEvent),
    CDeposit,
    CWithdrawal,
    Delegation,
    ValidatorRewards,
}

pub struct FundingEvent {
    pub deltas: Vec<FundingDelta>,
}

/// One funding payment. The amount is absent where it is zero.
pub struct FundingDelta {
    pub user: String,
    pub coin: String,
    pub micro: Option<i64>,
}

pub struct LedgerUpdateEvent {
    pub users: Vec<String>,
    pub delta: LedgerDelta,
}

/// A positive amount in both units.
#[derive(Debug, Clone, Copy, PartialEq, Eq, Structural)]
pub struct Amount {
    pub micro: i64,
    pub wei: i64,
}

/// A ledger change, with the fields that matter. Optional fields are absent where the event lacks
/// them; optional amounts also where they are not positive (or, for a vault withdrawal, zero).
pub enum LedgerDelta {
    Liquidation,
    VaultDistribution { vault: String, micro: i64 },
    VaultLeaderCommission { vault: String, micro: i64 },
    RewardsClaim { micro: i64 },
    DeployGasAuction { micro: i64 },
    AccountActivationGas { micro: i64 },
    Deposit,
    Withdraw,
    InternalTransfer,
    SubAccountTransfer,
    SpotTransfer {
        user: Option<String>,
        destination: Option<String>,
        token: Option<String>,
        amount: Option<Amount>,
    },
    Send {
        user: Option<String>,
        destination: Option<String>,
        destination_dex: Option<String>,
        token: Option<String>,
        amount: Option<Amount>,
    },
    AccountClassTransfer { to_perp: Option<bool>, amount: Option<Amount> },
    VaultCreate,
    VaultDeposit,
    VaultWithdraw { user: Option<String>, vault: Option<String>, net_micro: Option<i64> },
    BorrowLend,
    SpotGenesis,
    CStakingTransfer,
    PerpDexClassTransfer,
    Unknown,
}

/// The account through which the bridge sends deposits.
pub const BRIDGE: &'static str = "0x6b9e773128f453f5c2c60935ee2de2cbc5390a24";

/// What the addresses of system accounts start with.
pub const SYSTEM_PREFIX: &'static str = "0x2000000000000000000000000000000000";

// ── What an event does, mathematically ───────────────────────────────────

/// The state after the first `n` funding payments of an event.
pub open spec fn funding_effect(s: StateModel, deltas: Seq<FundingDelta>, n: int) -> StateModel
    decreases n,
{
    if n <= 0 {
        s
    } else {
        crate::clearing_house::funding::state_funded(
            funding_effect(s, deltas, n - 1),
            deltas[n - 1].user@,
            deltas[n - 1].coin@,
            deltas[n - 1].micro,
        )
    }
}

/// The state after a transfer of the same amount to each of the first `n` users.
pub open spec fn credited_each(s: StateModel, users: Seq<String>, micro: i64, n: int) -> StateModel
    decreases n,
{
    if n <= 0 {
        s
    } else {
        crate::clearing_house::state::state_credited(
            credited_each(s, users, micro, n - 1),
            crate::text::lowercase(users[n - 1]@),
            micro,
        )
    }
}

/// The lower-case form of an optional text; of nothing where there is none.
pub open spec fn lowered(o: Option<String>) -> Seq<char> {
    crate::text::lowercase(crate::clearing_house::replica::text_or_empty(o))
}

/// The id of a stablecoin by its name, where it is one that is tracked. USDC where no name is
/// given.
pub open spec fn stable_token(name: Option<String>) -> Option<u32> {
    let n = match name {
        Some(s) => s@,
        None => "USDC"@,
    };
    if n == "USDC"@ {
        Some(0)
    } else if n == "USDH"@ {
        Some(360)
    } else if n == "USDE"@ {
        Some(235)
    } else {
        None
    }
}

/// A deposit that the bridge sends on: to a dex, or to the spot exchange. Any other transfer is
/// brought by replica blocks.
pub open spec fn bridge_effect(
    s: StateModel,
    user: Option<String>,
    destination: Option<String>,
    destination_dex: Option<String>,
    token: Option<String>,
    amount: Option<Amount>,
) -> (StateModel, bool) {
    let dest = crate::clearing_house::replica::text_or_empty(destination);
    match amount {
        Some(a) if lowered(user) == BRIDGE@ && dest.len() > 0 => {
            let to = crate::text::lowercase(dest);
            let dst = match destination_dex {
                Some(d) => d@,
                None => "_absent_"@,
            };
            let t = if dst.len() == 0 || s.dex_names.contains_key(dst) {
                crate::clearing_house::state::state_credited_on_or_shared(
                    s,
                    to,
                    a.micro,
                    match crate::clearing_house::replica::named_pdi(s, dst) {
                        Some(p) => p,
                        None => 0,
                    },
                )
            } else {
                crate::clearing_house::state::state_spot_credited(
                    s,
                    to,
                    match stable_token(token) {
                        Some(id) => id,
                        None => 0,
                    },
                    a.wei,
                )
            };
            (t, true)
        },
        _ => (s, false),
    }
}

/// A spot transfer from or to a system account. Any other spot transfer is brought by replica
/// blocks.
pub open spec fn system_effect(
    s: StateModel,
    user: Option<String>,
    destination: Option<String>,
    token: Option<String>,
    amount: Option<Amount>,
) -> (StateModel, bool) {
    let from = lowered(user);
    let to = lowered(destination);
    match (amount, stable_token(token)) {
        (Some(a), Some(t)) => if SYSTEM_PREFIX@.is_prefix_of(from) && to.len() > 0 {
            (crate::clearing_house::state::state_spot_credited(s, to, t, a.wei), true)
        } else if SYSTEM_PREFIX@.is_prefix_of(to) && from.len() > 0 {
            (
                crate::clearing_house::state::state_spot_credited(
                    s,
                    from,
                    t,
                    crate::clearing_house::replica::negated(a.wei),
                ),
                true,
            )
        } else {
            (s, false)
        },
        _ => (s, false),
    }
}

/// Whether the user's withdrawal from the vault was applied before, with its exact amount.
pub open spec fn withdrawal_known(s: StateModel, vault: Seq<char>, u: Seq<char>) -> bool {
    s.vault_withdrawals.contains_key(vault) && s.vault_withdrawals[vault].contains_key(u)
}

/// What a ledger update does, and whether it counts as applied.
pub open spec fn ledger_effect(s: StateModel, ev: LedgerUpdateEvent) -> (StateModel, bool) {
    let all = ev.users@.len() as int;
    match ev.delta {
        LedgerDelta::Liquidation => (s, true),
        LedgerDelta::VaultDistribution { vault, micro } => (
            crate::clearing_house::state::state_credited(
                s,
                crate::text::lowercase(vault@),
                crate::clearing_house::replica::negated(micro),
            ),
            true,
        ),
        LedgerDelta::VaultLeaderCommission { vault, micro } => {
            let t = crate::clearing_house::state::state_credited(
                s,
                crate::text::lowercase(vault@),
                crate::clearing_house::replica::negated(micro),
            );
            (
                if all > 0 {
                    crate::clearing_house::state::state_credited(
                        t,
                        crate::text::lowercase(ev.users@[0]@),
                        micro,
                    )
                } else {
                    t
                },
                true,
            )
        },
        LedgerDelta::RewardsClaim { micro } => (credited_each(s, ev.users@, micro, all), true),
        LedgerDelta::DeployGasAuction { micro } => (
            credited_each(s, ev.users@, crate::clearing_house::replica::negated(micro), all),
            true,
        ),
        LedgerDelta::AccountActivationGas { micro } => (
            credited_each(s, ev.users@, crate::clearing_house::replica::negated(micro), all),
            true,
        ),
        LedgerDelta::Send { user, destination, destination_dex, token, amount } => bridge_effect(
            s,
            user,
            destination,
            destination_dex,
            token,
            amount,
        ),
        LedgerDelta::SpotTransfer { user, destination, token, amount } => system_effect(
            s,
            user,
            destination,
            token,
            amount,
        ),
        LedgerDelta::VaultWithdraw { user, vault, net_micro } => {
            let u = lowered(user);
            let v = lowered(vault);
            match net_micro {
                Some(micro) if u.len() > 0 && !withdrawal_known(s, v, u) => (
                    crate::clearing_house::replica::moved(s, v, u, micro),
                    true,
                ),
                _ => (s, false),
            }
        },
        LedgerDelta::AccountClassTransfer { to_perp, amount } => match amount {
            Some(a) if all > 0 => (
                crate::clearing_house::replica::class_moved(
                    s,
                    crate::text::lowercase(ev.users@[0]@),
                    a.micro,
                    a.wei,
                    to_perp == Some(true),
                ),
                true,
            ),
            _ => (s, false),
        },
        _ => (s, false),
    }
}

/// What the first `n` events of a batch do: the state, the number of funding events and the number
/// of ledger updates that counted.
pub open spec fn events_effect(s: StateModel, events: Seq<MiscEvent>, n: int) -> (
    StateModel,
    int,
    int,
)
    decreases n,
{
    if n <= 0 {
        (s, 0, 0)
    } else {
        let (t, funding, ledger) = events_effect(s, events, n - 1);
        match events[n - 1].inner {
            MiscEventInner::Funding(f) => (
                funding_effect(t, f.deltas@, f.deltas@.len() as int),
                funding + 1,
                ledger,
            ),
            MiscEventInner::LedgerUpdate(l) => {
                let (t2, applied) = ledger_effect(t, l);
                (
                    t2,
                    funding,
                    if applied {
                        ledger + 1
                    } else {
                        ledger
                    },
                )
            },
            _ => (t, funding, ledger),
        }
    }
}

// ── The same, executed ───────────────────────────────────────────────────

fn lower(o: &Option<String>) -> (r: String)
    ensures
        r@ == lowered(*o),
{
    proof {
        reveal_strlit("");
        assert(""@ =~= Seq::<char>::empty());
    }
    match o {
        Some(s) => to_lowercase(s.as_str()),
        None => to_lowercase(""),
    }
}

fn stable_id(name: &Option<String>) -> (r: Option<u32>)
    ensures
        r == stable_token(*name),
{
    let n = match name {
        Some(s) => s.as_str(),
        None => "USDC",
    };
    if str_eq(n, "USDC") {
        Some(0)
    } else if str_eq(n, "USDH") {
        Some(360)
    } else if str_eq(n, "USDE") {
        Some(235)
    } else {
        None
    }
}

fn neg(x: i64) -> (r: i64)
    ensures
        r == crate::clearing_house::replica::negated(x),
{
    0i64.wrapping_sub(x)
}

fn apply_funding(state: &mut LiquidationState, funding: &FundingEvent)
    requires
        old(state)@.coins_valid(),
    ensures
        final(state)@ == funding_effect(
            old(state)@,
            funding.deltas@,
            funding.deltas@.len() as int,
        ),
        final(state)@.coins_valid(),
{
    let mut i: usize = 0;
    while i < funding.deltas.len()
        invariant
            i <= funding.deltas@.len(),
            state@.coins_valid(),
            state@ == funding_effect(old(state)@, funding.deltas@, i as int),
        decreases funding.deltas@.len() - i,
    {
        let d = &funding.deltas[i];
        state.apply_funding_payment(d.user.as_str(), d.coin.as_str(), d.micro);
        i = i + 1;
    }
}

fn credit_each(state: &mut LiquidationState, users: &Vec<String>, micro: i64)
    ensures
        final(state)@ == credited_each(old(state)@, users@, micro, users@.len() as int),
{
    let mut i: usize = 0;
    while i < users.len()
        invariant
            i <= users@.len(),
            state@ == credited_each(old(state)@, users@, micro, i as int),
        decreases users@.len() - i,
    {
        let u = to_lowercase(users[i].as_str());
        state.apply_usd_transfer(u.as_str(), micro);
        i = i + 1;
    }
}

fn apply_bridge_send(
    state: &mut LiquidationState,
    user: &Option<String>,
    destination: &Option<String>,
    destination_dex: &Option<String>,
    token: &Option<String>,
    amount: Option<Amount>,
) -> (r: bool)
    ensures
        (final(state)@, r) == bridge_effect(
            old(state)@,
            *user,
            *destination,
            *destination_dex,
            *token,
            amount,
        ),
{
    let sender = lower(user);
    if !str_eq(sender.as_str(), BRIDGE) {
        return false;
    }
    let dest = match destination {
        Some(d) => if d.as_str().is_empty() {
            return false;
        } else {
            d.as_str()
        },
        None => {
            return false;
        },
    };
    let a = match amount {
        Some(a) => a,
        None => {
            return false;
        },
    };
    let to = to_lowercase(dest);
    let dst = match destination_dex {
        Some(d) => d.as_str(),
        None => "_absent_",
    };
    let pdi: Option<u32> = match state.dex_name_to_pdi.get(dst) {
        Some(p) => Some(*p),
        None => None,
    };
    if dst.is_empty() || pdi.is_some() {
        state.apply_usd_transfer_on_dex_unified_scl(to.as_str(), a.micro, pdi.unwrap_or(0));
    } else {
        let id: u32 = stable_id(token).unwrap_or(0);
        state.apply_spot_transfer(to.as_str(), id, a.wei);
    }
    true
}

fn apply_system_transfer(
    state: &mut LiquidationState,
    user: &Option<String>,
    destination: &Option<String>,
    token: &Option<String>,
    amount: Option<Amount>,
) -> (r: bool)
    ensures
        (final(state)@, r) == system_effect(old(state)@, *user, *destination, *token, amount),
{
    let from = lower(user);
    let to = lower(destination);
    let system_sender = starts_with(from.as_str(), SYSTEM_PREFIX);
    let system_dest = starts_with(to.as_str(), SYSTEM_PREFIX);
    if system_sender || system_dest {
        if let Some(id) = stable_id(token) {
            if let Some(a) = amount {
                if system_sender && !to.as_str().is_empty() {
                    state.apply_spot_transfer(to.as_str(), id, a.wei);
                    return true;
                } else if system_dest && !from.as_str().is_empty() {
                    state.apply_spot_transfer(from.as_str(), id, neg(a.wei));
                    return true;
                }
            }
        }
    }
    false
}

fn apply_vault_withdraw(
    state: &mut LiquidationState,
    user: &Option<String>,
    vault: &Option<String>,
    net_micro: Option<i64>,
) -> (r: bool)
    ensures
        (final(state)@, r) == ({
            let u = lowered(*user);
            let v = lowered(*vault);
            match net_micro {
                Some(micro) if u.len() > 0 && !withdrawal_known(old(state)@, v, u) => (
                    crate::clearing_house::replica::moved(old(state)@, v, u, micro),
                    true,
                ),
                _ => (old(state)@, false),
            }
        }),
{
    let u = lower(user);
    let v = lower(vault);
    if let Some(users) = state.processed_vault_withdrawals.get(v.as_str()) {
        if users.contains_key(u.as_str()) {
            return false;
        }
    }
    match net_micro {
        Some(micro) => {
            if u.as_str().is_empty() {
                return false;
            }
            state.apply_usd_transfer(v.as_str(), neg(micro));
            state.apply_usd_transfer(u.as_str(), micro);
            true
        },
        None => false,
    }
}

/// Applies a ledger update. Gives back whether it counts as applied.
pub fn apply_ledger_update(state: &mut LiquidationState, ledger: &LedgerUpdateEvent) -> (r: bool)
    ensures
        (final(state)@, r) == ledger_effect(old(state)@, *ledger),
{
    match &ledger.delta {
        // The positions of a liquidated user change through fills.
        LedgerDelta::Liquidation => true,
        LedgerDelta::VaultDistribution { vault, micro } => {
            let v = to_lowercase(vault.as_str());
            state.apply_usd_transfer(v.as_str(), neg(*micro));
            true
        },
        LedgerDelta::VaultLeaderCommission { vault, micro } => {
            let v = to_lowercase(vault.as_str());
            state.apply_usd_transfer(v.as_str(), neg(*micro));
            if ledger.users.len() > 0 {
                let leader = to_lowercase(ledger.users[0].as_str());
                state.apply_usd_transfer(leader.as_str(), *micro);
            }
            true
        },
        LedgerDelta::RewardsClaim { micro } => {
            credit_each(state, &ledger.users, *micro);
            true
        },
        LedgerDelta::DeployGasAuction { micro } => {
            credit_each(state, &ledger.users, neg(*micro));
            true
        },
        LedgerDelta::AccountActivationGas { micro } => {
            credit_each(state, &ledger.users, neg(*micro));
            true
        },
        LedgerDelta::Send { user, destination, destination_dex, token, amount } => {
            apply_bridge_send(state, user, destination, destination_dex, token, *amount)
        },
        LedgerDelta::SpotTransfer { user, destination, token, amount } => {
            apply_system_transfer(state, user, destination, token, *amount)
        },
        LedgerDelta::VaultWithdraw { user, vault, net_micro } => {
            apply_vault_withdraw(state, user, vault, *net_micro)
        },
        LedgerDelta::AccountClassTransfer { to_perp, amount } => {
            match amount {
                Some(a) => {
                    if ledger.users.len() > 0 {
                        let u = to_lowercase(ledger.users[0].as_str());
                        let perp: bool = match to_perp {
                            Some(b) => *b,
                            None => false,
                        };
                        state.move_class(u.as_str(), a.micro, a.wei, perp);
                        true
                    } else {
                        false
                    }
                },
                None => false,
            }
        },
        _ => false,
    }
}

/// Applies a batch of events. Gives back the number of funding events and of ledger updates that
/// counted.
pub fn apply_misc_event_batch(state: &mut LiquidationState, batch: &MiscEventBatch) -> (r: (
    u64,
    u64,
))
    requires
        old(state)@.coins_valid(),
    ensures
        ({
            let (t, funding, ledger) = events_effect(
                old(state)@,
                batch.events@,
                batch.events@.len() as int,
            );
            final(state)@ == t && r.0 == funding && r.1 == ledger
        }),
        final(state)@.coins_valid(),
{
    let mut funding: u64 = 0;
    let mut ledger: u64 = 0;
    let mut i: usize = 0;
    while i < batch.events.len()
        invariant
            i <= batch.events@.len(),
            funding <= i,
            ledger <= i,
            state@.coins_valid(),
            (state@, funding as int, ledger as int) == events_effect(
                old(state)@,
                batch.events@,
                i as int,
            ),
        decreases batch.events@.len() - i,
    {
        match &batch.events[i].inner {
            MiscEventInner::Funding(f) => {
                apply_funding(state, f);
                funding = funding + 1;
            },
            MiscEventInner::LedgerUpdate(l) => {
                let ghost before = state@;
                if apply_ledger_update(state, l) {
                    ledger = ledger + 1;
                }
                proof {
                    crate::clearing_house::laws::law_ledger_keeps_markets(before, *l);
                    crate::clearing_house::laws::lemma_markets_valid(before, state@);
                }
            },
            _ => {},
        }
        i = i + 1;
    }
    (funding, ledger)
}

} // verus!

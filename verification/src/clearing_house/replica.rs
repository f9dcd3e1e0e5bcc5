//! Replica blocks: the signed actions of a block and what they do to the clearing-house state.
//!
//! Actions without an effect on the state are known by name only. Decimal amounts come in as
//! integers: `micro` in 6 decimals, `wei` in 8 decimals.
use crate::assetmap::AssetMap;
use crate::clearing_house::{
    AccountMode, AssetModel, DexModel, DexState, LiquidationState, StateModel,
};
use crate::strmap::StrMap;
use crate::text::{parse_u32, push_char, push_text, starts_with, str_eq, text_before, to_lowercase};
use std::collections::hash_map::DefaultHasher;
use std::hash::{Hash, Hasher};
use vstd::prelude::*;

verus! {

broadcast use vstd::std_specs::hash::group_hash_axioms;

pub struct ReplicaBlock {
    pub abci_block: AbciBlock,
    pub resps: Option<Resps>,
}

pub enum Resps {
    Full(Vec<(String, Vec<ActionResp>)>),
}

pub struct ActionResp {
    pub user: Option<String>,
    pub res: Option<ActionResult>,
}

pub struct ActionResult {
    pub status: String,
}

pub struct AbciBlock {
    pub time: Option<String>,
    pub signed_action_bundles: Vec<(String, ActionBundle)>,
}

pub struct ActionBundle {
    pub signed_actions: Vec<SignedAction>,
}

pub struct SignedAction {
    pub vault_address: Option<String>,
    pub action: Action,
}

/// Oracle prices that a deployer sets for the assets of a dex: coin names and price bits.
pub struct SetOracle {
    pub dex: String,
    pub prices: Vec<(String, u64)>,
}

/// Replica action types. State-mutating variants carry what they change;
/// the others are names only.
pub enum Action {
    UpdateLeverage { asset: u32, is_cross: bool, leverage: u32 },
    UpdateIsolatedMargin { asset: u32, is_buy: bool, ntli: i64 },
    UsdSend { destination: String, micro: i64 },
    UsdClassTransfer { micro: i64, wei: i64, to_perp: bool },
    SubAccountTransfer { sub_account_user: String, is_deposit: bool, usd: i64 },
    Withdraw3 { micro: i64 },
    SpotSend { destination: String, token: String, wei: i64 },
    SendAsset {
        destination: String,
        token: String,
        micro: i64,
        wei: i64,
        source_dex: Option<String>,
        destination_dex: Option<String>,
        from_sub_account: Option<String>,
    },
    VaultTransfer { vault_address: String, is_deposit: bool, usd: i64 },
    UserSetAbstraction { user: String, abstraction: String },
    Order,
    Cancel,
    CancelByCloid,
    BatchModify,
    Modify,
    ScheduleCancel,
    Noop,
    ApproveAgent,
    SetReferrer,
    RegisterReferrer,
    ApproveBuilderFee,
    PerpDeploy { set_oracle: Option<SetOracle> },
    AgentEnableDexAbstraction,
    UserDexAbstraction { abstraction: Option<String> },
    AgentSetAbstraction { abstraction: String },
    VoteAppHash,
    ClaimRewards,
    SpotUser,
    /// Bits of the mark price of each asset of dex 0, where one is given.
    SetGlobalAction { pxs: Vec<Option<u64>> },
    VoteEthFinalizedWithdrawalAction { user: String, usd: i64, nonce: i64 },
    ValidatorSignWithdrawalAction,
    EvmRawTx,
    EvmUserModify,
    MultiSig,
    TwapOrder,
    TwapCancel,
    NetChildVaultPositionsAction,
    /// `eth_id` is the text of the id of the deposit, on which several validators vote.
    VoteEthDepositAction { user: String, usd: i64, eth_id: String },
    ReserveRequestWeight,
    CDeposit { wei: i64 },
    CWithdraw { wei: i64 },
    TwapModify,
    RegisterReferrerRaw,
    CreateSubAccount,
    SubAccountModify,
    SendToEvmWithData,
    /// `wei` is absent where no amount, or one of zero, is given.
    BorrowLend { operation: String, token: u32, wei: Option<i64> },
    TokenDelegate { wei: i64, is_undelegate: bool },
    Unknown,
}

/// The id of the HYPE token.
pub const HYPE_TOKEN: u32 = 150;

// ── What an action does, mathematically ──────────────────────────────────

impl ActionResp {
    /// Whether the action went through: no result is given, or the result is "ok".
    pub open spec fn succeeded(self) -> bool {
        match self.res {
            None => true,
            Some(r) => r.status@ == "ok"@,
        }
    }
}

impl Action {
    /// Whether an action of this kind leaves the state alone when the actions of a block are
    /// applied in turn.
    pub open spec fn ignored(self) -> bool {
        match self {
            Action::UpdateLeverage { .. } => false,
            Action::UpdateIsolatedMargin { .. } => false,
            Action::UsdSend { .. } => false,
            Action::UsdClassTransfer { .. } => false,
            Action::SubAccountTransfer { .. } => false,
            Action::Withdraw3 { .. } => false,
            Action::SpotSend { .. } => false,
            Action::SendAsset { .. } => false,
            Action::VaultTransfer { .. } => false,
            Action::UserSetAbstraction { .. } => false,
            Action::VoteEthDepositAction { .. } => false,
            Action::BorrowLend { .. } => false,
            Action::CDeposit { .. } => false,
            Action::CWithdraw { .. } => false,
            Action::TokenDelegate { .. } => false,
            Action::SetGlobalAction { .. } => false,
            Action::AgentSetAbstraction { .. } => false,
            Action::AgentEnableDexAbstraction => false,
            Action::UserDexAbstraction { .. } => false,
            _ => true,
        }
    }
}

/// The other side of an amount.
pub open spec fn negated(x: i64) -> i64 {
    0i64.wrapping_sub(x)
}

/// The token id that a token text stands for: a number, or a name before a colon. Unknown names
/// stand for no token.
pub open spec fn token_id(token: Seq<char>) -> u32 {
    let name = crate::text::before_first(token, ':');
    match crate::text::decimal(token, u32::MAX as nat) {
        Some(n) => n as u32,
        None => if name == "USDC"@ {
            0
        } else if name == "USDH"@ {
            360
        } else if name == "USDE"@ {
            235
        } else {
            u32::MAX
        },
    }
}

/// The text, or nothing where there is none.
pub open spec fn text_or_empty(o: Option<String>) -> Seq<char> {
    match o {
        Some(s) => s@,
        None => Seq::empty(),
    }
}

/// Who acts: the vault that the action names, else the user of the response, in lower case.
pub open spec fn actor_of(vault: Option<String>, resp: Option<ActionResp>) -> Option<Seq<char>> {
    match vault {
        Some(a) => Some(crate::text::lowercase(a@)),
        None => match resp {
            Some(r) => match r.user {
                Some(u) => Some(crate::text::lowercase(u@)),
                None => None,
            },
            None => None,
        },
    }
}

/// The mode of the user on the first dex that knows them; standard where none does.
pub open spec fn known_mode(dexes: Seq<DexModel>, u: Seq<char>) -> AccountMode {
    let i = crate::clearing_house::state::first_dex(
        dexes,
        |d: DexModel| d.users.contains_key(u) || d.partials.contains_key(u),
        0,
    );
    if i >= dexes.len() {
        AccountMode::Standard
    } else if dexes[i].users.contains_key(u) {
        dexes[i].users[u].account_mode
    } else {
        dexes[i].partials[u].account_mode
    }
}

/// The pdi that a dex name stands for.
pub open spec fn named_pdi(s: StateModel, name: Seq<char>) -> Option<u32> {
    if s.dex_names.contains_key(name) {
        Some(s.dex_names[name])
    } else {
        None
    }
}

/// The state after funds left the sender from a named place: a dex, or the spot exchange. Funds
/// from elsewhere are not tracked.
pub open spec fn sent_from(
    s: StateModel,
    sender: Seq<char>,
    src: Seq<char>,
    token: u32,
    micro: i64,
    wei: i64,
) -> StateModel {
    match named_pdi(s, src) {
        Some(pdi) => crate::clearing_house::state::state_credited_on(
            s,
            sender,
            negated(micro),
            pdi,
        ),
        None => if src == "spot"@ {
            crate::clearing_house::state::state_spot_credited(s, sender, token, negated(wei))
        } else {
            s
        },
    }
}

/// The state after funds reached the receiver at a named place. Unified receivers get everything on
/// the spot exchange; under dex abstraction only USDC reaches a dex, and the rest goes to the spot
/// exchange; others get it at the place itself.
pub open spec fn sent_to(
    s: StateModel,
    dest: Seq<char>,
    dst: Seq<char>,
    dst_pdi: Option<u32>,
    token: u32,
    micro: i64,
    wei: i64,
) -> StateModel {
    let spot = crate::clearing_house::state::state_spot_credited(s, dest, token, wei);
    match known_mode(s.dexes, dest) {
        AccountMode::Unified => spot,
        AccountMode::DexAbstraction => match dst_pdi {
            Some(pdi) if token == 0 => crate::clearing_house::state::state_credited_on(
                s,
                dest,
                micro,
                pdi,
            ),
            _ => spot,
        },
        _ => match dst_pdi {
            Some(pdi) => crate::clearing_house::state::state_credited_on(s, dest, micro, pdi),
            None => if dst == "spot"@ {
                spot
            } else {
                s
            },
        },
    }
}

/// The mark prices with one more set.
pub open spec fn with_mark(s: StateModel, dex: u32, asset: u32, bits: u64) -> StateModel {
    let m = if s.marks.contains_key(dex) {
        s.marks[dex]
    } else {
        Map::empty()
    };
    StateModel { marks: s.marks.insert(dex, m.insert(asset, bits)), ..s }
}

/// The state after the first `n` mark prices of dex 0 were set.
pub open spec fn marks_set(s: StateModel, pxs: Seq<Option<u64>>, n: int) -> StateModel
    decreases n,
{
    if n <= 0 {
        s
    } else {
        let t = marks_set(s, pxs, n - 1);
        match pxs[n - 1] {
            Some(bits) => with_mark(t, 0, (n - 1) as u32, bits),
            None => t,
        }
    }
}

/// What an action changes: the state, and the users whom it affects.
pub struct Effect {
    pub state: StateModel,
    pub users: Set<Seq<char>>,
}

/// An action that does nothing.
pub open spec fn no_effect(s: StateModel) -> Effect {
    Effect { state: s, users: Set::empty() }
}

/// A change that affects one user.
pub open spec fn affects(s: StateModel, u: Seq<char>) -> Effect {
    Effect { state: s, users: set![u] }
}

/// A transfer between two users on the first dex with pdi 0.
pub open spec fn moved_on_main(
    s: StateModel,
    from: Seq<char>,
    to: Seq<char>,
    usd: i64,
) -> StateModel {
    crate::clearing_house::state::state_credited_on(
        crate::clearing_house::state::state_credited_on(s, from, negated(usd), 0),
        to,
        usd,
        0,
    )
}

/// A transfer between two users wherever each is known.
pub open spec fn moved(s: StateModel, from: Seq<char>, to: Seq<char>, usd: i64) -> StateModel {
    crate::clearing_house::state::state_credited(
        crate::clearing_house::state::state_credited(s, from, negated(usd)),
        to,
        usd,
    )
}

/// A transfer between two users on the spot exchange.
pub open spec fn moved_on_spot(
    s: StateModel,
    from: Seq<char>,
    to: Seq<char>,
    token: u32,
    wei: i64,
) -> StateModel {
    crate::clearing_house::state::state_spot_credited(
        crate::clearing_house::state::state_spot_credited(s, from, token, negated(wei)),
        to,
        token,
        wei,
    )
}

/// USDC that moves between a user's perps and spot balances.
pub open spec fn class_moved(
    s: StateModel,
    u: Seq<char>,
    micro: i64,
    wei: i64,
    to_perp: bool,
) -> StateModel {
    if to_perp {
        crate::clearing_house::state::state_spot_credited(
            crate::clearing_house::state::state_credited_on(s, u, micro, 0),
            u,
            0,
            negated(wei),
        )
    } else {
        crate::clearing_house::state::state_spot_credited(
            crate::clearing_house::state::state_credited_on(s, u, negated(micro), 0),
            u,
            0,
            wei,
        )
    }
}

/// The state in which the user's withdrawal from the vault is known to be applied.
pub open spec fn withdrawal_noted(s: StateModel, vault: Seq<char>, u: Seq<char>) -> StateModel {
    let users = if s.vault_withdrawals.contains_key(vault) {
        s.vault_withdrawals[vault]
    } else {
        Map::empty()
    };
    StateModel {
        vault_withdrawals: s.vault_withdrawals.insert(vault, users.insert(u, ())),
        ..s
    }
}

/// What an asset transfer by the sender does.
pub open spec fn asset_sent(
    s: StateModel,
    sender: Seq<char>,
    dest: Seq<char>,
    token: u32,
    micro: i64,
    wei: i64,
    source_dex: Option<String>,
    destination_dex: Option<String>,
) -> StateModel {
    if source_dex is None && destination_dex is None {
        moved_on_spot(s, sender, dest, token, wei)
    } else {
        let dst = text_or_empty(destination_dex);
        sent_to(
            sent_from(s, sender, text_or_empty(source_dex), token, micro, wei),
            dest,
            dst,
            named_pdi(s, dst),
            token,
            micro,
            wei,
        )
    }
}

/// What the hash of a text writes to a hasher.
pub uninterp spec fn text_writes(text: Seq<char>) -> Seq<Seq<u8>>;

/// The number under which a deposit is remembered: the hash of the text of its id.
pub open spec fn deposit_key(eth_id: Seq<char>) -> i64 {
    <DefaultHasher as vstd::std_specs::hash::DefaultHasherAdditionalSpecFns>::spec_finish(
        text_writes(eth_id),
    ) as i64
}

/// What an action that went through does, given who acts.
pub open spec fn effect_of(s: StateModel, action: Action, actor: Option<Seq<char>>) -> Effect {
    match action {
        Action::UpdateLeverage { asset, is_cross, leverage } => match actor {
            Some(u) => affects(
                crate::clearing_house::state::state_relevered(s, u, asset, is_cross, leverage),
                u,
            ),
            None => no_effect(s),
        },
        Action::UpdateIsolatedMargin { asset, is_buy, ntli } => match actor {
            Some(u) => affects(
                crate::clearing_house::state::state_margin_moved(s, u, asset, ntli),
                u,
            ),
            None => no_effect(s),
        },
        Action::UsdSend { destination, micro } => {
            let dest = crate::text::lowercase(destination@);
            match actor {
                Some(u) => Effect { state: moved(s, u, dest, micro), users: set![u, dest] },
                None => affects(
                    crate::clearing_house::state::state_credited(s, dest, micro),
                    dest,
                ),
            }
        },
        Action::UsdClassTransfer { micro, wei, to_perp } => match actor {
            Some(u) => affects(class_moved(s, u, micro, wei, to_perp), u),
            None => no_effect(s),
        },
        Action::SubAccountTransfer { sub_account_user, is_deposit, usd } => match actor {
            Some(u) => {
                let sub = crate::text::lowercase(sub_account_user@);
                Effect {
                    state: if is_deposit {
                        moved_on_main(s, u, sub, usd)
                    } else {
                        moved_on_main(s, sub, u, usd)
                    },
                    users: set![u, sub],
                }
            },
            None => no_effect(s),
        },
        Action::Withdraw3 { micro } => match actor {
            Some(u) => affects(
                crate::clearing_house::state::state_credited_on(s, u, negated(micro), 0),
                u,
            ),
            None => no_effect(s),
        },
        Action::SpotSend { destination, token, wei } => match actor {
            Some(u) => {
                let dest = crate::text::lowercase(destination@);
                Effect {
                    state: moved_on_spot(s, u, dest, token_id(token@), wei),
                    users: set![u, dest],
                }
            },
            None => no_effect(s),
        },
        Action::SendAsset {
            destination,
            token,
            micro,
            wei,
            source_dex,
            destination_dex,
            from_sub_account,
        } => {
            let sub = text_or_empty(from_sub_account);
            let sender = if sub.len() > 0 {
                Some(crate::text::lowercase(sub))
            } else {
                actor
            };
            match sender {
                Some(from) => {
                    let dest = crate::text::lowercase(destination@);
                    Effect {
                        state: asset_sent(
                            s,
                            from,
                            dest,
                            token_id(token@),
                            micro,
                            wei,
                            source_dex,
                            destination_dex,
                        ),
                        users: set![from, dest],
                    }
                },
                None => no_effect(s),
            }
        },
        Action::VaultTransfer { vault_address, is_deposit, usd } => match actor {
            Some(u) => {
                let vault = crate::text::lowercase(vault_address@);
                Effect {
                    state: if is_deposit {
                        moved(s, u, vault, usd)
                    } else if usd == 0 {
                        s
                    } else {
                        moved(withdrawal_noted(s, vault, u), vault, u, usd)
                    },
                    users: set![u, vault],
                }
            },
            None => no_effect(s),
        },
        Action::UserSetAbstraction { user, abstraction } => {
            let u = crate::text::lowercase(user@);
            affects(crate::clearing_house::state::state_remoded(s, u, abstraction@), u)
        },
        Action::AgentSetAbstraction { abstraction } => match actor {
            Some(u) => affects(
                crate::clearing_house::state::state_remoded(s, u, abstraction@),
                u,
            ),
            None => no_effect(s),
        },
        Action::AgentEnableDexAbstraction => match actor {
            Some(u) => affects(crate::clearing_house::state::state_remoded(s, u, "d"@), u),
            None => no_effect(s),
        },
        Action::UserDexAbstraction { abstraction } => match actor {
            Some(u) => affects(
                crate::clearing_house::state::state_remoded(
                    s,
                    u,
                    match abstraction {
                        Some(m) => m@,
                        None => "d"@,
                    },
                ),
                u,
            ),
            None => no_effect(s),
        },
        Action::VoteEthDepositAction { user, usd, eth_id } => {
            let u = crate::text::lowercase(user@);
            let key = deposit_key(eth_id@);
            if s.nonces.contains(key) {
                no_effect(s)
            } else {
                affects(
                    crate::clearing_house::state::state_credited_on(
                        StateModel { nonces: s.nonces.insert(key), ..s },
                        u,
                        usd,
                        0,
                    ),
                    u,
                )
            }
        },
        Action::BorrowLend { operation, token, wei } => match (actor, wei) {
            (Some(u), Some(w)) => affects(
                crate::clearing_house::state::state_spot_credited(
                    s,
                    u,
                    token,
                    if operation@ == "supply"@ {
                        negated(w)
                    } else {
                        w
                    },
                ),
                u,
            ),
            _ => no_effect(s),
        },
        Action::CDeposit { wei } => match actor {
            Some(u) => affects(
                crate::clearing_house::state::state_spot_credited(s, u, HYPE_TOKEN, negated(wei)),
                u,
            ),
            None => no_effect(s),
        },
        Action::CWithdraw { wei } => match actor {
            Some(u) => affects(
                crate::clearing_house::state::state_spot_credited(s, u, HYPE_TOKEN, wei),
                u,
            ),
            None => no_effect(s),
        },
        Action::SetGlobalAction { pxs } => Effect {
            state: marks_set(s, pxs@, pxs@.len() as int),
            users: Set::empty(),
        },
        _ => no_effect(s),
    }
}

/// What the first `n` actions of a bundle do, given the responses to them.
pub open spec fn bundle_effect(
    e: Effect,
    actions: Seq<SignedAction>,
    resps: Option<Seq<ActionResp>>,
    n: int,
) -> Effect
    decreases n,
{
    if n <= 0 {
        e
    } else {
        let before = bundle_effect(e, actions, resps, n - 1);
        let sa = actions[n - 1];
        let resp = match resps {
            Some(rs) if n - 1 < rs.len() => Some(rs[n - 1]),
            _ => None,
        };
        if sa.action.ignored() || (resp matches Some(r) && !r.succeeded()) {
            before
        } else {
            let f = effect_of(before.state, sa.action, actor_of(sa.vault_address, resp));
            Effect { state: f.state, users: before.users.union(f.users) }
        }
    }
}

/// The responses to the bundle at a position, where the block has them.
pub open spec fn bundle_resps(resps: Option<Resps>, i: int) -> Option<Seq<ActionResp>> {
    match resps {
        Some(Resps::Full(bundles)) if i < bundles@.len() => Some(bundles@[i].1@),
        _ => None,
    }
}

/// What the first `n` bundles of a block do.
pub open spec fn bundles_effect(
    s: StateModel,
    bundles: Seq<(String, ActionBundle)>,
    resps: Option<Resps>,
    n: int,
) -> Effect
    decreases n,
{
    if n <= 0 {
        no_effect(s)
    } else {
        let actions = bundles[n - 1].1.signed_actions@;
        bundle_effect(
            bundles_effect(s, bundles, resps, n - 1),
            actions,
            bundle_resps(resps, n - 1),
            actions.len() as int,
        )
    }
}

/// Whether the dex is the one of the name: its first asset's name starts with it and a colon.
pub open spec fn dex_is_named(d: DexModel, name: Seq<char>) -> bool {
    d.universe.len() > 0 && name.push(':').is_prefix_of(d.universe[0].name)
}

/// The position of the first asset of the name, from `i` on; the number of assets where there is
/// none.
pub open spec fn asset_named(universe: Seq<AssetModel>, name: Seq<char>, i: int) -> int
    decreases universe.len() - i,
{
    if i >= universe.len() || universe[i].name == name {
        i
    } else {
        asset_named(universe, name, i + 1)
    }
}

/// The state after the first `n` oracle prices of a dex were set; prices of unknown coins are
/// dropped.
pub open spec fn oracle_set(
    s: StateModel,
    di: int,
    prices: Seq<(String, u64)>,
    n: int,
) -> StateModel
    decreases n,
{
    if n <= 0 {
        s
    } else {
        let t = oracle_set(s, di, prices, n - 1);
        let universe = s.dexes[di].universe;
        let ai = asset_named(universe, prices[n - 1].0@, 0);
        if ai < universe.len() {
            with_mark(t, di as u32, ai as u32, prices[n - 1].1)
        } else {
            t
        }
    }
}

/// The state after a deployer's oracle prices, where the action brings some for a known dex.
pub open spec fn deploy_effect(s: StateModel, action: Action) -> StateModel {
    match action {
        Action::PerpDeploy { set_oracle: Some(o) } => {
            let di = crate::clearing_house::state::first_dex(
                s.dexes,
                |d: DexModel| dex_is_named(d, o.dex@),
                0,
            );
            if di < s.dexes.len() {
                oracle_set(s, di, o.prices@, o.prices@.len() as int)
            } else {
                s
            }
        },
        _ => s,
    }
}

/// The state after the oracle prices in the first `n` actions of a bundle.
pub open spec fn bundle_deploys(s: StateModel, actions: Seq<SignedAction>, n: int) -> StateModel
    decreases n,
{
    if n <= 0 {
        s
    } else {
        deploy_effect(bundle_deploys(s, actions, n - 1), actions[n - 1].action)
    }
}

/// The state after the oracle prices in the first `n` bundles.
pub open spec fn bundles_deploys(
    s: StateModel,
    bundles: Seq<(String, ActionBundle)>,
    n: int,
) -> StateModel
    decreases n,
{
    if n <= 0 {
        s
    } else {
        let actions = bundles[n - 1].1.signed_actions@;
        bundle_deploys(bundles_deploys(s, bundles, n - 1), actions, actions.len() as int)
    }
}

/// The counters after one more action of each of the users.
pub open spec fn counted_all(m: Map<Seq<char>, u32>, users: Set<Seq<char>>) -> Map<Seq<char>, u32> {
    Map::new(
        |u: Seq<char>| m.contains_key(u) || users.contains(u),
        |u: Seq<char>|
            if users.contains(u) {
                crate::clearing_house::fill::counted(m, u)[u]
            } else {
                m[u]
            },
    )
}

/// What a block does: its actions in order, then the oracle prices that it brings, then one more
/// action counted for each user whom it affected.
pub open spec fn block_effect(s: StateModel, block: ReplicaBlock) -> Effect {
    let bundles = block.abci_block.signed_action_bundles@;
    let e = bundles_effect(s, bundles, block.resps, bundles.len() as int);
    let t = bundles_deploys(e.state, bundles, bundles.len() as int);
    Effect {
        state: StateModel { action_counts: counted_all(t.action_counts, e.users), ..t },
        users: e.users,
    }
}

// ── The same, executed ───────────────────────────────────────────────────

impl ActionResp {
    pub fn is_success(&self) -> (r: bool)
        ensures
            r == self.succeeded(),
    {
        match &self.res {
            None => true,
            Some(res) => str_eq(res.status.as_str(), "ok"),
        }
    }
}

impl Action {
    pub fn is_ignored(&self) -> (r: bool)
        ensures
            r == self.ignored(),
    {
        match self {
            Action::UpdateLeverage { .. } => false,
            Action::UpdateIsolatedMargin { .. } => false,
            Action::UsdSend { .. } => false,
            Action::UsdClassTransfer { .. } => false,
            Action::SubAccountTransfer { .. } => false,
            Action::Withdraw3 { .. } => false,
            Action::SpotSend { .. } => false,
            Action::SendAsset { .. } => false,
            Action::VaultTransfer { .. } => false,
            Action::UserSetAbstraction { .. } => false,
            Action::VoteEthDepositAction { .. } => false,
            Action::BorrowLend { .. } => false,
            Action::CDeposit { .. } => false,
            Action::CWithdraw { .. } => false,
            Action::TokenDelegate { .. } => false,
            Action::SetGlobalAction { .. } => false,
            Action::AgentSetAbstraction { .. } => false,
            Action::AgentEnableDexAbstraction => false,
            Action::UserDexAbstraction { .. } => false,
            _ => true,
        }
    }
}

/// Calls the `hash` of `str` of std on a `DefaultHasher`. What it writes to the hasher depends on the
/// text alone and is named `text_writes`; which bytes these are is not stated.
#[verifier::external_body]
fn hash_text(text: &str, h: &mut DefaultHasher)
    ensures
        final(h)@ == old(h)@ + text_writes(text@),
{
    text.hash(h);
}

/// The number under which a deposit is remembered.
pub fn key_of_deposit(eth_id: &str) -> (r: i64)
    ensures
        r == deposit_key(eth_id@),
{
    let mut h = DefaultHasher::new();
    hash_text(eth_id, &mut h);
    assert(h@ =~= text_writes(eth_id@));
    #[verifier::truncate]
    let r: i64 = h.finish() as i64;
    r
}

fn neg(x: i64) -> (r: i64)
    ensures
        r == negated(x),
{
    0i64.wrapping_sub(x)
}

/// The token id that a token text stands for: an id ("0"), a name ("USDC"), or "NAME:0xhex".
pub fn parse_token(token: &str) -> (r: u32)
    ensures
        r == token_id(token@),
{
    match parse_u32(token) {
        Some(n) => n,
        None => {
            let name = text_before(token, ':');
            if str_eq(name.as_str(), "USDC") {
                0
            } else if str_eq(name.as_str(), "USDH") {
                360
            } else if str_eq(name.as_str(), "USDE") {
                235
            } else {
                0xffff_ffff
            }
        },
    }
}

fn or_empty<'a>(o: &'a Option<String>) -> (r: &'a str)
    ensures
        r@ == text_or_empty(*o),
{
    proof {
        reveal_strlit("");
        assert(""@ =~= Seq::<char>::empty());
    }
    match o {
        Some(s) => s.as_str(),
        None => "",
    }
}

fn actor(vault: &Option<String>, resp: Option<&ActionResp>) -> (r: Option<String>)
    ensures
        match r {
            Some(u) => actor_of(
                *vault,
                match resp {
                    Some(p) => Some(*p),
                    None => None,
                },
            ) == Some(u@),
            None => actor_of(
                *vault,
                match resp {
                    Some(p) => Some(*p),
                    None => None,
                },
            ) is None,
        },
{
    match vault {
        Some(a) => Some(to_lowercase(a.as_str())),
        None => match resp {
            Some(r) => match &r.user {
                Some(u) => Some(to_lowercase(u.as_str())),
                None => None,
            },
            None => None,
        },
    }
}

/// The characters of the actor's name, where there is one.
pub open spec fn name_view(o: Option<String>) -> Option<Seq<char>> {
    match o {
        Some(u) => Some(u@),
        None => None,
    }
}

impl LiquidationState {
    fn mode_known(&self, u: &str) -> (r: AccountMode)
        ensures
            r == known_mode(self@.dexes, u@),
    {
        let ghost p = |d: DexModel| d.users.contains_key(u@) || d.partials.contains_key(u@);
        let mut k: usize = 0;
        while k < self.dex_states.len()
            invariant
                k <= self.dex_states@.len(),
                p == (|d: DexModel| d.users.contains_key(u@) || d.partials.contains_key(u@)),
                forall|j: int| 0 <= j < k ==> !p(#[trigger] self@.dexes[j]),
            decreases self.dex_states@.len() - k,
        {
            assert(self@.dexes[k as int] == self.dex_states@[k as int]@);
            match self.dex_states[k].users.get(u) {
                Some(us) => {
                    proof {
                        crate::clearing_house::state::lemma_first_dex(
                            self@.dexes,
                            p,
                            0,
                            k as int,
                        );
                    }
                    return us.account_mode;
                },
                None => match self.dex_states[k].users_without_positions.get(u) {
                    Some(q) => {
                        proof {
                            crate::clearing_house::state::lemma_first_dex(
                                self@.dexes,
                                p,
                                0,
                                k as int,
                            );
                        }
                        return q.account_mode;
                    },
                    None => {},
                },
            }
            k = k + 1;
        }
        proof {
            crate::clearing_house::state::lemma_first_dex(self@.dexes, p, 0, k as int);
        }
        AccountMode::Standard
    }

    fn pdi_named(&self, name: &str) -> (r: Option<u32>)
        ensures
            r == named_pdi(self@, name@),
    {
        match self.dex_name_to_pdi.get(name) {
            Some(p) => Some(*p),
            None => None,
        }
    }

    fn send_from(&mut self, sender: &str, src: &str, token: u32, micro: i64, wei: i64)
        ensures
            final(self)@ == sent_from(old(self)@, sender@, src@, token, micro, wei),
    {
        match self.pdi_named(src) {
            Some(pdi) => self.apply_usd_transfer_on_dex(sender, neg(micro), pdi),
            None => if str_eq(src, "spot") {
                self.apply_spot_transfer(sender, token, neg(wei));
            },
        }
    }

    fn send_to(
        &mut self,
        dest: &str,
        dst: &str,
        dst_pdi: Option<u32>,
        token: u32,
        micro: i64,
        wei: i64,
    )
        ensures
            final(self)@ == sent_to(old(self)@, dest@, dst@, dst_pdi, token, micro, wei),
    {
        match self.mode_known(dest) {
            AccountMode::Unified => self.apply_spot_transfer(dest, token, wei),
            AccountMode::DexAbstraction => match dst_pdi {
                Some(pdi) => if token == 0 {
                    self.apply_usd_transfer_on_dex(dest, micro, pdi);
                } else {
                    self.apply_spot_transfer(dest, token, wei);
                },
                None => self.apply_spot_transfer(dest, token, wei),
            },
            _ => match dst_pdi {
                Some(pdi) => self.apply_usd_transfer_on_dex(dest, micro, pdi),
                None => if str_eq(dst, "spot") {
                    self.apply_spot_transfer(dest, token, wei);
                },
            },
        }
    }

    fn send_asset(
        &mut self,
        sender: &str,
        dest: &str,
        token: u32,
        micro: i64,
        wei: i64,
        source_dex: &Option<String>,
        destination_dex: &Option<String>,
    )
        ensures
            final(self)@ == asset_sent(
                old(self)@,
                sender@,
                dest@,
                token,
                micro,
                wei,
                *source_dex,
                *destination_dex,
            ),
    {
        if source_dex.is_none() && destination_dex.is_none() {
            self.apply_spot_transfer(sender, token, neg(wei));
            self.apply_spot_transfer(dest, token, wei);
        } else {
            let dst = or_empty(destination_dex);
            let dst_pdi = self.pdi_named(dst);
            self.send_from(sender, or_empty(source_dex), token, micro, wei);
            self.send_to(dest, dst, dst_pdi, token, micro, wei);
        }
    }

    /// Records the mark price of an asset, by its bits.
    pub fn set_mark_price(&mut self, dex: u32, asset: u32, bits: u64)
        ensures
            final(self)@ == with_mark(old(self)@, dex, asset, bits),
    {
        let ghost before = self@;
        if let Some(m) = self.mark_prices.get_mut(dex) {
            m.insert(asset, bits);
        } else {
            let mut m = AssetMap::new();
            m.insert(asset, bits);
            self.mark_prices.insert(dex, m);
        }
        assert(self@ =~= with_mark(before, dex, asset, bits));
    }

    fn set_marks(&mut self, pxs: &Vec<Option<u64>>)
        ensures
            final(self)@ == marks_set(old(self)@, pxs@, pxs@.len() as int),
    {
        let mut i: usize = 0;
        while i < pxs.len()
            invariant
                i <= pxs@.len(),
                self@ == marks_set(old(self)@, pxs@, i as int),
            decreases pxs@.len() - i,
        {
            if let Some(bits) = pxs[i] {
                #[verifier::truncate]
                let a: u32 = i as u32;
                self.set_mark_price(0, a, bits);
            }
            i = i + 1;
        }
    }

    fn note_withdrawal(&mut self, vault: &String, u: &String)
        ensures
            final(self)@ == withdrawal_noted(old(self)@, vault@, u@),
    {
        let ghost before = self@;
        if let Some(users) = self.processed_vault_withdrawals.get_mut(vault.as_str()) {
            users.insert(u.clone(), ());
        } else {
            let mut users = StrMap::new();
            users.insert(u.clone(), ());
            self.processed_vault_withdrawals.insert(vault.clone(), users);
        }
        assert(self@ =~= withdrawal_noted(before, vault@, u@));
    }

    /// USDC between a user's perps and spot balances.
    pub(crate) fn move_class(&mut self, u: &str, micro: i64, wei: i64, to_perp: bool)
        ensures
            final(self)@ == class_moved(old(self)@, u@, micro, wei, to_perp),
    {
        if to_perp {
            self.apply_usd_transfer_on_dex(u, micro, 0);
            self.apply_spot_transfer(u, 0, neg(wei));
        } else {
            self.apply_usd_transfer_on_dex(u, neg(micro), 0);
            self.apply_spot_transfer(u, 0, wei);
        }
    }

    /// Applies one action that went through, and notes the users whom it affects.
    fn apply_action(&mut self, action: &Action, actor: &Option<String>, users: &mut StrMap<()>)
        ensures
            final(self)@ == effect_of(old(self)@, *action, name_view(*actor)).state,
            final(users)@.dom() == old(users)@.dom().union(
                effect_of(old(self)@, *action, name_view(*actor)).users,
            ),
    {
        let ghost want = effect_of(self@, *action, name_view(*actor));
        let ghost known = users@.dom();
        match action {
            Action::UpdateLeverage { asset, is_cross, leverage } => {
                if let Some(u) = actor {
                    self.apply_leverage_update(u.as_str(), *asset, *is_cross, *leverage);
                    users.insert(u.clone(), ());
                }
            },
            Action::UpdateIsolatedMargin { asset, is_buy, ntli } => {
                if let Some(u) = actor {
                    self.apply_isolated_margin_update(u.as_str(), *asset, *is_buy, *ntli);
                    users.insert(u.clone(), ());
                }
            },
            Action::UsdSend { destination, micro } => {
                if let Some(u) = actor {
                    self.apply_usd_transfer(u.as_str(), neg(*micro));
                    users.insert(u.clone(), ());
                }
                let dest = to_lowercase(destination.as_str());
                self.apply_usd_transfer(dest.as_str(), *micro);
                users.insert(dest, ());
            },
            Action::UsdClassTransfer { micro, wei, to_perp } => {
                if let Some(u) = actor {
                    self.move_class(u.as_str(), *micro, *wei, *to_perp);
                    users.insert(u.clone(), ());
                }
            },
            Action::SubAccountTransfer { sub_account_user, is_deposit, usd } => {
                if let Some(u) = actor {
                    let sub = to_lowercase(sub_account_user.as_str());
                    if *is_deposit {
                        self.apply_usd_transfer_on_dex(u.as_str(), neg(*usd), 0);
                        self.apply_usd_transfer_on_dex(sub.as_str(), *usd, 0);
                    } else {
                        self.apply_usd_transfer_on_dex(sub.as_str(), neg(*usd), 0);
                        self.apply_usd_transfer_on_dex(u.as_str(), *usd, 0);
                    }
                    users.insert(u.clone(), ());
                    users.insert(sub, ());
                }
            },
            Action::Withdraw3 { micro } => {
                if let Some(u) = actor {
                    self.apply_usd_transfer_on_dex(u.as_str(), neg(*micro), 0);
                    users.insert(u.clone(), ());
                }
            },
            Action::SpotSend { destination, token, wei } => {
                if let Some(u) = actor {
                    let id: u32 = parse_token(token.as_str());
                    let dest = to_lowercase(destination.as_str());
                    self.apply_spot_transfer(u.as_str(), id, neg(*wei));
                    self.apply_spot_transfer(dest.as_str(), id, *wei);
                    users.insert(u.clone(), ());
                    users.insert(dest, ());
                }
            },
            Action::SendAsset {
                destination,
                token,
                micro,
                wei,
                source_dex,
                destination_dex,
                from_sub_account,
            } => {
                let sub = or_empty(from_sub_account);
                let sender: Option<String> = if sub.is_empty() {
                    actor.clone()
                } else {
                    Some(to_lowercase(sub))
                };
                if let Some(from) = sender {
                    let dest = to_lowercase(destination.as_str());
                    let id: u32 = parse_token(token.as_str());
                    self.send_asset(
                        from.as_str(),
                        dest.as_str(),
                        id,
                        *micro,
                        *wei,
                        source_dex,
                        destination_dex,
                    );
                    users.insert(from, ());
                    users.insert(dest, ());
                }
            },
            Action::VaultTransfer { vault_address, is_deposit, usd } => {
                let vault = to_lowercase(vault_address.as_str());
                if let Some(u) = actor {
                    if *is_deposit {
                        self.apply_usd_transfer(u.as_str(), neg(*usd));
                        self.apply_usd_transfer(vault.as_str(), *usd);
                    } else if *usd != 0 {
                        // A withdrawal of everything waits for the ledger update, which has the
                        // exact amount; this one must not be counted there again.
                        self.note_withdrawal(&vault, u);
                        self.apply_usd_transfer(vault.as_str(), neg(*usd));
                        self.apply_usd_transfer(u.as_str(), *usd);
                    }
                    users.insert(u.clone(), ());
                    users.insert(vault, ());
                }
            },
            Action::UserSetAbstraction { user, abstraction } => {
                let u = to_lowercase(user.as_str());
                self.apply_set_abstraction(u.as_str(), abstraction.as_str());
                users.insert(u, ());
            },
            Action::AgentSetAbstraction { abstraction } => {
                if let Some(u) = actor {
                    self.apply_set_abstraction(u.as_str(), abstraction.as_str());
                    users.insert(u.clone(), ());
                }
            },
            Action::AgentEnableDexAbstraction => {
                if let Some(u) = actor {
                    self.apply_set_abstraction(u.as_str(), "d");
                    users.insert(u.clone(), ());
                }
            },
            Action::UserDexAbstraction { abstraction } => {
                if let Some(u) = actor {
                    let mode = match abstraction {
                        Some(m) => m.as_str(),
                        None => "d",
                    };
                    self.apply_set_abstraction(u.as_str(), mode);
                    users.insert(u.clone(), ());
                }
            },
            Action::VoteEthDepositAction { user, usd, eth_id } => {
                let u = to_lowercase(user.as_str());
                let key: i64 = key_of_deposit(eth_id.as_str());
                if !self.processed_withdrawal_nonces.contains(&key) {
                    let _ = self.processed_withdrawal_nonces.insert(key);
                    self.apply_usd_transfer_on_dex(u.as_str(), *usd, 0);
                    users.insert(u, ());
                }
            },
            Action::BorrowLend { operation, token, wei } => {
                if let Some(u) = actor {
                    if let Some(w) = wei {
                        let delta: i64 = if str_eq(operation.as_str(), "supply") {
                            neg(*w)
                        } else {
                            *w
                        };
                        self.apply_spot_transfer(u.as_str(), *token, delta);
                        users.insert(u.clone(), ());
                    }
                }
            },
            Action::CDeposit { wei } => {
                if let Some(u) = actor {
                    self.apply_spot_transfer(u.as_str(), HYPE_TOKEN, neg(*wei));
                    users.insert(u.clone(), ());
                }
            },
            Action::CWithdraw { wei } => {
                if let Some(u) = actor {
                    self.apply_spot_transfer(u.as_str(), HYPE_TOKEN, *wei);
                    users.insert(u.clone(), ());
                }
            },
            Action::SetGlobalAction { pxs } => {
                self.set_marks(pxs);
            },
            _ => {},
        }
        assert(users@.dom() =~= known.union(want.users));
    }
}

// ── A whole block ────────────────────────────────────────────────────────

impl LiquidationState {
    fn apply_bundle(
        &mut self,
        actions: &Vec<SignedAction>,
        resps: Option<&Vec<ActionResp>>,
        users: &mut StrMap<()>,
    )
        ensures
            ({
                let rs = match resps {
                    Some(v) => Some(v@),
                    None => None,
                };
                let e = bundle_effect(
                    Effect { state: old(self)@, users: old(users)@.dom() },
                    actions@,
                    rs,
                    actions@.len() as int,
                );
                final(self)@ == e.state && final(users)@.dom() == e.users
            }),
    {
        let ghost start = Effect { state: self@, users: users@.dom() };
        let ghost rs = match resps {
            Some(v) => Some(v@),
            None => None,
        };
        let mut i: usize = 0;
        while i < actions.len()
            invariant
                i <= actions@.len(),
                rs == (match resps {
                    Some(v) => Some(v@),
                    None => None,
                }),
                self@ == bundle_effect(start, actions@, rs, i as int).state,
                users@.dom() == bundle_effect(start, actions@, rs, i as int).users,
            decreases actions@.len() - i,
        {
            let sa = &actions[i];
            let resp: Option<&ActionResp> = match resps {
                Some(v) => if i < v.len() {
                    Some(&v[i])
                } else {
                    None
                },
                None => None,
            };
            let failed: bool = match resp {
                Some(r) => !r.is_success(),
                None => false,
            };
            if !sa.action.is_ignored() && !failed {
                let who = actor(&sa.vault_address, resp);
                self.apply_action(&sa.action, &who, users);
            }
            i = i + 1;
        }
    }

    fn dex_named(&self, name: &str) -> (r: Option<usize>)
        ensures
            ({
                let i = crate::clearing_house::state::first_dex(
                    self@.dexes,
                    |d: DexModel| dex_is_named(d, name@),
                    0,
                );
                match r {
                    Some(k) => k == i && i < self@.dexes.len(),
                    None => i >= self@.dexes.len(),
                }
            }),
    {
        let mut prefix = String::new();
        push_text(&mut prefix, name);
        push_char(&mut prefix, ':');
        assert(prefix@ =~= name@.push(':'));
        let ghost p = |d: DexModel| dex_is_named(d, name@);
        let mut k: usize = 0;
        while k < self.dex_states.len()
            invariant
                k <= self.dex_states@.len(),
                prefix@ == name@.push(':'),
                p == (|d: DexModel| dex_is_named(d, name@)),
                forall|j: int| 0 <= j < k ==> !p(#[trigger] self@.dexes[j]),
            decreases self.dex_states@.len() - k,
        {
            let universe = &self.dex_states[k].universe;
            assert(self@.dexes[k as int] == self.dex_states@[k as int]@);
            if universe.len() > 0 && starts_with(universe[0].name.as_str(), prefix.as_str()) {
                proof {
                    crate::clearing_house::state::lemma_first_dex(self@.dexes, p, 0, k as int);
                }
                return Some(k);
            }
            k = k + 1;
        }
        proof {
            crate::clearing_house::state::lemma_first_dex(self@.dexes, p, 0, k as int);
        }
        None
    }

    fn set_oracle(&mut self, o: &SetOracle)
        ensures
            final(self)@ == deploy_effect(
                old(self)@,
                Action::PerpDeploy { set_oracle: Some(*o) },
            ),
    {
        let ghost before = self@;
        if let Some(di) = self.dex_named(o.dex.as_str()) {
            let mut i: usize = 0;
            while i < o.prices.len()
                invariant
                    i <= o.prices@.len(),
                    di < before.dexes.len(),
                    self@.dexes == before.dexes,
                    self@ == oracle_set(before, di as int, o.prices@, i as int),
                decreases o.prices@.len() - i,
            {
                assert(self@.dexes[di as int] == self.dex_states@[di as int]@);
                let found = self.dex_states[di].asset_position(o.prices[i].0.as_str());
                if let Some(ai) = found {
                    #[verifier::truncate]
                    let d: u32 = di as u32;
                    #[verifier::truncate]
                    let a: u32 = ai as u32;
                    self.set_mark_price(d, a, o.prices[i].1);
                }
                i = i + 1;
            }
        }
    }

    fn apply_deploys(&mut self, actions: &Vec<SignedAction>)
        ensures
            final(self)@ == bundle_deploys(old(self)@, actions@, actions@.len() as int),
    {
        let mut i: usize = 0;
        while i < actions.len()
            invariant
                i <= actions@.len(),
                self@ == bundle_deploys(old(self)@, actions@, i as int),
            decreases actions@.len() - i,
        {
            if let Action::PerpDeploy { set_oracle } = &actions[i].action {
                if let Some(o) = set_oracle {
                    self.set_oracle(o);
                }
            }
            i = i + 1;
        }
    }
}

impl DexState {
    /// The position of the first asset of the name.
    fn asset_position(&self, name: &str) -> (r: Option<usize>)
        ensures
            match r {
                Some(k) => k == asset_named(self@.universe, name@, 0) && k < self@.universe.len(),
                None => asset_named(self@.universe, name@, 0) >= self@.universe.len(),
            },
    {
        let mut k: usize = 0;
        while k < self.universe.len()
            invariant
                k <= self.universe@.len(),
                asset_named(self@.universe, name@, 0) == asset_named(
                    self@.universe,
                    name@,
                    k as int,
                ),
            decreases self.universe@.len() - k,
        {
            assert(self@.universe[k as int] == self.universe@[k as int]@);
            if str_eq(self.universe[k].name.as_str(), name) {
                return Some(k);
            }
            k = k + 1;
        }
        None
    }
}

/// Applies a block to the state. Gives back the users whom it affected.
pub fn apply_replica_block(state: &mut LiquidationState, block: &ReplicaBlock) -> (r: Result<
    StrMap<()>,
    String,
>)
    ensures
        final(state)@ == block_effect(old(state)@, *block).state,
        r is Ok,
        r->Ok_0@.dom() == block_effect(old(state)@, *block).users,
        old(state)@.coins_valid() ==> final(state)@.coins_valid(),
{
    let ghost before = state@;
    let ghost bundles = block.abci_block.signed_action_bundles@;
    let n: usize = block.abci_block.signed_action_bundles.len();
    let mut users: StrMap<()> = StrMap::new();
    assert(users@.dom() =~= Set::<Seq<char>>::empty());
    let mut i: usize = 0;
    while i < n
        invariant
            i <= n == bundles.len(),
            bundles == block.abci_block.signed_action_bundles@,
            state@ == bundles_effect(before, bundles, block.resps, i as int).state,
            users@.dom() == bundles_effect(before, bundles, block.resps, i as int).users,
        decreases n - i,
    {
        let resps: Option<&Vec<ActionResp>> = match &block.resps {
            Some(Resps::Full(rb)) => if i < rb.len() {
                Some(&rb[i].1)
            } else {
                None
            },
            None => None,
        };
        let ghost e = bundles_effect(before, bundles, block.resps, i as int);
        assert(e == Effect { state: state@, users: users@.dom() });
        state.apply_bundle(
            &block.abci_block.signed_action_bundles[i].1.signed_actions,
            resps,
            &mut users,
        );
        i = i + 1;
    }
    let ghost e = bundles_effect(before, bundles, block.resps, n as int);
    i = 0;
    while i < n
        invariant
            i <= n == bundles.len(),
            bundles == block.abci_block.signed_action_bundles@,
            state@ == bundles_deploys(e.state, bundles, i as int),
        decreases n - i,
    {
        state.apply_deploys(&block.abci_block.signed_action_bundles[i].1.signed_actions);
        i = i + 1;
    }
    let ghost t = state@;
    let m: usize = users.len();
    let ghost ks = users.keys();
    i = 0;
    while i < m
        invariant
            i <= m == ks.len(),
            ks == users.keys(),
            ks.no_duplicates(),
            state@ == (StateModel {
                action_counts: counted_all(t.action_counts, ks.take(i as int).to_set()),
                ..t
            }),
        decreases m - i,
    {
        let ghost seen = ks.take(i as int).to_set();
        let ghost more = ks.take(i + 1).to_set();
        let ghost k = ks[i as int];
        state.count_action(users.key_at(i));
        proof {
            crate::strmap::lemma_take_one(ks, i as int);
            assert(crate::clearing_house::fill::counted(counted_all(t.action_counts, seen), k)
                =~= counted_all(t.action_counts, more));
        }
        i = i + 1;
    }
    assert(ks.take(m as int) =~= ks);
    proof {
        if before.coins_valid() {
            crate::clearing_house::laws::law_block_keeps_markets(before, *block);
            crate::clearing_house::laws::lemma_markets_valid(before, state@);
        }
    }
    Ok(users)
}

} // verus!

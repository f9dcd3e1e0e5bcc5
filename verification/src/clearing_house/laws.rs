//! What holds of the clearing-house state across operations.
use crate::clearing_house::misc_events::{Amount, LedgerDelta, LedgerUpdateEvent};
use crate::clearing_house::fill::FillAmounts;
use crate::clearing_house::replica::{
    Action, ActionBundle, ActionResp, Effect, ReplicaBlock, Resps, SignedAction,
};
use crate::clearing_house::{DexModel, MarginMode, StateModel, UserModel};
use vstd::prelude::*;

verus! {

/// Whether two states list the same coins, dexes and assets.
pub open spec fn same_markets(s: StateModel, t: StateModel) -> bool {
    &&& s.coins == t.coins
    &&& s.dex_names == t.dex_names
    &&& s.dexes.len() == t.dexes.len()
    &&& forall|i: int|
        0 <= i < s.dexes.len() ==> (#[trigger] t.dexes[i]).universe == s.dexes[i].universe
            && t.dexes[i].pdi == s.dexes[i].pdi && t.dexes[i].collateral_token
            == s.dexes[i].collateral_token
}

/// Coins stay valid as long as the markets stay the same.
pub proof fn lemma_markets_valid(s: StateModel, t: StateModel)
    requires
        same_markets(s, t),
        s.coins_valid(),
    ensures
        t.coins_valid(),
{
    assert forall|c: Seq<char>| #[trigger] t.coins.contains_key(c) implies t.coins[c].0
        < t.dexes.len() && t.coins[c].1 < t.dexes[t.coins[c].0 as int].universe.len() by {
        assert(s.coins.contains_key(c));
    }
}

/// Transfers keep the markets.
proof fn lemma_transfers_keep(s: StateModel, u: Seq<char>, x: i64, y: u32)
    ensures
        same_markets(s, crate::clearing_house::state::state_credited(s, u, x)),
        same_markets(s, crate::clearing_house::state::state_credited_on(s, u, x, y)),
        same_markets(s, crate::clearing_house::state::state_spot_credited(s, u, y, x)),
        same_markets(s, crate::clearing_house::state::state_credited_on_or_shared(s, u, x, y)),
{
}

proof fn lemma_each_keeps(s: StateModel, users: Seq<String>, micro: i64, n: int)
    ensures
        same_markets(s, crate::clearing_house::misc_events::credited_each(s, users, micro, n)),
    decreases n,
{
    if n > 0 {
        lemma_each_keeps(s, users, micro, n - 1);
        lemma_transfers_keep(
            crate::clearing_house::misc_events::credited_each(s, users, micro, n - 1),
            crate::text::lowercase(users[n - 1]@),
            micro,
            0,
        );
    }
}

// ── Blocks keep the markets ──────────────────────────────────────────────

proof fn lemma_settings_keep(
    s: StateModel,
    u: Seq<char>,
    asset: u32,
    cross: bool,
    lev: u32,
    x: i64,
    m: Seq<char>,
)
    ensures
        same_markets(s, crate::clearing_house::state::state_relevered(s, u, asset, cross, lev)),
        same_markets(s, crate::clearing_house::state::state_margin_moved(s, u, asset, x)),
        same_markets(s, crate::clearing_house::state::state_remoded(s, u, m)),
{
}

proof fn lemma_marks_keep(s: StateModel, pxs: Seq<Option<u64>>, n: int)
    ensures
        same_markets(s, crate::clearing_house::replica::marks_set(s, pxs, n)),
    decreases n,
{
    if n > 0 {
        lemma_marks_keep(s, pxs, n - 1);
    }
}

/// Markets that stay the same twice stay the same.
proof fn lemma_markets_transitive(s: StateModel, t: StateModel, v: StateModel)
    requires
        same_markets(s, t),
        same_markets(t, v),
    ensures
        same_markets(s, v),
{
    assert forall|i: int| 0 <= i < s.dexes.len() implies (#[trigger] v.dexes[i]).universe
        == s.dexes[i].universe && v.dexes[i].pdi == s.dexes[i].pdi && v.dexes[i].collateral_token
        == s.dexes[i].collateral_token by {
        assert(t.dexes[i].universe == s.dexes[i].universe);
    }
}

proof fn lemma_moves_keep(s: StateModel, x: Seq<char>, y: Seq<char>, usd: i64, token: u32)
    ensures
        same_markets(s, crate::clearing_house::replica::moved(s, x, y, usd)),
        same_markets(s, crate::clearing_house::replica::moved_on_main(s, x, y, usd)),
        same_markets(s, crate::clearing_house::replica::moved_on_spot(s, x, y, token, usd)),
{
    let n = crate::clearing_house::replica::negated(usd);
    lemma_transfers_keep(s, x, n, 0);
    lemma_transfers_keep(s, x, n, token);
    let s1 = crate::clearing_house::state::state_credited(s, x, n);
    let s2 = crate::clearing_house::state::state_credited_on(s, x, n, 0);
    let s3 = crate::clearing_house::state::state_spot_credited(s, x, token, n);
    lemma_transfers_keep(s1, y, usd, 0);
    lemma_transfers_keep(s2, y, usd, 0);
    lemma_transfers_keep(s3, y, usd, token);
    lemma_markets_transitive(s, s1, crate::clearing_house::replica::moved(s, x, y, usd));
    lemma_markets_transitive(s, s2, crate::clearing_house::replica::moved_on_main(s, x, y, usd));
    lemma_markets_transitive(
        s,
        s3,
        crate::clearing_house::replica::moved_on_spot(s, x, y, token, usd),
    );
}

proof fn lemma_class_keeps(s: StateModel, u: Seq<char>, micro: i64, wei: i64, to_perp: bool)
    ensures
        same_markets(s, crate::clearing_house::replica::class_moved(s, u, micro, wei, to_perp)),
{
    let x = if to_perp {
        micro
    } else {
        crate::clearing_house::replica::negated(micro)
    };
    let y = if to_perp {
        crate::clearing_house::replica::negated(wei)
    } else {
        wei
    };
    let t = crate::clearing_house::state::state_credited_on(s, u, x, 0);
    lemma_transfers_keep(s, u, x, 0);
    lemma_transfers_keep(t, u, y, 0);
    lemma_markets_transitive(
        s,
        t,
        crate::clearing_house::state::state_spot_credited(t, u, 0, y),
    );
}

proof fn lemma_send_keeps(
    s: StateModel,
    from: Seq<char>,
    dest: Seq<char>,
    token: u32,
    micro: i64,
    wei: i64,
    source_dex: Option<String>,
    destination_dex: Option<String>,
)
    ensures
        same_markets(
            s,
            crate::clearing_house::replica::asset_sent(
                s,
                from,
                dest,
                token,
                micro,
                wei,
                source_dex,
                destination_dex,
            ),
        ),
{
    lemma_moves_keep(s, from, dest, wei, token);
    let src = crate::clearing_house::replica::text_or_empty(source_dex);
    let dst = crate::clearing_house::replica::text_or_empty(destination_dex);
    let dp = crate::clearing_house::replica::named_pdi(s, dst);
    let t = crate::clearing_house::replica::sent_from(s, from, src, token, micro, wei);
    if let Some(pdi) = crate::clearing_house::replica::named_pdi(s, src) {
        lemma_transfers_keep(s, from, crate::clearing_house::replica::negated(micro), pdi);
    }
    lemma_transfers_keep(s, from, crate::clearing_house::replica::negated(wei), token);
    assert(same_markets(s, t));
    if let Some(pdi) = dp {
        lemma_transfers_keep(t, dest, micro, pdi);
    }
    lemma_transfers_keep(t, dest, wei, token);
    let v = crate::clearing_house::replica::sent_to(t, dest, dst, dp, token, micro, wei);
    assert(same_markets(t, v));
    lemma_markets_transitive(s, t, v);
}

/// An action changes balances, settings and prices only: the markets stay the same.
#[verifier::rlimit(40)]
pub proof fn law_action_keeps_markets(s: StateModel, action: Action, actor: Option<Seq<char>>)
    ensures
        same_markets(s, crate::clearing_house::replica::effect_of(s, action, actor).state),
{
    let e = crate::clearing_house::replica::effect_of(s, action, actor);
    let u = actor->0;
    assert(same_markets(s, s));
    match action {
        Action::UpdateLeverage { asset, is_cross, leverage } => {
            lemma_settings_keep(s, u, asset, is_cross, leverage, 0, u);
        },
        Action::UpdateIsolatedMargin { asset, is_buy, ntli } => {
            lemma_settings_keep(s, u, asset, true, 0, ntli, u);
        },
        Action::UsdSend { destination, micro } => {
            let d = crate::text::lowercase(destination@);
            lemma_moves_keep(s, u, d, micro, 0);
            lemma_transfers_keep(s, d, micro, 0);
        },
        Action::UsdClassTransfer { micro, wei, to_perp } => {
            lemma_class_keeps(s, u, micro, wei, to_perp);
        },
        Action::SubAccountTransfer { sub_account_user, is_deposit, usd } => {
            let d = crate::text::lowercase(sub_account_user@);
            lemma_moves_keep(s, u, d, usd, 0);
            lemma_moves_keep(s, d, u, usd, 0);
        },
        Action::Withdraw3 { micro } => {
            lemma_transfers_keep(s, u, crate::clearing_house::replica::negated(micro), 0);
        },
        Action::SpotSend { destination, token, wei } => {
            let t = crate::clearing_house::replica::token_id(token@);
            lemma_moves_keep(s, u, crate::text::lowercase(destination@), wei, t);
        },
        Action::SendAsset {
            destination,
            token,
            micro,
            wei,
            source_dex,
            destination_dex,
            from_sub_account,
        } => {
            let sub = crate::clearing_house::replica::text_or_empty(from_sub_account);
            let from = if sub.len() > 0 {
                crate::text::lowercase(sub)
            } else {
                u
            };
            lemma_send_keeps(
                s,
                from,
                crate::text::lowercase(destination@),
                crate::clearing_house::replica::token_id(token@),
                micro,
                wei,
                source_dex,
                destination_dex,
            );
        },
        Action::VaultTransfer { vault_address, is_deposit, usd } => {
            let v = crate::text::lowercase(vault_address@);
            let t = crate::clearing_house::replica::withdrawal_noted(s, v, u);
            assert(same_markets(s, t));
            lemma_moves_keep(s, u, v, usd, 0);
            lemma_moves_keep(t, v, u, usd, 0);
            lemma_markets_transitive(s, t, crate::clearing_house::replica::moved(t, v, u, usd));
        },
        Action::UserSetAbstraction { user, abstraction } => {
            lemma_settings_keep(
                s,
                crate::text::lowercase(user@),
                0,
                true,
                0,
                0,
                abstraction@,
            );
        },
        Action::AgentSetAbstraction { abstraction } => {
            lemma_settings_keep(s, u, 0, true, 0, 0, abstraction@);
        },
        Action::AgentEnableDexAbstraction => {
            lemma_settings_keep(s, u, 0, true, 0, 0, "d"@);
        },
        Action::UserDexAbstraction { abstraction } => {
            lemma_settings_keep(
                s,
                u,
                0,
                true,
                0,
                0,
                match abstraction {
                    Some(m) => m@,
                    None => "d"@,
                },
            );
        },
        Action::VoteEthDepositAction { user, usd, eth_id } => {
            let d = crate::text::lowercase(user@);
            let key = crate::clearing_house::replica::deposit_key(eth_id@);
            let t = StateModel { nonces: s.nonces.insert(key), ..s };
            assert(same_markets(s, t));
            lemma_transfers_keep(t, d, usd, 0);
            lemma_markets_transitive(
                s,
                t,
                crate::clearing_house::state::state_credited_on(t, d, usd, 0),
            );
        },
        Action::BorrowLend { operation, token, wei } => {
            if let Some(w) = wei {
                lemma_transfers_keep(s, u, w, token);
                lemma_transfers_keep(s, u, crate::clearing_house::replica::negated(w), token);
            }
        },
        Action::CDeposit { wei } => {
            lemma_transfers_keep(
                s,
                u,
                crate::clearing_house::replica::negated(wei),
                crate::clearing_house::replica::HYPE_TOKEN,
            );
        },
        Action::CWithdraw { wei } => {
            lemma_transfers_keep(s, u, wei, crate::clearing_house::replica::HYPE_TOKEN);
        },
        Action::SetGlobalAction { pxs } => {
            lemma_marks_keep(s, pxs@, pxs@.len() as int);
        },
        _ => {
            assert(e.state == s);
        },
    }
}

proof fn lemma_bundle_keeps(
    s: StateModel,
    e: Effect,
    actions: Seq<SignedAction>,
    resps: Option<Seq<ActionResp>>,
    n: int,
)
    requires
        same_markets(s, e.state),
    ensures
        same_markets(
            s,
            crate::clearing_house::replica::bundle_effect(e, actions, resps, n).state,
        ),
    decreases n,
{
    if n > 0 {
        lemma_bundle_keeps(s, e, actions, resps, n - 1);
        let b = crate::clearing_house::replica::bundle_effect(e, actions, resps, n - 1);
        let resp = match resps {
            Some(rs) if n - 1 < rs.len() => Some(rs[n - 1]),
            _ => None,
        };
        law_action_keeps_markets(
            b.state,
            actions[n - 1].action,
            crate::clearing_house::replica::actor_of(actions[n - 1].vault_address, resp),
        );
    }
}

proof fn lemma_bundles_keep(
    s: StateModel,
    bundles: Seq<(String, ActionBundle)>,
    resps: Option<Resps>,
    n: int,
)
    ensures
        same_markets(
            s,
            crate::clearing_house::replica::bundles_effect(s, bundles, resps, n).state,
        ),
    decreases n,
{
    if n > 0 {
        lemma_bundles_keep(s, bundles, resps, n - 1);
        let actions = bundles[n - 1].1.signed_actions@;
        lemma_bundle_keeps(
            s,
            crate::clearing_house::replica::bundles_effect(s, bundles, resps, n - 1),
            actions,
            crate::clearing_house::replica::bundle_resps(resps, n - 1),
            actions.len() as int,
        );
    }
}

proof fn lemma_oracle_keeps(s: StateModel, di: int, prices: Seq<(String, u64)>, n: int)
    ensures
        same_markets(s, crate::clearing_house::replica::oracle_set(s, di, prices, n)),
    decreases n,
{
    if n > 0 {
        lemma_oracle_keeps(s, di, prices, n - 1);
    }
}

proof fn lemma_deploys_keep(s: StateModel, t: StateModel, actions: Seq<SignedAction>, n: int)
    requires
        same_markets(s, t),
    ensures
        same_markets(s, crate::clearing_house::replica::bundle_deploys(t, actions, n)),
    decreases n,
{
    if n > 0 {
        lemma_deploys_keep(s, t, actions, n - 1);
        let b = crate::clearing_house::replica::bundle_deploys(t, actions, n - 1);
        if let Action::PerpDeploy { set_oracle: Some(o) } = actions[n - 1].action {
            let di = crate::clearing_house::state::first_dex(
                b.dexes,
                |d: DexModel| crate::clearing_house::replica::dex_is_named(d, o.dex@),
                0,
            );
            lemma_oracle_keeps(b, di, o.prices@, o.prices@.len() as int);
        }
    }
}

proof fn lemma_all_deploys_keep(
    s: StateModel,
    t: StateModel,
    bundles: Seq<(String, ActionBundle)>,
    n: int,
)
    requires
        same_markets(s, t),
    ensures
        same_markets(s, crate::clearing_house::replica::bundles_deploys(t, bundles, n)),
    decreases n,
{
    if n > 0 {
        lemma_all_deploys_keep(s, t, bundles, n - 1);
        let actions = bundles[n - 1].1.signed_actions@;
        lemma_deploys_keep(
            s,
            crate::clearing_house::replica::bundles_deploys(t, bundles, n - 1),
            actions,
            actions.len() as int,
        );
    }
}

/// A block changes balances, settings and prices only: the markets stay the same.
pub proof fn law_block_keeps_markets(s: StateModel, block: ReplicaBlock)
    ensures
        same_markets(s, crate::clearing_house::replica::block_effect(s, block).state),
{
    let bundles = block.abci_block.signed_action_bundles@;
    let n = bundles.len() as int;
    lemma_bundles_keep(s, bundles, block.resps, n);
    lemma_all_deploys_keep(
        s,
        crate::clearing_house::replica::bundles_effect(s, bundles, block.resps, n).state,
        bundles,
        n,
    );
}

/// A fill keeps the markets.
pub proof fn law_fill_keeps_markets(
    s: StateModel,
    user: Seq<char>,
    coin: Seq<char>,
    amounts: Option<FillAmounts>,
)
    requires
        s.coins_valid(),
    ensures
        same_markets(s, crate::clearing_house::fill::state_after_fill(s, user, coin, amounts)),
{
}

// ── Ledger updates keep the markets ──────────────────────────────────────

/// A ledger update changes balances only: the markets stay the same.
pub proof fn law_ledger_keeps_markets(s: StateModel, ev: LedgerUpdateEvent)
    ensures
        same_markets(s, crate::clearing_house::misc_events::ledger_effect(s, ev).0),
{
    let first = crate::text::lowercase(ev.users@[0]@);
    let all = ev.users@.len() as int;
    assert(same_markets(s, s));
    match ev.delta {
        LedgerDelta::VaultDistribution { vault, micro } => {
            lemma_transfers_keep(
                s,
                crate::text::lowercase(vault@),
                crate::clearing_house::replica::negated(micro),
                0,
            );
        },
        LedgerDelta::VaultLeaderCommission { vault, micro } => {
            let v = crate::text::lowercase(vault@);
            let n = crate::clearing_house::replica::negated(micro);
            let t = crate::clearing_house::state::state_credited(s, v, n);
            lemma_transfers_keep(s, v, n, 0);
            lemma_transfers_keep(t, first, micro, 0);
            lemma_markets_transitive(
                s,
                t,
                crate::clearing_house::state::state_credited(t, first, micro),
            );
        },
        LedgerDelta::RewardsClaim { micro } => {
            lemma_each_keeps(s, ev.users@, micro, all);
        },
        LedgerDelta::DeployGasAuction { micro } => {
            lemma_each_keeps(s, ev.users@, crate::clearing_house::replica::negated(micro), all);
        },
        LedgerDelta::AccountActivationGas { micro } => {
            lemma_each_keeps(s, ev.users@, crate::clearing_house::replica::negated(micro), all);
        },
        LedgerDelta::Send { user, destination, destination_dex, token, amount } => {
            lemma_bridge_keeps(s, user, destination, destination_dex, token, amount);
        },
        LedgerDelta::SpotTransfer { user, destination, token, amount } => {
            lemma_system_keeps(s, user, destination, token, amount);
        },
        LedgerDelta::VaultWithdraw { user, vault, net_micro } => {
            if let Some(micro) = net_micro {
                lemma_moves_keep(
                    s,
                    crate::clearing_house::misc_events::lowered(vault),
                    crate::clearing_house::misc_events::lowered(user),
                    micro,
                    0,
                );
            }
        },
        LedgerDelta::AccountClassTransfer { to_perp, amount } => {
            if let Some(a) = amount {
                lemma_class_keeps(s, first, a.micro, a.wei, to_perp == Some(true));
            }
        },
        _ => {},
    }
}

proof fn lemma_bridge_keeps(
    s: StateModel,
    user: Option<String>,
    destination: Option<String>,
    destination_dex: Option<String>,
    token: Option<String>,
    amount: Option<Amount>,
)
    ensures
        same_markets(
            s,
            crate::clearing_house::misc_events::bridge_effect(
                s,
                user,
                destination,
                destination_dex,
                token,
                amount,
            ).0,
        ),
{
    let to = crate::text::lowercase(crate::clearing_house::replica::text_or_empty(destination));
    let dst = match destination_dex {
        Some(d) => d@,
        None => "_absent_"@,
    };
    let pdi = match crate::clearing_house::replica::named_pdi(s, dst) {
        Some(p) => p,
        None => 0,
    };
    let id = match crate::clearing_house::misc_events::stable_token(token) {
        Some(t) => t,
        None => 0,
    };
    if let Some(a) = amount {
        lemma_transfers_keep(s, to, a.micro, pdi);
        lemma_transfers_keep(s, to, a.wei, id);
    }
}

proof fn lemma_system_keeps(
    s: StateModel,
    user: Option<String>,
    destination: Option<String>,
    token: Option<String>,
    amount: Option<Amount>,
)
    ensures
        same_markets(
            s,
            crate::clearing_house::misc_events::system_effect(
                s,
                user,
                destination,
                token,
                amount,
            ).0,
        ),
{
    let from = crate::clearing_house::misc_events::lowered(user);
    let to = crate::clearing_house::misc_events::lowered(destination);
    if let Some(a) = amount {
        if let Some(t) = crate::clearing_house::misc_events::stable_token(token) {
            lemma_transfers_keep(s, to, a.wei, t);
            lemma_transfers_keep(s, from, crate::clearing_house::replica::negated(a.wei), t);
        }
    }
}

// ── Transfers ────────────────────────────────────────────────────────────

/// A transfer never makes a full user of someone known without positions, nor touches any position:
/// on every dex the same users stay full users, with the same positions and settings.
pub proof fn law_transfer_promotes_nobody(s: StateModel, user: Seq<char>, delta: i64, i: int)
    requires
        0 <= i < s.dexes.len(),
    ensures
        ({
            let t = crate::clearing_house::state::state_credited(s, user, delta);
            &&& t.dexes[i].users.dom() =~= s.dexes[i].users.dom()
            &&& forall|u: Seq<char>| #[trigger]
                s.dexes[i].users.contains_key(u) ==> t.dexes[i].users[u].positions
                    == s.dexes[i].users[u].positions && t.dexes[i].users[u].leverage_settings
                    == s.dexes[i].users[u].leverage_settings
        }),
{
}

proof fn lemma_first_same(
    a: Seq<DexModel>,
    b: Seq<DexModel>,
    p: spec_fn(DexModel) -> bool,
    i: int,
)
    requires
        a.len() == b.len(),
        forall|j: int| 0 <= j < a.len() ==> p(#[trigger] a[j]) == p(b[j]),
        0 <= i,
    ensures
        crate::clearing_house::state::first_dex(a, p, i) == crate::clearing_house::state::first_dex(
            b,
            p,
            i,
        ),
    decreases a.len() - i,
{
    if i < a.len() {
        assert(p(a[i]) == p(b[i]));
        if !p(a[i]) {
            lemma_first_same(a, b, p, i + 1);
        }
    }
}

/// Whether some dex knows the user.
pub open spec fn is_known(s: StateModel, u: Seq<char>) -> bool {
    exists|i: int|
        0 <= i < s.dexes.len() && ((#[trigger] s.dexes[i]).users.contains_key(u)
            || s.dexes[i].partials.contains_key(u))
}

/// Taking back a transfer to a user whom some dex knows restores the state.
pub proof fn law_transfer_can_be_taken_back(s: StateModel, user: Seq<char>, delta: i64)
    requires
        is_known(s, crate::text::lowercase(user)),
    ensures
        crate::clearing_house::state::state_credited(
            crate::clearing_house::state::state_credited(s, user, delta),
            user,
            crate::clearing_house::replica::negated(delta),
        ) == s,
{
    let u = crate::text::lowercase(user);
    let t = crate::clearing_house::state::state_credited(s, user, delta);
    let p = |d: DexModel| d.users.contains_key(u);
    let q = |d: DexModel| d.partials.contains_key(u);
    let i = crate::clearing_house::state::transfer_dex(s.dexes, u);
    lemma_transfer_dex_knows(s, u);
    lemma_first_same(s.dexes, t.dexes, p, 0);
    lemma_first_same(s.dexes, t.dexes, q, 0);
    assert(crate::clearing_house::state::transfer_dex(t.dexes, u) == i);
    let back = crate::clearing_house::state::state_credited(
        t,
        user,
        crate::clearing_house::replica::negated(delta),
    );
    let d = s.dexes[i];
    if d.users.contains_key(u) {
        assert(back.dexes[i].users =~= d.users);
    } else {
        assert(back.dexes[i].partials =~= d.partials);
    }
    assert(back.dexes =~= s.dexes);
}

proof fn lemma_first_finds(dexes: Seq<DexModel>, p: spec_fn(DexModel) -> bool, i: int, k: int)
    requires
        0 <= i <= k < dexes.len(),
        p(dexes[k]),
    ensures
        i <= crate::clearing_house::state::first_dex(dexes, p, i) <= k,
        p(dexes[crate::clearing_house::state::first_dex(dexes, p, i)]),
    decreases dexes.len() - i,
{
    if !p(dexes[i]) {
        lemma_first_finds(dexes, p, i + 1, k);
    }
}

proof fn lemma_transfer_dex_knows(s: StateModel, u: Seq<char>)
    requires
        is_known(s, u),
    ensures
        ({
            let i = crate::clearing_house::state::transfer_dex(s.dexes, u);
            0 <= i < s.dexes.len() && (s.dexes[i].users.contains_key(u)
                || s.dexes[i].partials.contains_key(u))
        }),
{
    let k = choose|i: int|
        0 <= i < s.dexes.len() && ((#[trigger] s.dexes[i]).users.contains_key(u)
            || s.dexes[i].partials.contains_key(u));
    let p = |d: DexModel| d.users.contains_key(u);
    let q = |d: DexModel| d.partials.contains_key(u);
    lemma_first_bounds(s.dexes, p, 0);
    if s.dexes[k].users.contains_key(u) {
        lemma_first_finds(s.dexes, p, 0, k);
    } else {
        lemma_first_finds(s.dexes, q, 0, k);
    }
}

proof fn lemma_first_bounds(dexes: Seq<DexModel>, p: spec_fn(DexModel) -> bool, i: int)
    requires
        0 <= i <= dexes.len(),
    ensures
        ({
            let k = crate::clearing_house::state::first_dex(dexes, p, i);
            i <= k <= dexes.len() && (k < dexes.len() ==> p(dexes[k]))
        }),
    decreases dexes.len() - i,
{
    if i < dexes.len() && !p(dexes[i]) {
        lemma_first_bounds(dexes, p, i + 1);
    }
}

// ── Money ────────────────────────────────────────────────────────────────

/// Whether two amounts are the same in 64-bit arithmetic.
#[verifier::opaque]
pub open spec fn same_amount(a: int, b: int) -> bool {
    (a - b) % 0x1_0000_0000_0000_0000 == 0
}

/// The money that a user has in an asset: the balance and the margin of the position there.
pub open spec fn money(u: UserModel, a: u32) -> int {
    u.usdc_balance + (if u.positions.contains_key(a) {
        crate::clearing_house::fill::carried(u.positions[a].leverage) as int
    } else {
        0
    })
}

/// Moving isolated margin neither makes nor loses money.
pub proof fn law_margin_moves_keep_money(u: UserModel, a: u32, ntli: i64)
    requires
        u.positions.contains_key(a),
    ensures
        same_amount(
            money(crate::clearing_house::state::margin_moved(u, a, ntli), a),
            money(u, a),
        ),
{
    reveal(same_amount);
}

/// A setting remembers no margin.
pub open spec fn setting_is_bare(u: UserModel, a: u32) -> bool {
    u.leverage_settings.contains_key(a) ==> crate::clearing_house::fill::carried(
        u.leverage_settings[a],
    ) == 0
}

/// What a fill costs or brings its user: the fill's balance change, or those of its two parts when
/// it turns an isolated position over.
pub open spec fn fill_result(u: UserModel, a: u32, f: FillAmounts, mode: MarginMode) -> int {
    let v = crate::clearing_house::fill::after_outside_close(u, a, f.start_szi);
    if crate::clearing_house::fill::trades_isolated(v, a, mode)
        && crate::clearing_house::fill::turns_over(f) {
        if v.positions.contains_key(a) {
            f.close_delta + f.open_delta
        } else {
            f.open_delta as int
        }
    } else {
        f.delta_u as int
    }
}

/// Sums of equal amounts are equal.
proof fn lemma_same_sum(a: int, b: int, c: int, d: int)
    requires
        same_amount(a, b),
        same_amount(c, d),
    ensures
        same_amount(a + c, b + d),
        same_amount(a - c, b - d),
{
    reveal(same_amount);
    let m = 0x1_0000_0000_0000_0000int;
    let x = (a - b) / m;
    let y = (c - d) / m;
    assert(a - b == m * x && c - d == m * y);
    assert((a + c) - (b + d) == m * (x + y)) by (nonlinear_arith)
        requires
            a - b == m * x,
            c - d == m * y,
    ;
    assert((a - c) - (b - d) == m * (x - y)) by (nonlinear_arith)
        requires
            a - b == m * x,
            c - d == m * y,
    ;
    vstd::arithmetic::div_mod::lemma_mod_multiples_basic(x + y, m);
    vstd::arithmetic::div_mod::lemma_mod_multiples_basic(x - y, m);
    assert(m * (x + y) == (x + y) * m) by (nonlinear_arith);
    assert(m * (x - y) == (x - y) * m) by (nonlinear_arith);
}

/// Sums and differences of 64-bit amounts are sums and differences.
proof fn lemma_wrapped(x: i64, y: i64)
    ensures
        same_amount(x.wrapping_add(y) as int, x + y),
        same_amount(x.wrapping_sub(y) as int, x - y),
{
    reveal(same_amount);
}

/// Every amount is the same as itself.
proof fn lemma_same_reflexive(a: int)
    ensures
        same_amount(a, a),
{
    reveal(same_amount);
}

/// Equality of amounts is transitive.
proof fn lemma_same_transitive(a: int, b: int, c: int)
    requires
        same_amount(a, b),
        same_amount(b, c),
    ensures
        same_amount(a, c),
        same_amount(b, a),
{
    reveal(same_amount);
    lemma_same_sum(a, b, b, c);
    lemma_same_sum(b, b, a, b);
}

proof fn lemma_outside_close_money(u: UserModel, a: u32, start: i64)
    ensures
        same_amount(
            money(crate::clearing_house::fill::after_outside_close(u, a, start), a),
            money(u, a),
        ),
{
    reveal(same_amount);
    if u.positions.contains_key(a) {
        lemma_wrapped(
            u.usdc_balance,
            crate::clearing_house::fill::carried(u.positions[a].leverage),
        );
    }
}

proof fn lemma_turn_over_money(u: UserModel, a: u32, f: FillAmounts, table: u32, mode: MarginMode)
    requires
        crate::clearing_house::fill::trades_isolated(u, a, mode),
        u.positions.contains_key(a) || u.leverage_settings.contains_key(a),
    ensures
        same_amount(
            money(crate::clearing_house::fill::after_turn_over(u, a, f, table), a),
            money(u, a) + (if u.positions.contains_key(a) {
                f.close_delta + f.open_delta
            } else {
                f.open_delta as int
            }),
        ),
{
    reveal(same_amount);
    let w = crate::clearing_house::fill::after_turn_over(u, a, f, table);
    let closed = crate::clearing_house::fill::without_position(u, a);
    let had = if u.positions.contains_key(a) {
        crate::clearing_house::fill::carried(u.positions[a].leverage)
    } else {
        0
    };
    let returned = if u.positions.contains_key(a) {
        had.wrapping_add(f.close_delta)
    } else {
        0
    };
    let margin = crate::clearing_house::fill::margin_for(
        f.open_notional,
        crate::clearing_house::fill::deposit_multiple(closed, a),
    );
    let b1 = u.usdc_balance.wrapping_add(returned);
    let r1 = f.open_delta.wrapping_add(margin);
    assert(closed.leverage_settings.contains_key(a));
    assert(closed.leverage_settings[a] is Isolated);
    assert(w.usdc_balance == b1.wrapping_sub(margin));
    assert(crate::clearing_house::fill::carried(w.positions[a].leverage) == r1);
    lemma_wrapped(had, f.close_delta);
    lemma_wrapped(u.usdc_balance, returned);
    lemma_wrapped(b1, margin);
    lemma_wrapped(f.open_delta, margin);
    let total: int = if u.positions.contains_key(a) {
        had + f.close_delta
    } else {
        0
    };
    assert(same_amount(returned as int, total));
    lemma_same_sum(b1 as int, u.usdc_balance + returned, margin as int, margin as int);
    lemma_same_transitive(w.usdc_balance as int, b1 - margin, u.usdc_balance + returned - margin);
    lemma_same_sum(
        u.usdc_balance - margin,
        u.usdc_balance - margin,
        returned as int,
        total,
    );
    lemma_same_transitive(
        w.usdc_balance as int,
        u.usdc_balance + returned - margin,
        u.usdc_balance - margin + total,
    );
    lemma_same_sum(
        w.usdc_balance as int,
        u.usdc_balance - margin + total,
        r1 as int,
        f.open_delta + margin,
    );
}

proof fn lemma_deposit_money(u: UserModel, margin: i64)
    requires
        !u.account_mode.shared(),
    ensures
        ({
            let (p, deficit) = crate::clearing_house::fill::after_deposit(u, margin);
            &&& same_amount(p.usdc_balance - deficit, u.usdc_balance - margin)
            &&& p == (UserModel { usdc_balance: p.usdc_balance, ..u })
        }),
{
    reveal(same_amount);
    lemma_wrapped(u.usdc_balance, margin);
    let local = if u.usdc_balance > 0 {
        u.usdc_balance
    } else {
        0
    };
    lemma_wrapped(u.usdc_balance, local);
    lemma_wrapped(margin, local);
    lemma_same_sum(
        u.usdc_balance.wrapping_sub(local) as int,
        u.usdc_balance - local,
        margin.wrapping_sub(local) as int,
        margin - local,
    );
}

proof fn lemma_close_money(u: UserModel, a: u32, f: FillAmounts, isolated: bool)
    requires
        isolated ==> u.positions.contains_key(a) && u.positions[a].leverage is Isolated,
        !isolated ==> !(u.positions.contains_key(a) && u.positions[a].leverage is Isolated),
    ensures
        same_amount(
            money(crate::clearing_house::fill::after_close(u, a, f, isolated), a),
            money(u, a) + (if isolated {
                f.delta_u as int
            } else {
                0
            }),
        ),
{
    reveal(same_amount);
    if isolated {
        let had = crate::clearing_house::fill::carried(u.positions[a].leverage);
        let r = had.wrapping_add(f.delta_u);
        lemma_wrapped(had, f.delta_u);
        lemma_wrapped(u.usdc_balance, r);
        lemma_same_sum(
            u.usdc_balance as int,
            u.usdc_balance as int,
            r as int,
            had + f.delta_u,
        );
        lemma_same_transitive(
            u.usdc_balance.wrapping_add(r) as int,
            u.usdc_balance + r,
            u.usdc_balance + had + f.delta_u,
        );
    }
}

proof fn lemma_resize_money(
    u: UserModel,
    a: u32,
    f: FillAmounts,
    mode: MarginMode,
    table: u32,
    max_lev: u32,
)
    requires
        u.positions.contains_key(a) || setting_is_bare(u, a),
    ensures
        ({
            let w = crate::clearing_house::fill::after_resize(u, a, f, mode, table, max_lev);
            let p = crate::clearing_house::fill::worked_position(u, a, mode, table, max_lev);
            same_amount(
                money(w, a),
                money(u, a) + (if p.leverage is Isolated {
                    f.delta_u + (if crate::clearing_house::fill::adds(f) {
                        crate::clearing_house::fill::margin_for(
                            f.notional,
                            crate::clearing_house::fill::multiple(p.leverage),
                        ) as int
                    } else {
                        0
                    })
                } else {
                    0
                }),
            )
        }),
{
    reveal(same_amount);
    let w = crate::clearing_house::fill::after_resize(u, a, f, mode, table, max_lev);
    let p = crate::clearing_house::fill::worked_position(u, a, mode, table, max_lev);
    if p.leverage is Isolated {
        let had = crate::clearing_house::fill::carried(p.leverage);
        let raw = had.wrapping_add(f.delta_u);
        let margin: i64 = if crate::clearing_house::fill::adds(f) {
            crate::clearing_house::fill::margin_for(
                f.notional,
                crate::clearing_house::fill::multiple(p.leverage),
            )
        } else {
            0
        };
        let released = crate::clearing_house::fill::margin_released(f);
        let r2 = raw.wrapping_add(margin);
        let r3 = r2.wrapping_sub(released);
        lemma_wrapped(had, f.delta_u);
        lemma_wrapped(raw, margin);
        lemma_wrapped(r2, released);
        lemma_wrapped(u.usdc_balance, released);
        lemma_same_sum(raw as int, had + f.delta_u, margin as int, margin as int);
        lemma_same_transitive(r2 as int, raw + margin, had + f.delta_u + margin);
        lemma_same_sum(r2 as int, had + f.delta_u + margin, released as int, released as int);
        lemma_same_transitive(r3 as int, r2 - released, had + f.delta_u + margin - released);
        lemma_same_sum(
            w.usdc_balance as int,
            u.usdc_balance + released,
            r3 as int,
            had + f.delta_u + margin - released,
        );
    } else {
        lemma_wrapped(u.usdc_balance, 0);
    }
}

/// A fill changes the money of a user who does not share USDC by exactly what the fill costs or
/// brings; margin that the balance cannot pay is owed by dex 0. The user has a position or a setting
/// for the asset, or the market's default is cross margin; and an isolated fill that leaves no
/// position closes one.
pub proof fn law_fill_accounts_for_money(
    u: UserModel,
    a: u32,
    f: FillAmounts,
    mode: MarginMode,
    table: u32,
    max_lev: u32,
)
    requires
        !u.account_mode.shared(),
        setting_is_bare(u, a),
        ({
            let v = crate::clearing_house::fill::after_outside_close(u, a, f.start_szi);
            &&& v.positions.contains_key(a) || v.leverage_settings.contains_key(a) || mode is Normal
            &&& crate::clearing_house::fill::trades_isolated(v, a, mode) && f.new_szi == 0
                ==> v.positions.contains_key(a) && !crate::clearing_house::fill::adds(f)
        }),
    ensures
        ({
            let o = crate::clearing_house::fill::fill_outcome(u, a, f, mode, table, max_lev);
            same_amount(money(o.user, a) - o.deficit, money(u, a) + fill_result(u, a, f, mode))
        }),
{
    let v = crate::clearing_house::fill::after_outside_close(u, a, f.start_szi);
    lemma_outside_close_money(u, a, f.start_szi);
    assert(v.positions.contains_key(a) || setting_is_bare(v, a));
    let gain = fill_result(u, a, f, mode);
    lemma_same_reflexive(gain);
    if crate::clearing_house::fill::trades_isolated(v, a, mode) {
        if crate::clearing_house::fill::turns_over(f) {
            let w = crate::clearing_house::fill::after_turn_over(v, a, f, table);
            lemma_turn_over_money(v, a, f, table, mode);
            lemma_same_sum(money(v, a), money(u, a), gain, gain);
            lemma_same_transitive(money(w, a), money(v, a) + gain, money(u, a) + gain);
        } else {
            lemma_isolated_money(u, a, f, mode, table, max_lev);
        }
    } else {
        lemma_cross_money(u, a, f, mode, table, max_lev);
    }
}

/// Two steps that book their parts book the whole.
proof fn lemma_two_steps(
    end: int,
    paid: int,
    mid: int,
    start: int,
    deficit: int,
    first: int,
    second: int,
)
    requires
        same_amount(mid, start),
        same_amount(paid - deficit, mid + first),
        same_amount(end, paid + second),
    ensures
        same_amount(end - deficit, start + first + second),
{
    lemma_same_reflexive(deficit);
    lemma_same_reflexive(second);
    lemma_same_reflexive(first + second);
    lemma_same_sum(end, paid + second, deficit, deficit);
    lemma_same_sum(paid - deficit, mid + first, second, second);
    lemma_same_transitive(end - deficit, paid + second - deficit, mid + first + second);
    lemma_same_sum(mid, start, first + second, first + second);
    lemma_same_transitive(end - deficit, mid + first + second, start + first + second);
}

proof fn lemma_cross_money(
    u: UserModel,
    a: u32,
    f: FillAmounts,
    mode: MarginMode,
    table: u32,
    max_lev: u32,
)
    requires
        !crate::clearing_house::fill::trades_isolated(
            crate::clearing_house::fill::after_outside_close(u, a, f.start_szi),
            a,
            mode,
        ),
    ensures
        ({
            let o = crate::clearing_house::fill::fill_outcome(u, a, f, mode, table, max_lev);
            o.deficit == 0 && same_amount(money(o.user, a), money(u, a) + f.delta_u)
        }),
{
    let o = crate::clearing_house::fill::fill_outcome(u, a, f, mode, table, max_lev);
    let v = crate::clearing_house::fill::after_outside_close(u, a, f.start_szi);
    let paid = UserModel { usdc_balance: v.usdc_balance.wrapping_add(f.delta_u), ..v };
    lemma_outside_close_money(u, a, f.start_szi);
    lemma_wrapped(v.usdc_balance, f.delta_u);
    let rest = money(v, a) - v.usdc_balance;
    lemma_same_reflexive(rest);
    lemma_same_sum(paid.usdc_balance as int, v.usdc_balance + f.delta_u, rest, rest);
    assert(money(paid, a) == paid.usdc_balance + rest);
    assert(crate::clearing_house::fill::trades_isolated(paid, a, mode)
        == crate::clearing_house::fill::trades_isolated(v, a, mode));
    if f.new_szi == 0 {
        lemma_close_money(paid, a, f, false);
        assert(o.user == crate::clearing_house::fill::after_close(paid, a, f, false));
    } else {
        let p = crate::clearing_house::fill::worked_position(paid, a, mode, table, max_lev);
        assert(p.leverage is Cross);
        assert(paid.positions.contains_key(a) || setting_is_bare(paid, a));
        lemma_resize_money(paid, a, f, mode, table, max_lev);
        assert(o.user == crate::clearing_house::fill::after_resize(
            paid,
            a,
            f,
            mode,
            table,
            max_lev,
        ));
    }
    lemma_two_steps(
        money(o.user, a),
        money(paid, a),
        money(v, a),
        money(u, a),
        0,
        f.delta_u as int,
        0,
    );
}

proof fn lemma_isolated_money(
    u: UserModel,
    a: u32,
    f: FillAmounts,
    mode: MarginMode,
    table: u32,
    max_lev: u32,
)
    requires
        !u.account_mode.shared(),
        setting_is_bare(u, a),
        !crate::clearing_house::fill::turns_over(f),
        ({
            let v = crate::clearing_house::fill::after_outside_close(u, a, f.start_szi);
            &&& crate::clearing_house::fill::trades_isolated(v, a, mode)
            &&& v.positions.contains_key(a) || v.leverage_settings.contains_key(a)
            &&& f.new_szi == 0 ==> v.positions.contains_key(a)
                && !crate::clearing_house::fill::adds(f)
        }),
    ensures
        ({
            let o = crate::clearing_house::fill::fill_outcome(u, a, f, mode, table, max_lev);
            same_amount(money(o.user, a) - o.deficit, money(u, a) + f.delta_u)
        }),
{
    let o = crate::clearing_house::fill::fill_outcome(u, a, f, mode, table, max_lev);
    let v = crate::clearing_house::fill::after_outside_close(u, a, f.start_szi);
    let lev = crate::clearing_house::fill::deposit_multiple(v, a);
    let margin = crate::clearing_house::fill::margin_for(f.notional, lev);
    let paying = crate::clearing_house::fill::adds(f) && lev > 0;
    lemma_outside_close_money(u, a, f.start_szi);
    lemma_deposit_money(v, margin);
    lemma_same_reflexive(v.usdc_balance as int);
    let (paid, deficit) = if paying {
        crate::clearing_house::fill::after_deposit(v, margin)
    } else {
        (v, 0)
    };
    let first: int = if paying {
        -margin
    } else {
        0
    };
    assert(paid == (UserModel { usdc_balance: paid.usdc_balance, ..v }));
    let rest = money(v, a) - v.usdc_balance;
    lemma_same_reflexive(rest);
    lemma_same_sum(paid.usdc_balance - deficit, v.usdc_balance + first, rest, rest);
    assert(money(paid, a) == paid.usdc_balance + rest);
    assert(o.deficit == deficit);
    if f.new_szi == 0 {
        lemma_close_money(paid, a, f, true);
        assert(o.user == crate::clearing_house::fill::after_close(paid, a, f, true));
    } else {
        let p = crate::clearing_house::fill::worked_position(paid, a, mode, table, max_lev);
        assert(p.leverage is Isolated);
        assert(crate::clearing_house::fill::multiple(p.leverage) == lev);
        lemma_resize_money(paid, a, f, mode, table, max_lev);
        assert(o.user == crate::clearing_house::fill::after_resize(
            paid,
            a,
            f,
            mode,
            table,
            max_lev,
        ));
    }
    lemma_two_steps(
        money(o.user, a),
        money(paid, a),
        money(v, a),
        money(u, a),
        deficit as int,
        first,
        f.delta_u - first,
    );
}

// ── Leverage settings ────────────────────────────────────────────────────

/// A leverage update lasts until the first fill: a fill that opens a position for a user without one
/// opens it in the mode and with the multiple that were set.
pub proof fn law_setting_lasts_until_fill(
    d: DexModel,
    u: Seq<char>,
    ai: usize,
    is_cross: bool,
    leverage: u32,
    f: FillAmounts,
)
    requires
        ai < d.universe.len(),
        !crate::clearing_house::fill::user_met(d, u).positions.contains_key(ai as u32),
        f.new_szi != 0,
    ensures
        ({
            let e = crate::clearing_house::state::dex_relevered(
                d,
                u,
                ai as u32,
                is_cross,
                leverage,
            );
            let p = crate::clearing_house::fill::dex_after_fill(e, u, ai, f).users[u].positions[
            ai as u32];
            &&& p.leverage is Cross <==> is_cross
            &&& crate::clearing_house::fill::multiple(p.leverage) == leverage
        }),
{
    let a = ai as u32;
    let e = crate::clearing_house::state::dex_relevered(d, u, a, is_cross, leverage);
    let met = crate::clearing_house::fill::user_met(e, u);
    assert(!met.positions.contains_key(a));
    assert(met.leverage_settings.contains_key(a));
    assert(met.leverage_settings[a] == crate::clearing_house::state::leverage_setting(
        is_cross,
        leverage,
    ));
}

// ── Nothing counts twice ─────────────────────────────────────────────────

/// Whether an action changes nothing in a state: it failed, is of a kind without effect or is a vote on a
/// deposit that is known, and it sets no oracle prices, which count even where the action failed.
pub open spec fn is_idle(s: StateModel, a: SignedAction, resp: Option<ActionResp>) -> bool {
    let known = match a.action {
        Action::VoteEthDepositAction { eth_id, .. } => s.nonces.contains(
            crate::clearing_house::replica::deposit_key(eth_id@),
        ),
        _ => false,
    };
    &&& a.action.ignored() || known || (resp matches Some(r) && !r.succeeded())
    &&& !(a.action is PerpDeploy)
}

/// The response to an action, where there is one.
pub open spec fn resp_to(resps: Option<Resps>, bi: int, ai: int) -> Option<ActionResp> {
    match crate::clearing_house::replica::bundle_resps(resps, bi) {
        Some(rs) if ai < rs.len() => Some(rs[ai]),
        _ => None,
    }
}

/// Whether all actions of the first `n` bundles change nothing in a state.
pub open spec fn all_idle(
    s: StateModel,
    bundles: Seq<(String, ActionBundle)>,
    resps: Option<Resps>,
    n: int,
) -> bool {
    forall|bi: int, ai: int|
        0 <= bi < n && 0 <= ai < bundles[bi].1.signed_actions@.len() ==> #[trigger] is_idle(
            s,
            bundles[bi].1.signed_actions@[ai],
            resp_to(resps, bi, ai),
        )
}

proof fn lemma_idle_bundle(
    s: StateModel,
    bundles: Seq<(String, ActionBundle)>,
    resps: Option<Resps>,
    bi: int,
    n: int,
)
    requires
        0 <= bi < bundles.len(),
        all_idle(s, bundles, resps, bundles.len() as int),
        0 <= n <= bundles[bi].1.signed_actions@.len(),
    ensures
        crate::clearing_house::replica::bundle_effect(
            crate::clearing_house::replica::no_effect(s),
            bundles[bi].1.signed_actions@,
            crate::clearing_house::replica::bundle_resps(resps, bi),
            n,
        ) == crate::clearing_house::replica::no_effect(s),
        crate::clearing_house::replica::bundle_deploys(s, bundles[bi].1.signed_actions@, n) == s,
    decreases n,
{
    if n > 0 {
        lemma_idle_bundle(s, bundles, resps, bi, n - 1);
        assert(is_idle(s, bundles[bi].1.signed_actions@[n - 1], resp_to(resps, bi, n - 1)));
        assert(Set::<Seq<char>>::empty().union(Set::empty()) =~= Set::<Seq<char>>::empty());
    }
}

proof fn lemma_idle_bundles(
    s: StateModel,
    bundles: Seq<(String, ActionBundle)>,
    resps: Option<Resps>,
    n: int,
)
    requires
        0 <= n <= bundles.len(),
        all_idle(s, bundles, resps, bundles.len() as int),
    ensures
        crate::clearing_house::replica::bundles_effect(s, bundles, resps, n)
            == crate::clearing_house::replica::no_effect(s),
        crate::clearing_house::replica::bundles_deploys(s, bundles, n) == s,
    decreases n,
{
    if n > 0 {
        lemma_idle_bundles(s, bundles, resps, n - 1);
        lemma_idle_bundle(
            s,
            bundles,
            resps,
            n - 1,
            bundles[n - 1].1.signed_actions@.len() as int,
        );
    }
}

/// A block whose actions failed, are of kinds that are unknown or without effect, or are votes on
/// deposits that are known, leaves the state as it is and counts as no one's action.
pub proof fn law_idle_blocks_change_nothing(s: StateModel, block: ReplicaBlock)
    requires
        all_idle(
            s,
            block.abci_block.signed_action_bundles@,
            block.resps,
            block.abci_block.signed_action_bundles@.len() as int,
        ),
    ensures
        crate::clearing_house::replica::block_effect(s, block).state == s,
        crate::clearing_house::replica::block_effect(s, block).users == Set::<Seq<char>>::empty(),
{
    let bundles = block.abci_block.signed_action_bundles@;
    lemma_idle_bundles(s, bundles, block.resps, bundles.len() as int);
    assert(crate::clearing_house::replica::counted_all(s.action_counts, Set::empty())
        =~= s.action_counts);
}

/// A deposit on which several validators vote is credited once: after a vote on it, the next one
/// changes nothing, credits nobody and counts as no one's action.
pub proof fn law_deposits_count_once(
    s: StateModel,
    vote: Action,
    again: Action,
    actor: Option<Seq<char>>,
    other: Option<Seq<char>>,
)
    requires
        vote is VoteEthDepositAction,
        again is VoteEthDepositAction,
        vote->VoteEthDepositAction_eth_id@ == again->VoteEthDepositAction_eth_id@,
    ensures
        ({
            let t = crate::clearing_house::replica::effect_of(s, vote, actor).state;
            crate::clearing_house::replica::effect_of(t, again, other)
                == crate::clearing_house::replica::no_effect(t)
        }),
{
}

/// A withdrawal from a vault that a block has brought with its amount is not counted again when the
/// ledger tells of it.
pub proof fn law_withdrawals_count_once(
    s: StateModel,
    vault_address: String,
    usd: i64,
    ev: LedgerUpdateEvent,
    user: Option<String>,
    vault: Option<String>,
    net_micro: Option<i64>,
)
    requires
        usd != 0,
        ev.delta == (LedgerDelta::VaultWithdraw { user, vault, net_micro }),
        crate::text::lowercase(vault_address@) == crate::clearing_house::misc_events::lowered(vault),
    ensures
        ({
            let actor = crate::clearing_house::misc_events::lowered(user);
            let t = crate::clearing_house::replica::effect_of(
                s,
                Action::VaultTransfer { vault_address, is_deposit: false, usd },
                Some(actor),
            ).state;
            crate::clearing_house::misc_events::ledger_effect(t, ev) == (t, false)
        }),
{
}

/// What blocks bring is left alone when the ledger tells of it too.
pub proof fn law_ledger_leaves_blocks_alone(s: StateModel, ev: LedgerUpdateEvent)
    requires
        ev.delta is Deposit || ev.delta is Withdraw || ev.delta is InternalTransfer
            || ev.delta is SubAccountTransfer || ev.delta is VaultCreate || ev.delta is VaultDeposit
            || ev.delta is BorrowLend || ev.delta is SpotGenesis || ev.delta is CStakingTransfer
            || ev.delta is PerpDexClassTransfer || ev.delta is Unknown,
    ensures
        crate::clearing_house::misc_events::ledger_effect(s, ev) == (s, false),
{
}

} // verus!

//! What ledger updates, funding and borrowing do, told by what stands in the state before and after
//! them.
use crate::clearing_house::action_laws::{
    balance,
    is_charged,
    is_dex,
    is_home,
    is_paid,
    is_transfer,
    lemma_dex,
    lemma_home,
    lemma_home_stays,
    lemma_moved,
    only_balances_differ,
    same_beside_dexes,
    same_market,
    shared_becomes,
    shared_of,
    shares_anywhere,
    shares_here,
};
use crate::clearing_house::fill_laws::user_on;
use crate::clearing_house::misc_events::{
    ledger_effect,
    Amount,
    LedgerDelta,
    LedgerUpdateEvent,
    MiscEvent,
    MiscEventInner,
};
use crate::clearing_house::{DexModel, Leverage, Position, StateModel, UserModel};
use vstd::prelude::*;

verus! {

// ── Words ────────────────────────────────────────────────────────────────

/// The key of a user whom a ledger update names.
pub open spec fn key_of(name: Seq<char>) -> Seq<char> {
    crate::text::lowercase(crate::text::lowercase(name))
}

/// The key of a user whom a ledger update may name.
pub open spec fn key_in(name: Option<String>) -> Seq<char> {
    if name is Some {
        key_of(name->0@)
    } else {
        key_of(Seq::empty())
    }
}

/// Whether a name is in lower case the address of the bridge.
pub open spec fn is_bridge(name: Option<String>) -> bool {
    name is Some && crate::text::lowercase(name->0@)
        == "0x6b9e773128f453f5c2c60935ee2de2cbc5390a24"@
}

/// Whether a name is in lower case the address of a system account.
pub open spec fn is_system(name: Option<String>) -> bool {
    "0x2000000000000000000000000000000000"@.is_prefix_of(
        crate::text::lowercase(
            if name is Some {
                name->0@
            } else {
                Seq::empty()
            },
        ),
    )
}

/// Whether a name is given, and is something in lower case.
pub open spec fn is_someone(name: Option<String>) -> bool {
    crate::text::lowercase(
        if name is Some {
            name->0@
        } else {
            Seq::empty()
        },
    ).len() > 0
}

/// Whether a token, by its name, is the one with the id; no name means USDC.
pub open spec fn is_token(name: Option<String>, id: u32) -> bool {
    ||| id == 0 && (name is None || name->0@ == "USDC"@)
    ||| id == 360 && name is Some && name->0@ == "USDH"@
    ||| id == 235 && name is Some && name->0@ == "USDE"@
}

proof fn lemma_tokens(name: Option<String>, id: u32)
    requires
        is_token(name, id),
    ensures
        crate::clearing_house::misc_events::stable_token(name) == Some(id),
{
    reveal_strlit("USDC");
    reveal_strlit("USDH");
    reveal_strlit("USDE");
    assert("USDC"@[3] == 'C' && "USDH"@[3] == 'H' && "USDE"@[3] == 'E');
}

// ── Vaults, rewards and fees ─────────────────────────────────────────────

/// A distribution leaves the home of the vault.
pub proof fn law_distributions_leave_the_vault(
    s: StateModel,
    ev: LedgerUpdateEvent,
    vault: String,
    micro: i64,
    i: int,
)
    requires
        ev.delta == (LedgerDelta::VaultDistribution { vault, micro }),
        is_home(s, key_of(vault@), i),
    ensures
        is_charged(s, ledger_effect(s, ev).0, i, key_of(vault@), micro),
        ledger_effect(s, ev).1,
{
    lemma_home(s, key_of(vault@), i);
}

/// A commission goes from the home of the vault to that of its leader, the first user of the update.
pub proof fn law_commissions_go_to_the_leader(
    s: StateModel,
    ev: LedgerUpdateEvent,
    vault: String,
    micro: i64,
    i: int,
    j: int,
)
    requires
        ev.delta == (LedgerDelta::VaultLeaderCommission { vault, micro }),
        ev.users@.len() > 0,
        key_of(vault@) != key_of(ev.users@[0]@),
        is_home(s, key_of(vault@), i),
        is_home(s, key_of(ev.users@[0]@), j),
    ensures
        is_transfer(
            s,
            ledger_effect(s, ev).0,
            i,
            key_of(vault@),
            j,
            key_of(ev.users@[0]@),
            micro,
        ),
        same_beside_dexes(s, ledger_effect(s, ev).0),
        ledger_effect(s, ev).1,
{
    lemma_moved(
        s,
        crate::text::lowercase(vault@),
        crate::text::lowercase(ev.users@[0]@),
        micro,
        i,
        j,
    );
}

/// A withdrawal from a vault goes from its home to that of the user, unless it was applied before;
/// without an amount or a user it does not count.
pub proof fn law_vault_withdrawals_reach_the_user(
    s: StateModel,
    ev: LedgerUpdateEvent,
    user: Option<String>,
    vault: Option<String>,
    micro: Option<i64>,
    i: int,
    j: int,
)
    requires
        ev.delta == (LedgerDelta::VaultWithdraw { user, vault, net_micro: micro }),
        key_in(user) != key_in(vault),
        is_home(s, key_in(vault), i),
        is_home(s, key_in(user), j),
    ensures
        ({
            let u = crate::text::lowercase(
                if user is Some {
                    user->0@
                } else {
                    Seq::empty()
                },
            );
            let v = crate::text::lowercase(
                if vault is Some {
                    vault->0@
                } else {
                    Seq::empty()
                },
            );
            let known = s.vault_withdrawals.contains_key(v) && s.vault_withdrawals[v].contains_key(u);
            let (t, counts) = ledger_effect(s, ev);
            &&& counts == (micro is Some && u.len() > 0 && !known)
            &&& !counts ==> t == s
            &&& counts ==> is_transfer(s, t, i, key_in(vault), j, key_in(user), micro->0)
            &&& same_beside_dexes(s, t)
        }),
{
    let u = crate::clearing_house::misc_events::lowered(user);
    let v = crate::clearing_house::misc_events::lowered(vault);
    if micro is Some {
        lemma_moved(s, v, u, micro->0, i, j);
    }
}

/// Whether the users of a list are different ones.
pub open spec fn all_different(users: Seq<String>) -> bool {
    forall|a: int, b: int|
        0 <= a < b < users.len() ==> key_of((#[trigger] users[a])@) != key_of((#[trigger] users[b])@)
}

proof fn lemma_each(s: StateModel, users: Seq<String>, homes: Seq<int>, amount: i64, n: int)
    requires
        0 <= n <= users.len(),
        homes.len() == users.len(),
        all_different(users),
        forall|a: int|
            0 <= a < users.len() ==> is_home(s, key_of((#[trigger] users[a])@), homes[a]),
    ensures
        ({
            let t = crate::clearing_house::misc_events::credited_each(s, users, amount, n);
            &&& same_beside_dexes(s, t)
            &&& only_balances_differ(s, t)
            &&& forall|a: int|
                #![trigger users[a]]
                0 <= a < n ==> balance(t, homes[a], key_of(users[a]@)) == balance(
                    s,
                    homes[a],
                    key_of(users[a]@),
                ).wrapping_add(amount)
            &&& forall|k: int, v: Seq<char>|
                #![trigger balance(t, k, v)]
                0 <= k < s.dexes.len() && (forall|a: int|
                    0 <= a < n ==> !(key_of((#[trigger] users[a])@) == v && homes[a] == k)) ==> balance(
                    t,
                    k,
                    v,
                ) == balance(s, k, v)
            &&& forall|a: int|
                n <= a < users.len() ==> is_home(t, key_of((#[trigger] users[a])@), homes[a])
        }),
    decreases n,
{
    if n > 0 {
        lemma_each(s, users, homes, amount, n - 1);
        let m = crate::clearing_house::misc_events::credited_each(s, users, amount, n - 1);
        let t = crate::clearing_house::misc_events::credited_each(s, users, amount, n);
        let key = key_of(users[n - 1]@);
        let i = homes[n - 1];
        assert(is_home(m, key, i));
        lemma_home(m, key, i);
        assert(is_paid(m, t, i, key, amount));
        assert forall|a: int| n <= a < users.len() implies is_home(
            t,
            key_of((#[trigger] users[a])@),
            homes[a],
        ) by {
            assert(key_of(users[n - 1]@) != key_of(users[a]@));
            lemma_home_stays(m, t, i, key, key_of(users[a]@), homes[a]);
        }
        assert forall|k: int, v: Seq<char>|
            #![trigger user_on(t.dexes[k], v)]
            0 <= k < s.dexes.len() implies user_on(t.dexes[k], v) == (UserModel {
            usdc_balance: user_on(t.dexes[k], v).usdc_balance,
            ..user_on(s.dexes[k], v)
        }) && t.dexes[k].users.contains_key(v) == s.dexes[k].users.contains_key(v) && (!(k == i && v
            == key) ==> user_on(t.dexes[k], v) == user_on(m.dexes[k], v)) by {
            assert(user_on(m.dexes[k], v) == (UserModel {
                usdc_balance: user_on(m.dexes[k], v).usdc_balance,
                ..user_on(s.dexes[k], v)
            }));
            if v != key {
                assert(t.dexes[k].users.contains_key(v) == m.dexes[k].users.contains_key(v));
                assert(t.dexes[k].partials.contains_key(v) == m.dexes[k].partials.contains_key(v));
            }
        }
        assert forall|k: int|
            #![trigger t.dexes[k]]
            0 <= k < s.dexes.len() implies same_market(s.dexes[k], t.dexes[k]) by {
            assert(same_market(s.dexes[k], m.dexes[k]));
        }
        assert forall|a: int|
            #![trigger users[a]]
            0 <= a < n implies balance(t, homes[a], key_of(users[a]@)) == balance(
            s,
            homes[a],
            key_of(users[a]@),
        ).wrapping_add(amount) by {
            if a < n - 1 {
                assert(key_of(users[a]@) != key_of(users[n - 1]@));
                assert(user_on(t.dexes[homes[a]], key_of(users[a]@)) == user_on(
                    m.dexes[homes[a]],
                    key_of(users[a]@),
                ));
            } else {
                assert forall|b: int| 0 <= b < n - 1 implies !(key_of((#[trigger] users[b])@) == key
                    && homes[b] == i) by {
                    assert(key_of(users[b]@) != key_of(users[n - 1]@));
                }
                assert(balance(m, i, key) == balance(s, i, key));
            }
        }
        assert forall|k: int, v: Seq<char>|
            #![trigger balance(t, k, v)]
            0 <= k < s.dexes.len() && (forall|a: int|
                0 <= a < n ==> !(key_of((#[trigger] users[a])@) == v && homes[a] == k)) implies balance(
            t,
            k,
            v,
        ) == balance(s, k, v) by {
            assert(!(key_of(users[n - 1]@) == v && homes[n - 1] == k));
            assert(balance(m, k, v) == balance(s, k, v));
            assert(user_on(t.dexes[k], v) == user_on(m.dexes[k], v));
        }
    }
}

/// Each of the users has so much more at home, and nobody else has more or less.
pub open spec fn each_gets(
    s: StateModel,
    t: StateModel,
    users: Seq<String>,
    homes: Seq<int>,
    amount: i64,
) -> bool {
    &&& same_beside_dexes(s, t)
    &&& only_balances_differ(s, t)
    &&& forall|a: int|
        #![trigger users[a]]
        0 <= a < users.len() ==> balance(t, homes[a], key_of(users[a]@)) == balance(
            s,
            homes[a],
            key_of(users[a]@),
        ).wrapping_add(amount)
    &&& forall|k: int, v: Seq<char>|
        #![trigger balance(t, k, v)]
        0 <= k < s.dexes.len() && (forall|a: int|
            0 <= a < users.len() ==> !(key_of((#[trigger] users[a])@) == v && homes[a] == k))
            ==> balance(t, k, v) == balance(s, k, v)
}

/// Each user of an update gets a reward at home, or pays a fee from there.
pub proof fn law_rewards_and_fees_reach_every_user(
    s: StateModel,
    rewards: LedgerUpdateEvent,
    auction: LedgerUpdateEvent,
    gas: LedgerUpdateEvent,
    homes: Seq<int>,
    micro: i64,
)
    requires
        rewards.delta == (LedgerDelta::RewardsClaim { micro }),
        auction.delta == (LedgerDelta::DeployGasAuction { micro }),
        gas.delta == (LedgerDelta::AccountActivationGas { micro }),
        auction.users == rewards.users,
        gas.users == rewards.users,
        homes.len() == rewards.users@.len(),
        all_different(rewards.users@),
        forall|a: int|
            0 <= a < homes.len() ==> is_home(
                s,
                key_of((#[trigger] rewards.users@[a])@),
                homes[a],
            ),
    ensures
        each_gets(s, ledger_effect(s, rewards).0, rewards.users@, homes, micro),
        each_gets(
            s,
            ledger_effect(s, auction).0,
            rewards.users@,
            homes,
            0i64.wrapping_sub(micro),
        ),
        each_gets(s, ledger_effect(s, gas).0, rewards.users@, homes, 0i64.wrapping_sub(micro)),
        ledger_effect(s, rewards).1,
        ledger_effect(s, auction).1,
        ledger_effect(s, gas).1,
{
    let n = homes.len() as int;
    lemma_each(s, rewards.users@, homes, micro, n);
    lemma_each(s, rewards.users@, homes, 0i64.wrapping_sub(micro), n);
}

// ── The bridge, system accounts and sides ────────────────────────────────

/// What the bridge sends to a user: on the main dex or a named one it reaches the shared balance of who
/// shares there, with two more decimals, or else the dex. Anywhere else it is a transfer on the spot
/// exchange, in wei.
pub proof fn law_bridge_sends_arrive(
    s: StateModel,
    ev: LedgerUpdateEvent,
    user: Option<String>,
    destination: String,
    target: Option<String>,
    token: Option<String>,
    a: Amount,
    id: u32,
    i: int,
)
    requires
        ev.delta == (LedgerDelta::Send {
            user,
            destination: Some(destination),
            destination_dex: target,
            token,
            amount: Some(a),
        }),
        is_bridge(user),
        destination@.len() > 0,
        is_token(token, id),
        !s.dex_names.contains_key("_absent_"@),
        target is Some && s.dex_names.contains_key(target->0@) ==> is_dex(
            s,
            s.dex_names[target->0@],
            i,
        ),
        target is Some && target->0@.len() == 0 && !s.dex_names.contains_key(target->0@) ==> is_dex(
            s,
            0,
            i,
        ),
    ensures
        ({
            let key = key_of(destination@);
            let (t, counts) = ledger_effect(s, ev);
            let to_dex = target is Some && (target->0@.len() == 0 || s.dex_names.contains_key(
                target->0@,
            ));
            &&& counts
            &&& to_dex && shares_here(s.dexes[i], key) ==> shared_becomes(
                s,
                t,
                key,
                s.dexes[i].collateral_token,
                shared_of(s, key, s.dexes[i].collateral_token).wrapping_add(
                    a.micro.wrapping_mul(100),
                ),
            )
            &&& to_dex && !shares_here(s.dexes[i], key) ==> is_paid(s, t, i, key, a.micro)
            &&& !to_dex && shares_anywhere(s, key, id) ==> shared_becomes(
                s,
                t,
                key,
                id,
                shared_of(s, key, id).wrapping_add(a.wei),
            )
            &&& !to_dex && !shares_anywhere(s, key, id) ==> t == s
        }),
{
    reveal_strlit("_absent_");
    lemma_tokens(token, id);
    let to = crate::text::lowercase(destination@);
    crate::clearing_house::action_laws::law_spot_transfers_reach_sharers(s, to, id, a.wei);
    if target is Some && s.dex_names.contains_key(target->0@) {
        crate::clearing_house::action_laws::law_transfers_reach_the_shared_balance(
            s,
            to,
            a.micro,
            s.dex_names[target->0@],
            i,
        );
    } else if target is Some && target->0@.len() == 0 {
        crate::clearing_house::action_laws::law_transfers_reach_the_shared_balance(
            s,
            to,
            a.micro,
            0,
            i,
        );
    }
}

/// What someone other than the bridge sends does not count, and changes nothing.
pub proof fn law_other_sends_do_not_count(
    s: StateModel,
    ev: LedgerUpdateEvent,
    user: Option<String>,
    destination: Option<String>,
    target: Option<String>,
    token: Option<String>,
    amount: Option<Amount>,
)
    requires
        ev.delta == (LedgerDelta::Send {
            user,
            destination,
            destination_dex: target,
            token,
            amount,
        }),
        user is Some,
        !is_bridge(user) || amount is None,
    ensures
        ledger_effect(s, ev) == (s, false),
{
}

/// A spot transfer from a system account adds to the shared balance of the receiver, and one to a
/// system account takes from that of the sender; a transfer between others does not count here.
pub proof fn law_system_transfers(
    s: StateModel,
    ev: LedgerUpdateEvent,
    user: Option<String>,
    destination: Option<String>,
    token: Option<String>,
    a: Amount,
    id: u32,
)
    requires
        ev.delta == (LedgerDelta::SpotTransfer { user, destination, token, amount: Some(a) }),
        is_token(token, id),
    ensures
        ({
            let (t, counts) = ledger_effect(s, ev);
            let comes = is_system(user) && is_someone(destination);
            let goes = !comes && is_system(destination) && is_someone(user);
            let (from, to) = (key_in(user), key_in(destination));
            &&& counts == (comes || goes)
            &&& !counts ==> t == s
            &&& comes && shares_anywhere(s, to, id) ==> shared_becomes(
                s,
                t,
                to,
                id,
                shared_of(s, to, id).wrapping_add(a.wei),
            )
            &&& goes && shares_anywhere(s, from, id) ==> shared_becomes(
                s,
                t,
                from,
                id,
                shared_of(s, from, id).wrapping_sub(a.wei),
            )
            &&& comes && !shares_anywhere(s, to, id) ==> t == s
            &&& goes && !shares_anywhere(s, from, id) ==> t == s
        }),
{
    lemma_tokens(token, id);
    let from = crate::clearing_house::misc_events::lowered(user);
    let to = crate::clearing_house::misc_events::lowered(destination);
    crate::clearing_house::action_laws::law_spot_transfers_reach_sharers(s, to, id, a.wei);
    crate::clearing_house::action_laws::law_spot_transfers_reach_sharers(
        s,
        from,
        id,
        crate::clearing_house::replica::negated(a.wei),
    );
}

/// A transfer between the sides of an account is that of its first user: to the perps side where the
/// update says so, and to the spot side in any other case.
pub proof fn law_ledger_class_transfers(
    s: StateModel,
    ev: LedgerUpdateEvent,
    to_perp: Option<bool>,
    amount: Option<Amount>,
)
    requires
        ev.delta == (LedgerDelta::AccountClassTransfer { to_perp, amount }),
    ensures
        amount is Some && ev.users@.len() > 0 ==> ledger_effect(s, ev) == (
            crate::clearing_house::replica::effect_of(
                s,
                crate::clearing_house::replica::Action::UsdClassTransfer {
                    micro: amount->0.micro,
                    wei: amount->0.wei,
                    to_perp: to_perp is Some && to_perp->0,
                },
                Some(crate::text::lowercase(ev.users@[0]@)),
            ).state,
            true,
        ),
        amount is None || ev.users@.len() == 0 ==> ledger_effect(s, ev) == (s, false),
{
}

/// A liquidation counts and changes nothing, since fills bring what it does. Deposits, withdrawals,
/// transfers between users and everything else that blocks bring do not count.
pub proof fn law_what_blocks_bring_does_not_count(s: StateModel, ev: LedgerUpdateEvent)
    ensures
        ev.delta is Liquidation ==> ledger_effect(s, ev) == (s, true),
        ev.delta is Deposit || ev.delta is Withdraw || ev.delta is InternalTransfer || ev.delta
            is SubAccountTransfer || ev.delta is VaultCreate || ev.delta is VaultDeposit || ev.delta
            is BorrowLend || ev.delta is SpotGenesis || ev.delta is CStakingTransfer || ev.delta
            is PerpDexClassTransfer || ev.delta is Unknown ==> ledger_effect(s, ev) == (s, false),
{
}

/// The events of a batch act one behind the other; a funding event counts as one, a ledger update
/// where it counts, and others not at all.
pub proof fn law_last_event_acts_last(s: StateModel, events: Seq<MiscEvent>, last: MiscEvent)
    ensures
        ({
            let n = events.len() as int;
            let (t, funding, ledger) = crate::clearing_house::misc_events::events_effect(
                s,
                events,
                n,
            );
            let (after, f, l) = crate::clearing_house::misc_events::events_effect(
                s,
                events.push(last),
                n + 1,
            );
            &&& last.inner matches MiscEventInner::LedgerUpdate(ev) ==> after == ledger_effect(t, ev).0
                && f == funding && l == ledger + (if ledger_effect(t, ev).1 {
                1int
            } else {
                0
            })
            &&& last.inner is Funding ==> f == funding + 1 && l == ledger
            &&& last.inner matches MiscEventInner::Funding(ev) ==> ev.deltas@.len() == 1 ==> after
                == crate::clearing_house::funding::state_funded(
                t,
                ev.deltas@[0].user@,
                ev.deltas@[0].coin@,
                ev.deltas@[0].micro,
            )
            &&& !(last.inner is Funding) && !(last.inner is LedgerUpdate) ==> (after, f, l) == (
                t,
                funding,
                ledger,
            )
        }),
{
    lemma_events_prefix(s, events, events.push(last), events.len() as int);
    reveal_with_fuel(crate::clearing_house::misc_events::funding_effect, 2);
}

proof fn lemma_events_prefix(s: StateModel, a: Seq<MiscEvent>, b: Seq<MiscEvent>, n: int)
    requires
        0 <= n <= a.len(),
        a.len() <= b.len(),
        forall|i: int| 0 <= i < n ==> #[trigger] a[i] == b[i],
    ensures
        crate::clearing_house::misc_events::events_effect(s, a, n)
            == crate::clearing_house::misc_events::events_effect(s, b, n),
    decreases n,
{
    if n > 0 {
        lemma_events_prefix(s, a, b, n - 1);
        assert(a[n - 1] == b[n - 1]);
    }
}

// ── Funding ──────────────────────────────────────────────────────────────

/// A funding payment to a user who is known in full on the coin's dex. It shows as outstanding on the
/// position in the coin, and goes to the margin of an isolated position, or else to the balance; only
/// one of them changes, and no more than by the payment. Nobody else is reached.
pub proof fn law_funding_reaches_position_and_money(
    s: StateModel,
    user: Seq<char>,
    coin: Seq<char>,
    micro: i64,
)
    requires
        s.coins_valid(),
        s.coins.contains_key(coin),
        s.dexes[s.coins[coin].0 as int].users.contains_key(crate::text::lowercase(user)),
    ensures
        ({
            let key = crate::text::lowercase(user);
            let i = s.coins[coin].0 as int;
            let a = s.coins[coin].1 as u32;
            let t = crate::clearing_house::funding::state_funded(s, user, coin, Some(micro));
            let (was, now) = (s.dexes[i].users[key], t.dexes[i].users[key]);
            let (p, q) = (was.positions[a], now.positions[a]);
            let isolated = was.positions.contains_key(a) && p.leverage is Isolated;
            &&& crate::clearing_house::action_laws::differs_in(s, t, i, key)
            &&& now.usdc_balance == (if isolated {
                was.usdc_balance
            } else {
                was.usdc_balance.wrapping_add(micro)
            })
            &&& now.positions.dom() == was.positions.dom()
            &&& forall|x: u32|
                #![trigger now.positions[x]]
                x != a && was.positions.contains_key(x) ==> now.positions[x] == was.positions[x]
            &&& was.positions.contains_key(a) ==> q.outstanding_funding
                == p.outstanding_funding.wrapping_add(micro) && (q.szi, q.cost_basis, q.margin_table_id)
                == (p.szi, p.cost_basis, p.margin_table_id)
            &&& isolated ==> q.leverage == (Leverage::Isolated {
                leverage: p.leverage->leverage,
                raw_usd: p.leverage->raw_usd.wrapping_add(micro),
            })
            &&& was.positions.contains_key(a) && !isolated ==> q.leverage == p.leverage
            &&& (now.leverage_settings, now.account_mode, now.spot_collateral) == (
                was.leverage_settings,
                was.account_mode,
                was.spot_collateral,
            )
        }),
{
    let key = crate::text::lowercase(user);
    let i = s.coins[coin].0 as int;
    let t = crate::clearing_house::funding::state_funded(s, user, coin, Some(micro));
    assert(t.dexes[i].users[key].positions.dom() =~= s.dexes[i].users[key].positions.dom());
}

/// A payment of nothing, in an unknown coin, or to a user who is not known in full there, changes
/// nothing.
pub proof fn law_idle_funding(s: StateModel, user: Seq<char>, coin: Seq<char>, amount: Option<i64>)
    requires
        amount is None || !s.coins.contains_key(coin)
            || !s.dexes[s.coins[coin].0 as int].users.contains_key(crate::text::lowercase(user)),
    ensures
        crate::clearing_house::funding::state_funded(s, user, coin, amount) == s,
{
}

/// A user of a dex after all funding was settled.
pub open spec fn after_settling(s: StateModel, i: int, u: Seq<char>) -> UserModel {
    crate::clearing_house::funding::state_settled(s).dexes[i].users[u]
}

/// Settling leaves nothing outstanding. The margin of an isolated position takes up its funding; sizes,
/// cost bases, multiples, settings and markets stay as they are, and so do the users without positions.
pub proof fn law_settling_leaves_nothing_outstanding(s: StateModel, i: int, u: Seq<char>, a: u32)
    requires
        0 <= i < s.dexes.len(),
        s.dexes[i].users.contains_key(u),
    ensures
        ({
            let t = crate::clearing_house::funding::state_settled(s);
            let (was, now) = (s.dexes[i].users[u], t.dexes[i].users[u]);
            let (p, q) = (was.positions[a], now.positions[a]);
            &&& same_beside_dexes(s, t)
            &&& t.dexes.len() == s.dexes.len()
            &&& same_market(s.dexes[i], t.dexes[i])
            &&& t.dexes[i].partials == s.dexes[i].partials
            &&& t.dexes[i].users.dom() == s.dexes[i].users.dom()
            &&& now.positions.contains_key(a) == was.positions.contains_key(a)
            &&& was.positions.contains_key(a) ==> q.outstanding_funding == 0 && (
            q.szi,
            q.cost_basis,
            q.margin_table_id,
            ) == (p.szi, p.cost_basis, p.margin_table_id)
            &&& was.positions.contains_key(a) && p.leverage is Cross ==> q.leverage == p.leverage
            &&& was.positions.contains_key(a) && p.leverage is Isolated ==> q.leverage == (
            Leverage::Isolated {
                leverage: p.leverage->leverage,
                raw_usd: p.leverage->raw_usd.wrapping_add(p.outstanding_funding),
            })
            &&& (now.leverage_settings, now.account_mode, now.spot_collateral) == (
                was.leverage_settings,
                was.account_mode,
                was.spot_collateral,
            )
        }),
{
    let t = crate::clearing_house::funding::state_settled(s);
    assert(t.dexes[i].users.dom() =~= s.dexes[i].users.dom());
}

proof fn lemma_no_cross_funding(m: Map<u32, Position>, n: int)
    requires
        n <= 0x1_0000_0000,
        forall|a: u32|
            m.contains_key(a) && (#[trigger] m[a]).leverage is Cross ==> m[a].outstanding_funding == 0,
    ensures
        crate::clearing_house::funding::cross_funding(m, n) == 0,
    decreases n,
{
    if n > 0 {
        lemma_no_cross_funding(m, n - 1);
    }
}

proof fn lemma_more_cross_funding(m: Map<u32, Position>, a: u32, more: i64, n: int)
    requires
        n <= 0x1_0000_0000,
        m.contains_key(a),
    ensures
        ({
            let p = m[a];
            let w = m.insert(
                a,
                Position { outstanding_funding: p.outstanding_funding.wrapping_add(more), ..p },
            );
            crate::clearing_house::funding::cross_funding(w, n) == (if a < n && p.leverage is Cross {
                crate::clearing_house::funding::cross_funding(m, n).wrapping_add(more)
            } else {
                crate::clearing_house::funding::cross_funding(m, n)
            })
        }),
    decreases n,
{
    if n > 0 {
        lemma_more_cross_funding(m, a, more, n - 1);
        let b = (n - 1) as u32;
        assert(b == n - 1);
    }
}

/// The balance takes up the outstanding funding of every cross position and of no isolated one: it
/// stays where no cross position has any, and what one cross position has more of it, it has more
/// afterwards.
pub proof fn law_cross_funding_settles_in_the_balance(
    s: StateModel,
    t: StateModel,
    i: int,
    u: Seq<char>,
    a: u32,
    more: i64,
)
    requires
        0 <= i < s.dexes.len(),
        s.dexes[i].users.contains_key(u),
        s.dexes[i].users[u].positions.contains_key(a),
        t == (StateModel {
            dexes: s.dexes.update(
                i,
                DexModel {
                    users: s.dexes[i].users.insert(
                        u,
                        UserModel {
                            positions: s.dexes[i].users[u].positions.insert(
                                a,
                                Position {
                                    outstanding_funding: s.dexes[i].users[u].positions[a].outstanding_funding.wrapping_add(
                                        more,
                                    ),
                                    ..s.dexes[i].users[u].positions[a]
                                },
                            ),
                            ..s.dexes[i].users[u]
                        },
                    ),
                    ..s.dexes[i]
                },
            ),
            ..s
        }),
    ensures
        (forall|b: u32|
            s.dexes[i].users[u].positions.contains_key(b) && (
            #[trigger] s.dexes[i].users[u].positions[b]).leverage is Cross
                ==> s.dexes[i].users[u].positions[b].outstanding_funding == 0) ==> after_settling(
            s,
            i,
            u,
        ).usdc_balance == s.dexes[i].users[u].usdc_balance,
        s.dexes[i].users[u].positions[a].leverage is Cross ==> after_settling(t, i, u).usdc_balance
            == after_settling(s, i, u).usdc_balance.wrapping_add(more),
        s.dexes[i].users[u].positions[a].leverage is Isolated ==> after_settling(t, i, u).usdc_balance
            == after_settling(s, i, u).usdc_balance,
{
    let m = s.dexes[i].users[u].positions;
    let n = 0x1_0000_0000;
    lemma_more_cross_funding(m, a, more, n);
    if forall|b: u32|
        m.contains_key(b) && (#[trigger] m[b]).leverage is Cross ==> m[b].outstanding_funding == 0 {
        lemma_no_cross_funding(m, n);
    }
}

/// A send to nobody does not count, nor does a change of class that names no user.
pub proof fn law_events_of_nobody_do_not_count(s: StateModel, ev: LedgerUpdateEvent)
    requires
        match ev.delta {
            LedgerDelta::Send { destination, .. } => destination is None || destination->0@.len() == 0,
            LedgerDelta::SpotTransfer { amount, .. } => amount is None,
            LedgerDelta::AccountClassTransfer { amount, .. } => ev.users@.len() == 0 || amount is None,
            LedgerDelta::VaultWithdraw { net_micro, .. } => net_micro is None,
            _ => false,
        },
    ensures
        ledger_effect(s, ev) == (s, false),
{
    reveal_strlit("");
}

} // verus!

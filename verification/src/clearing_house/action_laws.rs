//! What the actions of users do, told by what stands in the state before and after them.
use crate::clearing_house::fill_laws::user_on;
use crate::clearing_house::replica::{effect_of, Action};
use crate::clearing_house::{AccountMode, DexModel, Leverage, StateModel, UserModel};
use vstd::prelude::*;

verus! {

// ── Words ────────────────────────────────────────────────────────────────

/// Whether a dex is the first with its number.
pub open spec fn is_dex(s: StateModel, pdi: u32, i: int) -> bool {
    &&& 0 <= i < s.dexes.len()
    &&& s.dexes[i].pdi == pdi
    &&& forall|j: int| 0 <= j < i ==> (#[trigger] s.dexes[j]).pdi != pdi
}

/// Whether an id names the asset `a` of the dexes with a number: on dex 0 it is the asset itself, on
/// others the number plus ten stands before the last four digits.
pub open spec fn names_asset(id: u32, pdi: u32, a: u32) -> bool {
    &&& a < 10_000
    &&& id == a && pdi == 0 || id == (pdi + 10) * 10_000 + a
}

/// Whether a dex is the one that a transfer to the user reaches: the first where the user is known in
/// full; where there is none, the first where the user is known at all; else the first of all.
pub open spec fn is_home(s: StateModel, u: Seq<char>, i: int) -> bool {
    &&& 0 <= i < s.dexes.len()
    &&& if exists|j: int| 0 <= j < s.dexes.len() && (#[trigger] s.dexes[j]).users.contains_key(u) {
        s.dexes[i].users.contains_key(u) && forall|j: int|
            0 <= j < i ==> !(#[trigger] s.dexes[j]).users.contains_key(u)
    } else if exists|j: int|
        0 <= j < s.dexes.len() && (#[trigger] s.dexes[j]).partials.contains_key(u) {
        s.dexes[i].partials.contains_key(u) && forall|j: int|
            0 <= j < i ==> !(#[trigger] s.dexes[j]).partials.contains_key(u)
    } else {
        i == 0
    }
}

/// What is on a dex apart from its users is the same.
pub open spec fn same_market(d: DexModel, e: DexModel) -> bool {
    &&& d.pdi == e.pdi
    &&& d.universe == e.universe
    &&& d.margin_tables == e.margin_tables
    &&& d.oracle_prices == e.oracle_prices
    &&& d.collateral_token == e.collateral_token
}

/// What is not on the dexes is the same.
pub open spec fn same_beside_dexes(s: StateModel, t: StateModel) -> bool {
    StateModel { dexes: s.dexes, ..t } == s
}

/// The state is the same but for one user on one dex, who is known there in full if they were before,
/// and at least in part.
pub open spec fn differs_in(s: StateModel, t: StateModel, i: int, u: Seq<char>) -> bool {
    &&& same_beside_dexes(s, t)
    &&& t.dexes.len() == s.dexes.len()
    &&& forall|j: int| 0 <= j < s.dexes.len() && j != i ==> (#[trigger] t.dexes[j]) == s.dexes[j]
    &&& same_market(s.dexes[i], t.dexes[i])
    &&& t.dexes[i].users.contains_key(u) == s.dexes[i].users.contains_key(u)
    &&& t.dexes[i].users.contains_key(u) || t.dexes[i].partials.contains_key(u)
    &&& forall|v: Seq<char>|
        #![trigger t.dexes[i].users.contains_key(v)]
        v != u ==> (t.dexes[i].users.contains_key(v) == s.dexes[i].users.contains_key(v)) && (
        s.dexes[i].users.contains_key(v) ==> t.dexes[i].users[v] == s.dexes[i].users[v])
    &&& forall|v: Seq<char>|
        #![trigger t.dexes[i].partials.contains_key(v)]
        v != u ==> (t.dexes[i].partials.contains_key(v) == s.dexes[i].partials.contains_key(v)) && (
        s.dexes[i].partials.contains_key(v) ==> t.dexes[i].partials[v] == s.dexes[i].partials[v])
}

/// The state is the same but for the balance of one user on one dex, which is so much more.
pub open spec fn is_paid(s: StateModel, t: StateModel, i: int, u: Seq<char>, amount: i64) -> bool {
    &&& differs_in(s, t, i, u)
    &&& user_on(t.dexes[i], u) == (UserModel {
        usdc_balance: user_on(s.dexes[i], u).usdc_balance.wrapping_add(amount),
        ..user_on(s.dexes[i], u)
    })
}

/// The state is the same but for the balance of one user on one dex, which is so much less.
pub open spec fn is_charged(s: StateModel, t: StateModel, i: int, u: Seq<char>, amount: i64) -> bool {
    &&& differs_in(s, t, i, u)
    &&& user_on(t.dexes[i], u) == (UserModel {
        usdc_balance: user_on(s.dexes[i], u).usdc_balance.wrapping_sub(amount),
        ..user_on(s.dexes[i], u)
    })
}

/// What a user has on a dex.
pub open spec fn balance(s: StateModel, i: int, u: Seq<char>) -> i64 {
    user_on(s.dexes[i], u).usdc_balance
}

/// Money went from one user on one dex to another user on another dex, or the same; everybody else's
/// balances, and everything that is no balance, are as before.
pub open spec fn is_transfer(
    s: StateModel,
    t: StateModel,
    i: int,
    from: Seq<char>,
    j: int,
    to: Seq<char>,
    amount: i64,
) -> bool {
    &&& t.dexes.len() == s.dexes.len()
    &&& balance(t, i, from) == balance(s, i, from).wrapping_sub(amount)
    &&& balance(t, j, to) == balance(s, j, to).wrapping_add(amount)
    &&& forall|k: int, v: Seq<char>|
        #![trigger balance(t, k, v)]
        0 <= k < s.dexes.len() && !(k == i && v == from) && !(k == j && v == to) ==> balance(t, k, v)
            == balance(s, k, v)
    &&& only_balances_differ(s, t)
}

/// Nothing but balances differs on the dexes.
pub open spec fn only_balances_differ(s: StateModel, t: StateModel) -> bool {
    &&& t.dexes.len() == s.dexes.len()
    &&& forall|k: int, v: Seq<char>|
        #![trigger user_on(t.dexes[k], v)]
        0 <= k < s.dexes.len() ==> user_on(t.dexes[k], v) == (UserModel {
            usdc_balance: user_on(t.dexes[k], v).usdc_balance,
            ..user_on(s.dexes[k], v)
        }) && t.dexes[k].users.contains_key(v) == s.dexes[k].users.contains_key(v)
    &&& forall|k: int|
        #![trigger t.dexes[k]]
        0 <= k < s.dexes.len() ==> same_market(s.dexes[k], t.dexes[k])
}

/// What a user has of a token in the shared balance.
pub open spec fn shared_of(s: StateModel, u: Seq<char>, token: u32) -> i64 {
    if s.unified.contains_key(u) && s.unified[u].contains_key(token) {
        s.unified[u][token]
    } else {
        0
    }
}

/// Whether the mode is one of those that share a balance over the dexes.
pub open spec fn mode_shares(m: AccountMode) -> bool {
    m == AccountMode::Unified || m == AccountMode::DexAbstraction
}

/// Whether a dex has the user under a mode that shares a balance over the dexes.
pub open spec fn shares_here(d: DexModel, u: Seq<char>) -> bool {
    d.users.contains_key(u) && mode_shares(d.users[u].account_mode) || d.partials.contains_key(u)
        && mode_shares(d.partials[u].account_mode)
}

/// Whether some dex that is backed by the token has the user under a mode that shares.
pub open spec fn shares_anywhere(s: StateModel, u: Seq<char>, token: u32) -> bool {
    exists|i: int|
        0 <= i < s.dexes.len() && (#[trigger] s.dexes[i]).collateral_token == token && shares_here(
            s.dexes[i],
            u,
        )
}

/// The shared balances are the same but for one, which is given.
pub open spec fn shared_becomes(
    s: StateModel,
    t: StateModel,
    u: Seq<char>,
    token: u32,
    amount: i64,
) -> bool {
    &&& shared_of(t, u, token) == amount
    &&& forall|v: Seq<char>, x: u32|
        #![trigger shared_of(t, v, x)]
        !(v == u && x == token) ==> shared_of(t, v, x) == shared_of(s, v, x)
    &&& StateModel { unified: s.unified, ..t } == s
}

/// The number of times a user was counted.
pub open spec fn count_of(s: StateModel, u: Seq<char>) -> u32 {
    if s.action_counts.contains_key(u) {
        s.action_counts[u]
    } else {
        0
    }
}

/// The mark price of an asset.
pub open spec fn mark(s: StateModel, dex: u32, a: u32) -> Option<u64> {
    if s.marks.contains_key(dex) && s.marks[dex].contains_key(a) {
        Some(s.marks[dex][a])
    } else {
        None
    }
}

// ── Finding the dex ──────────────────────────────────────────────────────

/// The first dex of which something holds is the one of which it holds while it holds of none before.
pub proof fn lemma_first_is(dexes: Seq<DexModel>, p: spec_fn(DexModel) -> bool, i: int, k: int)
    requires
        0 <= k <= i < dexes.len(),
        p(dexes[i]),
        forall|j: int| k <= j < i ==> !p(#[trigger] dexes[j]),
    ensures
        crate::clearing_house::state::first_dex(dexes, p, k) == i,
    decreases i - k,
{
    if k < i {
        assert(!p(dexes[k]));
        lemma_first_is(dexes, p, i, k + 1);
    }
}

/// There is no first dex of which something holds where it holds of none.
pub proof fn lemma_first_is_none(dexes: Seq<DexModel>, p: spec_fn(DexModel) -> bool, k: int)
    requires
        0 <= k <= dexes.len(),
        forall|j: int| k <= j < dexes.len() ==> !p(#[trigger] dexes[j]),
    ensures
        crate::clearing_house::state::first_dex(dexes, p, k) == dexes.len(),
    decreases dexes.len() - k,
{
    if k < dexes.len() {
        assert(!p(dexes[k]));
        lemma_first_is_none(dexes, p, k + 1);
    }
}

/// The first dex with a number is found.
pub proof fn lemma_dex(s: StateModel, pdi: u32, i: int)
    requires
        is_dex(s, pdi, i),
    ensures
        crate::clearing_house::state::first_dex(s.dexes, |d: DexModel| d.pdi == pdi, 0) == i,
{
    let p = |d: DexModel| d.pdi == pdi;
    lemma_first_is(s.dexes, p, i, 0);
}

proof fn lemma_parts(id: u32, pdi: u32, a: u32)
    requires
        names_asset(id, pdi, a),
    ensures
        crate::clearing_house::state::asset_parts(id) == (pdi, a),
{
}

/// A user's home dex is found.
pub proof fn lemma_home(s: StateModel, u: Seq<char>, i: int)
    requires
        is_home(s, u, i),
    ensures
        crate::clearing_house::state::transfer_dex(s.dexes, u) == i,
{
    let p = |d: DexModel| d.users.contains_key(u);
    let q = |d: DexModel| d.partials.contains_key(u);
    if exists|j: int| 0 <= j < s.dexes.len() && (#[trigger] s.dexes[j]).users.contains_key(u) {
        lemma_first_is(s.dexes, p, i, 0);
    } else {
        lemma_first_is_none(s.dexes, p, 0);
        if exists|j: int| 0 <= j < s.dexes.len() && (#[trigger] s.dexes[j]).partials.contains_key(u) {
            lemma_first_is(s.dexes, q, i, 0);
        } else {
            lemma_first_is_none(s.dexes, q, 0);
        }
    }
}

// ── Leverage ─────────────────────────────────────────────────────────────

/// A leverage update stores the mode and the multiple for the asset, with no margin, and reaches
/// nothing but its user on the dex of the asset.
pub proof fn law_leverage_is_stored(
    s: StateModel,
    u: Seq<char>,
    id: u32,
    pdi: u32,
    a: u32,
    i: int,
    is_cross: bool,
    multiple: u32,
)
    requires
        names_asset(id, pdi, a),
        is_dex(s, pdi, i),
    ensures
        ({
            let key = crate::text::lowercase(u);
            let e = effect_of(
                s,
                Action::UpdateLeverage { asset: id, is_cross, leverage: multiple },
                Some(u),
            );
            let was = user_on(s.dexes[i], key);
            let now = user_on(e.state.dexes[i], key);
            &&& e.users == set![u]
            &&& differs_in(s, e.state, i, key)
            &&& now.leverage_settings.contains_key(a)
            &&& is_cross ==> now.leverage_settings[a] == Leverage::Cross(multiple)
            &&& !is_cross ==> now.leverage_settings[a] == (Leverage::Isolated {
                leverage: multiple,
                raw_usd: 0,
            })
            &&& forall|x: u32|
                #![trigger now.leverage_settings.contains_key(x)]
                x != a ==> (now.leverage_settings.contains_key(x)
                    == was.leverage_settings.contains_key(x)) && (was.leverage_settings.contains_key(x)
                    ==> now.leverage_settings[x] == was.leverage_settings[x])
            &&& forall|x: u32|
                #![trigger now.positions.contains_key(x)]
                (now.positions.contains_key(x) == was.positions.contains_key(x)) && (x != a
                    && was.positions.contains_key(x) ==> now.positions[x] == was.positions[x])
            &&& now.usdc_balance == was.usdc_balance
            &&& now.spot_collateral == was.spot_collateral
            &&& now.spot_collateral_decimals == was.spot_collateral_decimals
            &&& now.account_mode == was.account_mode
        }),
{
    lemma_parts(id, pdi, a);
    lemma_dex(s, pdi, i);
}

/// A leverage update sets the mode and the multiple of the position that the user holds in the asset.
/// Where the position was isolated and stays so, its margin stays with it. The size, the cost basis
/// and the outstanding funding stay in any case.
pub proof fn law_leverage_update_keeps_the_margin(
    s: StateModel,
    u: Seq<char>,
    id: u32,
    pdi: u32,
    a: u32,
    i: int,
    is_cross: bool,
    multiple: u32,
)
    requires
        names_asset(id, pdi, a),
        is_dex(s, pdi, i),
        s.dexes[i].users.contains_key(crate::text::lowercase(u)),
        s.dexes[i].users[crate::text::lowercase(u)].positions.contains_key(a),
    ensures
        ({
            let key = crate::text::lowercase(u);
            let t = effect_of(
                s,
                Action::UpdateLeverage { asset: id, is_cross, leverage: multiple },
                Some(u),
            ).state;
            let p = s.dexes[i].users[key].positions[a];
            let q = t.dexes[i].users[key].positions[a];
            &&& t.dexes[i].users.contains_key(key)
            &&& t.dexes[i].users[key].positions.contains_key(a)
            &&& q.szi == p.szi
            &&& q.cost_basis == p.cost_basis
            &&& q.outstanding_funding == p.outstanding_funding
            &&& q.margin_table_id == p.margin_table_id
            &&& is_cross ==> q.leverage == Leverage::Cross(multiple)
            &&& !is_cross ==> q.leverage is Isolated && q.leverage->leverage == multiple
            &&& !is_cross && p.leverage is Isolated ==> q.leverage->raw_usd == p.leverage->raw_usd
            &&& !is_cross && p.leverage is Cross ==> q.leverage->raw_usd == 0
            &&& !is_cross && p.leverage is Isolated ==> crate::clearing_house::laws::money(
                t.dexes[i].users[key],
                a,
            ) == crate::clearing_house::laws::money(s.dexes[i].users[key], a)
            &&& t.dexes[i].users[key].usdc_balance == s.dexes[i].users[key].usdc_balance
        }),
{
    lemma_parts(id, pdi, a);
    lemma_dex(s, pdi, i);
}

/// A leverage update in an asset of no dex changes nothing.
pub proof fn law_leverage_of_no_dex(
    s: StateModel,
    u: Seq<char>,
    id: u32,
    pdi: u32,
    a: u32,
    is_cross: bool,
    multiple: u32,
    ntli: i64,
)
    requires
        names_asset(id, pdi, a),
        forall|j: int| 0 <= j < s.dexes.len() ==> (#[trigger] s.dexes[j]).pdi != pdi,
    ensures
        effect_of(
            s,
            Action::UpdateLeverage { asset: id, is_cross, leverage: multiple },
            Some(u),
        ).state == s,
        effect_of(
            s,
            Action::UpdateIsolatedMargin { asset: id, is_buy: true, ntli },
            Some(u),
        ).state == s,
{
    lemma_parts(id, pdi, a);
    let p = |d: DexModel| d.pdi == pdi;
    lemma_first_is_none(s.dexes, p, 0);
    let key = crate::text::lowercase(u);
    let q = |d: DexModel| crate::clearing_house::state::holds_on(d, pdi, key, a);
    lemma_first_is_none(s.dexes, q, 0);
}

// ── Isolated margin ──────────────────────────────────────────────────────

/// Margin that a user adds to an isolated position leaves the balance and stands with the position;
/// nothing else changes, and the money in all stays the same.
pub proof fn law_margin_comes_from_the_balance(
    s: StateModel,
    u: Seq<char>,
    id: u32,
    pdi: u32,
    a: u32,
    i: int,
    is_buy: bool,
    ntli: i64,
)
    requires
        names_asset(id, pdi, a),
        is_dex(s, pdi, i),
        s.dexes[i].users.contains_key(crate::text::lowercase(u)),
        s.dexes[i].users[crate::text::lowercase(u)].positions.contains_key(a),
    ensures
        ({
            let key = crate::text::lowercase(u);
            let e = effect_of(s, Action::UpdateIsolatedMargin { asset: id, is_buy, ntli }, Some(u));
            let (was, now) = (s.dexes[i].users[key], e.state.dexes[i].users[key]);
            let (p, q) = (was.positions[a], now.positions[a]);
            &&& e.users == set![u]
            &&& differs_in(s, e.state, i, key)
            &&& now.positions.dom() == was.positions.dom()
            &&& forall|x: u32|
                #![trigger now.positions[x]]
                x != a && was.positions.contains_key(x) ==> now.positions[x] == was.positions[x]
            &&& (now.leverage_settings, now.account_mode, now.spot_collateral) == (
                was.leverage_settings,
                was.account_mode,
                was.spot_collateral,
            )
            &&& (q.szi, q.cost_basis, q.margin_table_id, q.outstanding_funding) == (
                p.szi,
                p.cost_basis,
                p.margin_table_id,
                p.outstanding_funding,
            )
            &&& p.leverage is Isolated ==> q.leverage == (Leverage::Isolated {
                leverage: p.leverage->leverage,
                raw_usd: p.leverage->raw_usd.wrapping_add(ntli),
            }) && now.usdc_balance == was.usdc_balance.wrapping_sub(ntli)
            &&& p.leverage is Cross ==> q == p && now.usdc_balance == was.usdc_balance
        }),
{
    lemma_parts(id, pdi, a);
    let key = crate::text::lowercase(u);
    let q = |d: DexModel| crate::clearing_house::state::holds_on(d, pdi, key, a);
    lemma_first_is(s.dexes, q, i, 0);
    let t = effect_of(s, Action::UpdateIsolatedMargin { asset: id, is_buy, ntli }, Some(u)).state;
    assert(t.dexes[i].users[key].positions.dom() =~= s.dexes[i].users[key].positions.dom());
}

// ── Money ────────────────────────────────────────────────────────────────

/// Money for a user reaches the dex where they are at home.
pub proof fn law_transfers_reach_the_home_dex(s: StateModel, u: Seq<char>, amount: i64, i: int)
    requires
        is_home(s, crate::text::lowercase(u), i),
    ensures
        is_paid(
            s,
            crate::clearing_house::state::state_credited(s, u, amount),
            i,
            crate::text::lowercase(u),
            amount,
        ),
{
    lemma_home(s, crate::text::lowercase(u), i);
}

/// Money for a user on a dex reaches the first dex with the number.
pub proof fn law_transfers_reach_the_named_dex(
    s: StateModel,
    u: Seq<char>,
    amount: i64,
    pdi: u32,
    i: int,
)
    requires
        is_dex(s, pdi, i),
    ensures
        is_paid(
            s,
            crate::clearing_house::state::state_credited_on(s, u, amount, pdi),
            i,
            crate::text::lowercase(u),
            amount,
        ),
{
    lemma_dex(s, pdi, i);
}

/// Money for a dex that shares the user's balance goes there, with two more decimals; else to the
/// dex.
pub proof fn law_transfers_reach_the_shared_balance(
    s: StateModel,
    u: Seq<char>,
    amount: i64,
    pdi: u32,
    i: int,
)
    requires
        is_dex(s, pdi, i),
    ensures
        ({
            let key = crate::text::lowercase(u);
            let t = crate::clearing_house::state::state_credited_on_or_shared(s, u, amount, pdi);
            let token = s.dexes[i].collateral_token;
            if shares_here(s.dexes[i], key) {
                shared_becomes(
                    s,
                    t,
                    key,
                    token,
                    shared_of(s, key, token).wrapping_add(amount.wrapping_mul(100)),
                )
            } else {
                is_paid(s, t, i, key, amount)
            }
        }),
{
    lemma_dex(s, pdi, i);
}

/// A spot transfer reaches the shared balance of a user who shares the token, and nothing otherwise.
pub proof fn law_spot_transfers_reach_sharers(s: StateModel, u: Seq<char>, token: u32, amount: i64)
    ensures
        ({
            let key = crate::text::lowercase(u);
            let t = crate::clearing_house::state::state_spot_credited(s, u, token, amount);
            if shares_anywhere(s, key, token) {
                shared_becomes(s, t, key, token, shared_of(s, key, token).wrapping_add(amount))
            } else {
                t == s
            }
        }),
{
    let key = crate::text::lowercase(u);
    assert(shares_anywhere(s, key, token) == crate::clearing_house::state::shares_token(
        s.dexes,
        key,
        token,
    )) by {
        if shares_anywhere(s, key, token) {
            let i = choose|i: int|
                0 <= i < s.dexes.len() && (#[trigger] s.dexes[i]).collateral_token == token
                    && shares_here(s.dexes[i], key);
            assert(s.dexes[i].collateral_token == token
                && crate::clearing_house::state::shares_on(s.dexes[i], key));
        }
        if crate::clearing_house::state::shares_token(s.dexes, key, token) {
            let i = choose|i: int|
                0 <= i < s.dexes.len() && (#[trigger] s.dexes[i]).collateral_token == token
                    && crate::clearing_house::state::shares_on(s.dexes[i], key);
            assert(s.dexes[i].collateral_token == token && shares_here(s.dexes[i], key));
        }
    }
}

/// A withdrawal leaves the balance of the user on the main dex.
pub proof fn law_withdrawals_leave_the_main_dex(s: StateModel, u: Seq<char>, micro: i64, i: int)
    requires
        is_dex(s, 0, i),
    ensures
        ({
            let e = effect_of(s, Action::Withdraw3 { micro }, Some(u));
            is_charged(s, e.state, i, crate::text::lowercase(u), micro) && e.users == set![u]
        }),
{
    lemma_dex(s, 0, i);
}

/// A charge and a payment are a transfer.
proof fn lemma_two_steps(
    s: StateModel,
    m: StateModel,
    t: StateModel,
    i: int,
    from: Seq<char>,
    j: int,
    to: Seq<char>,
    amount: i64,
)
    requires
        0 <= i < s.dexes.len(),
        0 <= j < s.dexes.len(),
        from != to,
        is_charged(s, m, i, from, amount),
        is_paid(m, t, j, to, amount),
    ensures
        is_transfer(s, t, i, from, j, to, amount),
        same_beside_dexes(s, t),
{
    assert(s.dexes[i].users.contains_key(to) == m.dexes[i].users.contains_key(to));
    assert(t.dexes[j].users.contains_key(from) == m.dexes[j].users.contains_key(from));
    assert(t.dexes[j].partials.contains_key(from) == m.dexes[j].partials.contains_key(from));
    assert(m.dexes[i].partials.contains_key(to) == s.dexes[i].partials.contains_key(to));
    assert forall|k: int, v: Seq<char>|
        #![trigger user_on(t.dexes[k], v)]
        0 <= k < s.dexes.len() implies user_on(t.dexes[k], v) == (UserModel {
        usdc_balance: user_on(t.dexes[k], v).usdc_balance,
        ..user_on(s.dexes[k], v)
    }) && t.dexes[k].users.contains_key(v) == s.dexes[k].users.contains_key(v) by {
        assert(t.dexes[k].users.contains_key(v) == m.dexes[k].users.contains_key(v));
        assert(m.dexes[k].users.contains_key(v) == s.dexes[k].users.contains_key(v));
        if v != to {
            assert(t.dexes[k].partials.contains_key(v) == m.dexes[k].partials.contains_key(v));
        }
        if v != from {
            assert(m.dexes[k].partials.contains_key(v) == s.dexes[k].partials.contains_key(v));
        }
    }
    assert forall|k: int, v: Seq<char>|
        #![trigger balance(t, k, v)]
        0 <= k < s.dexes.len() && !(k == i && v == from) && !(k == j && v == to) implies balance(
        t,
        k,
        v,
    ) == balance(s, k, v) by {
        assert(t.dexes[k].users.contains_key(v) == m.dexes[k].users.contains_key(v));
        assert(m.dexes[k].users.contains_key(v) == s.dexes[k].users.contains_key(v));
        if v != to {
            assert(t.dexes[k].partials.contains_key(v) == m.dexes[k].partials.contains_key(v));
        }
        if v != from {
            assert(m.dexes[k].partials.contains_key(v) == s.dexes[k].partials.contains_key(v));
        }
    }
    assert forall|k: int|
        #![trigger t.dexes[k]]
        0 <= k < s.dexes.len() implies same_market(s.dexes[k], t.dexes[k]) by {
        assert(same_market(s.dexes[k], m.dexes[k]));
    }
}

/// A user's home is not moved by a transfer to or from someone else.
pub proof fn lemma_home_stays(s: StateModel, t: StateModel, i: int, u: Seq<char>, v: Seq<char>, j: int)
    requires
        0 <= i < s.dexes.len(),
        differs_in(s, t, i, u),
        u != v,
        is_home(s, v, j),
    ensures
        is_home(t, v, j),
{
    assert forall|k: int| 0 <= k < s.dexes.len() implies (#[trigger] t.dexes[k]).users.contains_key(v)
        == s.dexes[k].users.contains_key(v) && t.dexes[k].partials.contains_key(v)
        == s.dexes[k].partials.contains_key(v) by {
        if k == i {
            assert(t.dexes[i].users.contains_key(v) == s.dexes[i].users.contains_key(v));
            assert(t.dexes[i].partials.contains_key(v) == s.dexes[i].partials.contains_key(v));
        }
    }
    if exists|k: int| 0 <= k < s.dexes.len() && (#[trigger] s.dexes[k]).users.contains_key(v) {
        let k = choose|k: int| 0 <= k < s.dexes.len() && (#[trigger] s.dexes[k]).users.contains_key(v);
        assert(t.dexes[k].users.contains_key(v));
    } else if exists|k: int| 0 <= k < s.dexes.len() && (#[trigger] s.dexes[k]).partials.contains_key(v) {
        let k = choose|k: int|
            0 <= k < s.dexes.len() && (#[trigger] s.dexes[k]).partials.contains_key(v);
        assert(t.dexes[k].partials.contains_key(v));
    }
}

proof fn lemma_dex_stays(s: StateModel, t: StateModel, i: int, u: Seq<char>, pdi: u32, j: int)
    requires
        0 <= i < s.dexes.len(),
        differs_in(s, t, i, u),
        is_dex(s, pdi, j),
    ensures
        is_dex(t, pdi, j),
{
    assert forall|k: int| 0 <= k < s.dexes.len() implies (#[trigger] t.dexes[k]).pdi == s.dexes[k].pdi by {
        if k == i {
            assert(same_market(s.dexes[i], t.dexes[i]));
        }
    }
}

/// Money that a user sends to another leaves the sender's home dex and reaches the receiver's, to the
/// last unit; nothing else changes.
pub proof fn law_sent_money_arrives(
    s: StateModel,
    u: Seq<char>,
    destination: String,
    micro: i64,
    i: int,
    j: int,
)
    requires
        ({
            let (from, to) = (
                crate::text::lowercase(u),
                crate::text::lowercase(crate::text::lowercase(destination@)),
            );
            &&& from != to
            &&& is_home(s, from, i)
            &&& is_home(s, to, j)
        }),
    ensures
        ({
            let (from, to) = (
                crate::text::lowercase(u),
                crate::text::lowercase(crate::text::lowercase(destination@)),
            );
            let e = effect_of(s, Action::UsdSend { destination, micro }, Some(u));
            &&& is_transfer(s, e.state, i, from, j, to, micro)
            &&& same_beside_dexes(s, e.state)
            &&& e.users == set![u, crate::text::lowercase(destination@)]
        }),
{
    lemma_moved(s, u, crate::text::lowercase(destination@), micro, i, j);
}

/// What a transfer between two homes does.
pub proof fn lemma_moved(s: StateModel, u: Seq<char>, v: Seq<char>, usd: i64, i: int, j: int)
    requires
        crate::text::lowercase(u) != crate::text::lowercase(v),
        is_home(s, crate::text::lowercase(u), i),
        is_home(s, crate::text::lowercase(v), j),
    ensures
        ({
            let t = crate::clearing_house::replica::moved(s, u, v, usd);
            is_transfer(s, t, i, crate::text::lowercase(u), j, crate::text::lowercase(v), usd)
                && same_beside_dexes(s, t)
        }),
{
    let (from, to) = (crate::text::lowercase(u), crate::text::lowercase(v));
    let m = crate::clearing_house::state::state_credited(
        s,
        u,
        crate::clearing_house::replica::negated(usd),
    );
    lemma_home(s, from, i);
    assert(is_charged(s, m, i, from, usd));
    lemma_home_stays(s, m, i, from, to, j);
    lemma_home(m, to, j);
    lemma_two_steps(s, m, crate::clearing_house::replica::moved(s, u, v, usd), i, from, j, to, usd);
}

proof fn lemma_moved_on_main(s: StateModel, u: Seq<char>, v: Seq<char>, usd: i64, i: int)
    requires
        crate::text::lowercase(u) != crate::text::lowercase(v),
        is_dex(s, 0, i),
    ensures
        ({
            let t = crate::clearing_house::replica::moved_on_main(s, u, v, usd);
            is_transfer(s, t, i, crate::text::lowercase(u), i, crate::text::lowercase(v), usd)
                && same_beside_dexes(s, t)
        }),
{
    let (from, to) = (crate::text::lowercase(u), crate::text::lowercase(v));
    let m = crate::clearing_house::state::state_credited_on(
        s,
        u,
        crate::clearing_house::replica::negated(usd),
        0,
    );
    lemma_dex(s, 0, i);
    assert(is_charged(s, m, i, from, usd));
    lemma_dex_stays(s, m, i, from, 0, i);
    lemma_dex(m, 0, i);
    lemma_two_steps(
        s,
        m,
        crate::clearing_house::replica::moved_on_main(s, u, v, usd),
        i,
        from,
        i,
        to,
        usd,
    );
}

/// A deposit to a sub-account goes from the user to the sub-account on the main dex, and a withdrawal
/// the other way.
pub proof fn law_sub_accounts_trade_on_the_main_dex(
    s: StateModel,
    u: Seq<char>,
    sub: String,
    usd: i64,
    i: int,
)
    requires
        crate::text::lowercase(u) != crate::text::lowercase(crate::text::lowercase(sub@)),
        is_dex(s, 0, i),
    ensures
        ({
            let (own, other) = (
                crate::text::lowercase(u),
                crate::text::lowercase(crate::text::lowercase(sub@)),
            );
            let deposit = effect_of(
                s,
                Action::SubAccountTransfer { sub_account_user: sub, is_deposit: true, usd },
                Some(u),
            );
            let withdrawal = effect_of(
                s,
                Action::SubAccountTransfer { sub_account_user: sub, is_deposit: false, usd },
                Some(u),
            );
            &&& is_transfer(s, deposit.state, i, own, i, other, usd)
            &&& same_beside_dexes(s, deposit.state)
            &&& is_transfer(s, withdrawal.state, i, other, i, own, usd)
            &&& same_beside_dexes(s, withdrawal.state)
            &&& deposit.users == set![u, crate::text::lowercase(sub@)]
            &&& withdrawal.users == set![u, crate::text::lowercase(sub@)]
        }),
{
    lemma_moved_on_main(s, u, crate::text::lowercase(sub@), usd, i);
    lemma_moved_on_main(s, crate::text::lowercase(sub@), u, usd, i);
}

/// A deposit into a vault goes from the user's home to the vault's; a withdrawal of something goes the
/// other way and is remembered, and one of nothing changes nothing.
pub proof fn law_vaults_take_and_give(
    s: StateModel,
    u: Seq<char>,
    vault: String,
    usd: i64,
    i: int,
    j: int,
)
    requires
        ({
            let (own, other) = (
                crate::text::lowercase(u),
                crate::text::lowercase(crate::text::lowercase(vault@)),
            );
            &&& own != other
            &&& is_home(s, own, i)
            &&& is_home(s, other, j)
        }),
    ensures
        ({
            let (own, other) = (
                crate::text::lowercase(u),
                crate::text::lowercase(crate::text::lowercase(vault@)),
            );
            let deposit = effect_of(
                s,
                Action::VaultTransfer { vault_address: vault, is_deposit: true, usd },
                Some(u),
            );
            let withdrawal = effect_of(
                s,
                Action::VaultTransfer { vault_address: vault, is_deposit: false, usd },
                Some(u),
            );
            let noted = withdrawal.state.vault_withdrawals;
            let name = crate::text::lowercase(vault@);
            &&& is_transfer(s, deposit.state, i, own, j, other, usd)
            &&& same_beside_dexes(s, deposit.state)
            &&& usd != 0 ==> is_transfer(s, withdrawal.state, j, other, i, own, usd)
            &&& usd != 0 ==> noted.contains_key(name) && noted[name].contains_key(u)
            &&& usd == 0 ==> withdrawal.state == s
            &&& StateModel {
                dexes: s.dexes,
                vault_withdrawals: s.vault_withdrawals,
                ..withdrawal.state
            } == s
            &&& deposit.users == set![u, name]
            &&& withdrawal.users == set![u, name]
        }),
{
    let name = crate::text::lowercase(vault@);
    lemma_moved(s, u, name, usd, i, j);
    let n = crate::clearing_house::replica::withdrawal_noted(s, name, u);
    assert(is_home(n, crate::text::lowercase(u), i));
    assert(is_home(n, crate::text::lowercase(name), j));
    lemma_moved(n, name, u, usd, j, i);
    let t = crate::clearing_house::replica::moved(n, name, u, usd);
    assert(is_transfer(n, t, j, crate::text::lowercase(name), i, crate::text::lowercase(u), usd));
    assert forall|k: int, v: Seq<char>|
        #![trigger balance(t, k, v)]
        balance(n, k, v) == balance(s, k, v) by {}
}

/// A transfer to the perps side adds to the balance on the main dex what leaves the shared balance,
/// each in its own unit, and one to the spot side the other way. A user who does not share has no
/// shared balance to change.
pub proof fn law_class_transfers_change_sides(
    s: StateModel,
    u: Seq<char>,
    micro: i64,
    wei: i64,
    i: int,
)
    requires
        is_dex(s, 0, i),
    ensures
        ({
            let key = crate::text::lowercase(u);
            let to_perp = effect_of(
                s,
                Action::UsdClassTransfer { micro, wei, to_perp: true },
                Some(u),
            ).state;
            let to_spot = effect_of(
                s,
                Action::UsdClassTransfer { micro, wei, to_perp: false },
                Some(u),
            ).state;
            &&& is_paid(s, StateModel { unified: s.unified, ..to_perp }, i, key, micro)
            &&& is_charged(s, StateModel { unified: s.unified, ..to_spot }, i, key, micro)
            &&& shares_anywhere(s, key, 0) ==> shared_of(to_perp, key, 0) == shared_of(
                s,
                key,
                0,
            ).wrapping_sub(wei) && shared_of(to_spot, key, 0) == shared_of(s, key, 0).wrapping_add(wei)
            &&& !shares_anywhere(s, key, 0) ==> to_perp.unified == s.unified && to_spot.unified
                == s.unified
            &&& forall|v: Seq<char>, x: u32|
                #![trigger shared_of(to_perp, v, x)]
                !(v == key && x == 0) ==> shared_of(to_perp, v, x) == shared_of(s, v, x)
            &&& forall|v: Seq<char>, x: u32|
                #![trigger shared_of(to_spot, v, x)]
                !(v == key && x == 0) ==> shared_of(to_spot, v, x) == shared_of(s, v, x)
        }),
{
    let key = crate::text::lowercase(u);
    lemma_dex(s, 0, i);
    let a = crate::clearing_house::state::state_credited_on(s, u, micro, 0);
    let b = crate::clearing_house::state::state_credited_on(
        s,
        u,
        crate::clearing_house::replica::negated(micro),
        0,
    );
    lemma_sharing_stays(s, u, micro, 0, i, key, 0);
    lemma_sharing_stays(s, u, crate::clearing_house::replica::negated(micro), 0, i, key, 0);
    law_spot_transfers_reach_sharers(a, u, 0, crate::clearing_house::replica::negated(wei));
    law_spot_transfers_reach_sharers(b, u, 0, wei);
}

/// A payment makes nobody share a token, and nobody stop.
proof fn lemma_sharing_stays(
    s: StateModel,
    name: Seq<char>,
    amount: i64,
    pdi: u32,
    i: int,
    v: Seq<char>,
    token: u32,
)
    requires
        is_dex(s, pdi, i),
    ensures
        shares_anywhere(
            crate::clearing_house::state::state_credited_on(s, name, amount, pdi),
            v,
            token,
        ) == shares_anywhere(s, v, token),
{
    lemma_dex(s, pdi, i);
    let t = crate::clearing_house::state::state_credited_on(s, name, amount, pdi);
    assert forall|k: int| 0 <= k < s.dexes.len() implies shares_here(#[trigger] t.dexes[k], v)
        == shares_here(s.dexes[k], v) && t.dexes[k].collateral_token == s.dexes[k].collateral_token by {}
    if shares_anywhere(s, v, token) {
        let k = choose|k: int|
            0 <= k < s.dexes.len() && (#[trigger] s.dexes[k]).collateral_token == token && shares_here(
                s.dexes[k],
                v,
            );
        assert(t.dexes[k].collateral_token == token && shares_here(t.dexes[k], v));
    }
}

} // verus!

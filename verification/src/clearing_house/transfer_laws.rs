//! What transfers of assets, changes of mode and prices do, told by what stands in the state before and
//! after them.
use crate::clearing_house::action_laws::{
    balance,
    count_of,
    is_charged,
    is_dex,
    is_paid,
    lemma_dex,
    lemma_first_is,
    lemma_first_is_none,
    mark,
    same_beside_dexes,
    same_market,
    shared_becomes,
    shared_of,
    shares_anywhere,
};
use crate::clearing_house::fill_laws::user_on;
use crate::clearing_house::replica::{
    block_effect,
    effect_of,
    Action,
    ActionResp,
    ReplicaBlock,
    Resps,
    SetOracle,
    SignedAction,
};
use crate::clearing_house::{AccountMode, DexModel, StateModel, UserModel};
use vstd::prelude::*;

verus! {

// ── Words ────────────────────────────────────────────────────────────────

/// All that is kept of a user, on the dexes and in the shared balance, is the same.
pub open spec fn is_untouched(s: StateModel, t: StateModel, v: Seq<char>) -> bool {
    &&& t.dexes.len() == s.dexes.len()
    &&& forall|k: int|
        #![trigger t.dexes[k]]
        0 <= k < s.dexes.len() ==> (t.dexes[k].users.contains_key(v)
            == s.dexes[k].users.contains_key(v)) && (s.dexes[k].users.contains_key(v)
            ==> t.dexes[k].users[v] == s.dexes[k].users[v]) && (t.dexes[k].partials.contains_key(v)
            == s.dexes[k].partials.contains_key(v)) && (s.dexes[k].partials.contains_key(v)
            ==> t.dexes[k].partials[v] == s.dexes[k].partials[v])
    &&& t.unified.contains_key(v) == s.unified.contains_key(v)
    &&& s.unified.contains_key(v) ==> t.unified[v] == s.unified[v]
}

/// The markets, and everything but balances, are the same.
pub open spec fn same_frame(s: StateModel, t: StateModel) -> bool {
    &&& StateModel { dexes: s.dexes, unified: s.unified, ..t } == s
    &&& t.dexes.len() == s.dexes.len()
    &&& forall|k: int|
        #![trigger t.dexes[k]]
        0 <= k < s.dexes.len() ==> same_market(s.dexes[k], t.dexes[k])
}

/// Whether a dex is the first that knows the user.
pub open spec fn first_knows(s: StateModel, u: Seq<char>, k: int) -> bool {
    &&& 0 <= k < s.dexes.len()
    &&& s.dexes[k].users.contains_key(u) || s.dexes[k].partials.contains_key(u)
    &&& forall|j: int|
        0 <= j < k ==> !(#[trigger] s.dexes[j]).users.contains_key(u)
            && !s.dexes[j].partials.contains_key(u)
}

/// Whether the user has the mode: on the first dex that knows them, or standard where none does.
pub open spec fn has_mode(s: StateModel, u: Seq<char>, m: AccountMode) -> bool {
    ||| exists|k: int| #[trigger] first_knows(s, u, k) && user_on(s.dexes[k], u).account_mode == m
    ||| m == AccountMode::Standard && forall|j: int|
        0 <= j < s.dexes.len() ==> !(#[trigger] s.dexes[j]).users.contains_key(u)
            && !s.dexes[j].partials.contains_key(u)
}

/// The name of a place of which none is given.
pub open spec fn place(o: Option<String>) -> Seq<char> {
    if o is Some {
        o->0@
    } else {
        Seq::empty()
    }
}

/// The balances of a user on all dexes are the same.
pub open spec fn same_on_dexes(s: StateModel, t: StateModel, u: Seq<char>) -> bool {
    forall|k: int|
        #![trigger user_on(t.dexes[k], u)]
        0 <= k < s.dexes.len() ==> user_on(t.dexes[k], u) == user_on(s.dexes[k], u)
}

/// The shared balances of a user are the same.
pub open spec fn same_shared(s: StateModel, t: StateModel, u: Seq<char>) -> bool {
    forall|x: u32| #[trigger] shared_of(t, u, x) == shared_of(s, u, x)
}

// ── Lemmas ───────────────────────────────────────────────────────────────

proof fn lemma_first_bounds(dexes: Seq<DexModel>, p: spec_fn(DexModel) -> bool, k: int)
    requires
        0 <= k <= dexes.len(),
    ensures
        k <= crate::clearing_house::state::first_dex(dexes, p, k) <= dexes.len(),
    decreases dexes.len() - k,
{
    if k < dexes.len() && !p(dexes[k]) {
        lemma_first_bounds(dexes, p, k + 1);
    }
}

proof fn lemma_mode(s: StateModel, u: Seq<char>, m: AccountMode)
    requires
        has_mode(s, u, m),
    ensures
        crate::clearing_house::replica::known_mode(s.dexes, u) == m,
{
    let p = |d: DexModel| d.users.contains_key(u) || d.partials.contains_key(u);
    if exists|k: int| #[trigger] first_knows(s, u, k) && user_on(s.dexes[k], u).account_mode == m {
        let k = choose|k: int| #[trigger]
            first_knows(s, u, k) && user_on(s.dexes[k], u).account_mode == m;
        lemma_first_is(s.dexes, p, k, 0);
    } else {
        lemma_first_is_none(s.dexes, p, 0);
    }
}

proof fn lemma_mode_stays(s: StateModel, t: StateModel, u: Seq<char>, m: AccountMode)
    requires
        has_mode(s, u, m),
        is_untouched(s, t, u),
    ensures
        has_mode(t, u, m),
{
    if exists|k: int| #[trigger] first_knows(s, u, k) && user_on(s.dexes[k], u).account_mode == m {
        let k = choose|k: int| #[trigger]
            first_knows(s, u, k) && user_on(s.dexes[k], u).account_mode == m;
        assert(t.dexes[k].users.contains_key(u) == s.dexes[k].users.contains_key(u));
        assert forall|j: int| 0 <= j < k implies !(#[trigger] t.dexes[j]).users.contains_key(u)
            && !t.dexes[j].partials.contains_key(u) by {
            assert(!s.dexes[j].users.contains_key(u));
        }
        assert(first_knows(t, u, k));
        assert(user_on(t.dexes[k], u).account_mode == m);
    } else {
        assert forall|j: int| 0 <= j < t.dexes.len() implies !(#[trigger] t.dexes[j]).users.contains_key(u)
            && !t.dexes[j].partials.contains_key(u) by {
            assert(!s.dexes[j].users.contains_key(u));
        }
    }
}

proof fn lemma_credit_frame(s: StateModel, u: Seq<char>, amount: i64, pdi: u32, v: Seq<char>)
    requires
        v != crate::text::lowercase(u),
    ensures
        is_untouched(s, crate::clearing_house::state::state_credited_on(s, u, amount, pdi), v),
        same_frame(s, crate::clearing_house::state::state_credited_on(s, u, amount, pdi)),
{
    let p = |d: DexModel| d.pdi == pdi;
    lemma_first_bounds(s.dexes, p, 0);
}

proof fn lemma_spot_frame(s: StateModel, u: Seq<char>, token: u32, amount: i64, v: Seq<char>)
    ensures
        v != crate::text::lowercase(u) ==> is_untouched(
            s,
            crate::clearing_house::state::state_spot_credited(s, u, token, amount),
            v,
        ),
        same_frame(s, crate::clearing_house::state::state_spot_credited(s, u, token, amount)),
        same_on_dexes(
            s,
            crate::clearing_house::state::state_spot_credited(s, u, token, amount),
            v,
        ),
{
}

proof fn lemma_shares_stays(s: StateModel, t: StateModel, u: Seq<char>, token: u32)
    requires
        is_untouched(s, t, u),
        same_frame(s, t),
    ensures
        shares_anywhere(s, u, token) == shares_anywhere(t, u, token),
{
    if shares_anywhere(s, u, token) {
        let k = choose|k: int|
            0 <= k < s.dexes.len() && (#[trigger] s.dexes[k]).collateral_token == token
                && crate::clearing_house::action_laws::shares_here(s.dexes[k], u);
        assert(same_market(s.dexes[k], t.dexes[k]));
        assert(t.dexes[k].collateral_token == token
            && crate::clearing_house::action_laws::shares_here(t.dexes[k], u));
    }
    if shares_anywhere(t, u, token) {
        let k = choose|k: int|
            0 <= k < t.dexes.len() && (#[trigger] t.dexes[k]).collateral_token == token
                && crate::clearing_house::action_laws::shares_here(t.dexes[k], u);
        assert(same_market(s.dexes[k], t.dexes[k]));
        assert(s.dexes[k].collateral_token == token
            && crate::clearing_house::action_laws::shares_here(s.dexes[k], u));
    }
}

proof fn lemma_untouched_reads(s: StateModel, t: StateModel, u: Seq<char>)
    requires
        is_untouched(s, t, u),
    ensures
        same_on_dexes(s, t, u),
        same_shared(s, t, u),
{
}

proof fn lemma_dex_stays(s: StateModel, t: StateModel, pdi: u32, i: int)
    requires
        is_dex(s, pdi, i),
        same_frame(s, t),
    ensures
        is_dex(t, pdi, i),
{
    assert forall|k: int| 0 <= k < s.dexes.len() implies (#[trigger] t.dexes[k]).pdi == s.dexes[k].pdi by {
        assert(same_market(s.dexes[k], t.dexes[k]));
    }
}

// ── Tokens ───────────────────────────────────────────────────────────────

/// A token is named by its number, or by its name with or without more behind a colon; a name that is
/// not one of the three stands for no token.
pub proof fn law_tokens_by_name(token: Seq<char>, name: Seq<char>, rest: Seq<char>)
    requires
        !name.contains(':'),
        token == name || token == name.push(':') + rest,
        crate::text::decimal(token, u32::MAX as nat) is None,
    ensures
        crate::clearing_house::replica::token_id(token) == (if name == "USDC"@ {
            0u32
        } else if name == "USDH"@ {
            360u32
        } else if name == "USDE"@ {
            235u32
        } else {
            u32::MAX
        }),
{
    lemma_before_colon(token, name, rest);
}

proof fn lemma_before_colon(token: Seq<char>, name: Seq<char>, rest: Seq<char>)
    requires
        !name.contains(':'),
        token == name || token == name.push(':') + rest,
    ensures
        crate::text::before_first(token, ':') == name,
    decreases name.len(),
{
    if token == name {
        assert(crate::text::before_first(token, ':') =~= name);
    } else {
        assert(token[name.len() as int] == ':');
        assert(token.contains(':'));
        token.index_of_first_ensures(':');
        let i = token.index_of_first(':')->0;
        if i < name.len() {
            assert(name[i] == ':');
        }
        assert(crate::text::before_first(token, ':') =~= name);
    }
}

// ── The spot exchange ────────────────────────────────────────────────────

/// What a user sends on the spot exchange leaves their shared balance, if they share the token, and
/// reaches that of the receiver, if they do. Nothing else changes.
pub proof fn law_spot_sends_arrive(
    s: StateModel,
    u: Seq<char>,
    destination: String,
    token: String,
    wei: i64,
)
    requires
        crate::text::lowercase(u) != crate::text::lowercase(crate::text::lowercase(destination@)),
    ensures
        ({
            let (from, to) = (
                crate::text::lowercase(u),
                crate::text::lowercase(crate::text::lowercase(destination@)),
            );
            let id = crate::clearing_house::replica::token_id(token@);
            let e = effect_of(s, Action::SpotSend { destination, token, wei }, Some(u));
            let t = e.state;
            &&& StateModel { unified: s.unified, ..t } == s
            &&& shared_of(t, from, id) == (if shares_anywhere(s, from, id) {
                shared_of(s, from, id).wrapping_sub(wei)
            } else {
                shared_of(s, from, id)
            })
            &&& shared_of(t, to, id) == (if shares_anywhere(s, to, id) {
                shared_of(s, to, id).wrapping_add(wei)
            } else {
                shared_of(s, to, id)
            })
            &&& forall|v: Seq<char>, x: u32|
                #![trigger shared_of(t, v, x)]
                x != id || v != from && v != to ==> shared_of(t, v, x) == shared_of(s, v, x)
            &&& e.users == set![u, crate::text::lowercase(destination@)]
        }),
{
    let dest = crate::text::lowercase(destination@);
    lemma_moved_on_spot(s, u, dest, crate::clearing_house::replica::token_id(token@), wei);
}

proof fn lemma_moved_on_spot(s: StateModel, u: Seq<char>, dest: Seq<char>, id: u32, wei: i64)
    requires
        crate::text::lowercase(u) != crate::text::lowercase(dest),
    ensures
        ({
            let (from, to) = (crate::text::lowercase(u), crate::text::lowercase(dest));
            let t = crate::clearing_house::replica::moved_on_spot(s, u, dest, id, wei);
            &&& StateModel { unified: s.unified, ..t } == s
            &&& shared_of(t, from, id) == (if shares_anywhere(s, from, id) {
                shared_of(s, from, id).wrapping_sub(wei)
            } else {
                shared_of(s, from, id)
            })
            &&& shared_of(t, to, id) == (if shares_anywhere(s, to, id) {
                shared_of(s, to, id).wrapping_add(wei)
            } else {
                shared_of(s, to, id)
            })
            &&& forall|v: Seq<char>, x: u32|
                #![trigger shared_of(t, v, x)]
                x != id || v != from && v != to ==> shared_of(t, v, x) == shared_of(s, v, x)
        }),
{
    let (from, to) = (crate::text::lowercase(u), crate::text::lowercase(dest));
    let less = crate::clearing_house::replica::negated(wei);
    let m = crate::clearing_house::state::state_spot_credited(s, u, id, less);
    let t = crate::clearing_house::replica::moved_on_spot(s, u, dest, id, wei);
    crate::clearing_house::action_laws::law_spot_transfers_reach_sharers(s, u, id, less);
    crate::clearing_house::action_laws::law_spot_transfers_reach_sharers(m, dest, id, wei);
    assert(m.dexes == s.dexes);
    assert(shares_anywhere(m, to, id) == shares_anywhere(s, to, id));
    assert forall|v: Seq<char>, x: u32|
        #![trigger shared_of(t, v, x)]
        x != id || v != from && v != to implies shared_of(t, v, x) == shared_of(s, v, x) by {
        assert(shared_of(t, v, x) == shared_of(m, v, x));
        assert(shared_of(m, v, x) == shared_of(s, v, x));
    }
    assert(shared_of(t, from, id) == shared_of(m, from, id));
    assert(shared_of(m, to, id) == shared_of(s, to, id));
}

/// What is supplied to the lending pool leaves the shared balance, and what comes out of it, in
/// whatever way, enters it. HYPE that is staked leaves the shared balance, and HYPE that is taken back
/// enters it. Only users who share the token have such a balance.
pub proof fn law_lending_and_staking(
    s: StateModel,
    u: Seq<char>,
    operation: String,
    token: u32,
    wei: i64,
)
    ensures
        ({
            let key = crate::text::lowercase(u);
            let hype: u32 = 150;
            let lent = effect_of(
                s,
                Action::BorrowLend { operation, token, wei: Some(wei) },
                Some(u),
            );
            let staked = effect_of(s, Action::CDeposit { wei }, Some(u));
            let taken = effect_of(s, Action::CWithdraw { wei }, Some(u));
            let had = shared_of(s, key, token);
            &&& if shares_anywhere(s, key, token) {
                &&& operation@ == "supply"@ ==> shared_becomes(
                    s,
                    lent.state,
                    key,
                    token,
                    had.wrapping_sub(wei),
                )
                &&& operation@ != "supply"@ ==> shared_becomes(
                    s,
                    lent.state,
                    key,
                    token,
                    had.wrapping_add(wei),
                )
            } else {
                lent.state == s
            }
            &&& if shares_anywhere(s, key, hype) {
                &&& shared_becomes(
                    s,
                    staked.state,
                    key,
                    hype,
                    shared_of(s, key, hype).wrapping_sub(wei),
                )
                &&& shared_becomes(
                    s,
                    taken.state,
                    key,
                    hype,
                    shared_of(s, key, hype).wrapping_add(wei),
                )
            } else {
                staked.state == s && taken.state == s
            }
            &&& lent.users == set![u] && staked.users == set![u] && taken.users == set![u]
            &&& effect_of(s, Action::BorrowLend { operation, token, wei: None }, Some(u)).state == s
        }),
{
    let less = crate::clearing_house::replica::negated(wei);
    crate::clearing_house::action_laws::law_spot_transfers_reach_sharers(s, u, token, less);
    crate::clearing_house::action_laws::law_spot_transfers_reach_sharers(s, u, token, wei);
    crate::clearing_house::action_laws::law_spot_transfers_reach_sharers(s, u, 150, less);
    crate::clearing_house::action_laws::law_spot_transfers_reach_sharers(s, u, 150, wei);
}

// ── Assets between places ────────────────────────────────────────────────

/// What leaves the sender of an asset: from a dex the amount in micro units, from the spot exchange the
/// amount in wei, if they share the token; from a place that is neither, nothing.
pub proof fn law_sent_assets_leave(
    s: StateModel,
    u: Seq<char>,
    destination: String,
    token: String,
    micro: i64,
    wei: i64,
    source: Option<String>,
    target: Option<String>,
    i: int,
)
    requires
        source is Some || target is Some,
        crate::text::lowercase(u) != crate::text::lowercase(crate::text::lowercase(destination@)),
        s.dex_names.contains_key(place(source)) ==> is_dex(s, s.dex_names[place(source)], i),
    ensures
        ({
            let key = crate::text::lowercase(u);
            let id = crate::clearing_house::replica::token_id(token@);
            let e = effect_of(
                s,
                Action::SendAsset {
                    destination,
                    token,
                    micro,
                    wei,
                    source_dex: source,
                    destination_dex: target,
                    from_sub_account: None,
                },
                Some(u),
            );
            let t = e.state;
            &&& e.users == set![u, crate::text::lowercase(destination@)]
            &&& same_frame(s, t)
            &&& s.dex_names.contains_key(place(source)) ==> {
                &&& balance(t, i, key) == balance(s, i, key).wrapping_sub(micro)
                &&& forall|k: int|
                    #![trigger user_on(t.dexes[k], key)]
                    0 <= k < s.dexes.len() && k != i ==> user_on(t.dexes[k], key) == user_on(
                        s.dexes[k],
                        key,
                    )
                &&& same_shared(s, t, key)
            }
            &&& !s.dex_names.contains_key(place(source)) ==> same_on_dexes(s, t, key)
            &&& !s.dex_names.contains_key(place(source)) && place(source) == "spot"@ ==> {
                &&& shared_of(t, key, id) == (if shares_anywhere(s, key, id) {
                    shared_of(s, key, id).wrapping_sub(wei)
                } else {
                    shared_of(s, key, id)
                })
                &&& forall|x: u32| x != id ==> #[trigger] shared_of(t, key, x) == shared_of(s, key, x)
            }
            &&& !s.dex_names.contains_key(place(source)) && place(source) != "spot"@ ==> same_shared(
                s,
                t,
                key,
            )
        }),
{
    let key = crate::text::lowercase(u);
    let id = crate::clearing_house::replica::token_id(token@);
    let dest = crate::text::lowercase(destination@);
    let less_micro = crate::clearing_house::replica::negated(micro);
    let less_wei = crate::clearing_house::replica::negated(wei);
    let src = place(source);
    assert(crate::clearing_house::replica::text_or_empty(source) == src);
    let m = crate::clearing_house::replica::sent_from(s, u, src, id, micro, wei);
    let t = effect_of(
        s,
        Action::SendAsset {
            destination,
            token,
            micro,
            wei,
            source_dex: source,
            destination_dex: target,
            from_sub_account: None,
        },
        Some(u),
    ).state;
    if s.dex_names.contains_key(src) {
        lemma_dex(s, s.dex_names[src], i);
        lemma_credit_frame(s, u, less_micro, s.dex_names[src], crate::text::lowercase(dest));
    } else {
        lemma_spot_frame(s, u, id, less_wei, key);
        crate::clearing_house::action_laws::law_spot_transfers_reach_sharers(s, u, id, less_wei);
    }
    lemma_spot_frame(m, dest, id, wei, key);
    if s.dex_names.contains_key(place(target)) {
        lemma_credit_frame(m, dest, micro, s.dex_names[place(target)], key);
    }
    assert(is_untouched(m, t, key));
    assert(same_frame(m, t));
    lemma_untouched_reads(m, t, key);
    lemma_frames(s, m, t);
    assert(balance(t, i, key) == user_on(t.dexes[i], key).usdc_balance);
    assert(forall|x: u32| #[trigger] shared_of(t, key, x) == shared_of(m, key, x));
}

proof fn lemma_frames(s: StateModel, m: StateModel, t: StateModel)
    requires
        same_frame(s, m),
        same_frame(m, t),
    ensures
        same_frame(s, t),
{
    assert forall|k: int|
        #![trigger t.dexes[k]]
        0 <= k < s.dexes.len() implies same_market(s.dexes[k], t.dexes[k]) by {
        assert(same_market(s.dexes[k], m.dexes[k]));
    }
}

/// What reaches the receiver of an asset. One who is unified gets it in the shared balance, in wei, if
/// they share the token, whatever place is named. Under dex abstraction only USDC reaches a dex, in
/// micro units, and everything else is treated like that. Anyone else gets it at the place that is
/// named: on a dex, or in the shared balance where that is the spot exchange; elsewhere nothing
/// arrives.
pub proof fn law_sent_assets_arrive(
    s: StateModel,
    u: Seq<char>,
    destination: String,
    token: String,
    micro: i64,
    wei: i64,
    source: Option<String>,
    target: Option<String>,
    m: AccountMode,
    j: int,
)
    requires
        source is Some || target is Some,
        crate::text::lowercase(u) != crate::text::lowercase(crate::text::lowercase(destination@)),
        crate::text::lowercase(u) != crate::text::lowercase(destination@),
        has_mode(s, crate::text::lowercase(destination@), m),
        s.dex_names.contains_key(place(target)) ==> is_dex(s, s.dex_names[place(target)], j),
    ensures
        ({
            let key = crate::text::lowercase(crate::text::lowercase(destination@));
            let id = crate::clearing_house::replica::token_id(token@);
            let t = effect_of(
                s,
                Action::SendAsset {
                    destination,
                    token,
                    micro,
                    wei,
                    source_dex: source,
                    destination_dex: target,
                    from_sub_account: None,
                },
                Some(u),
            ).state;
            let named = s.dex_names.contains_key(place(target));
            let to_dex = named && (m == AccountMode::Standard || m == AccountMode::PortfolioMargin || m
                == AccountMode::DexAbstraction && id == 0);
            let to_spot = m == AccountMode::Unified || m == AccountMode::DexAbstraction && !to_dex
                || !named && place(target) == "spot"@;
            &&& to_dex ==> {
                &&& balance(t, j, key) == balance(s, j, key).wrapping_add(micro)
                &&& forall|k: int|
                    #![trigger user_on(t.dexes[k], key)]
                    0 <= k < s.dexes.len() && k != j ==> user_on(t.dexes[k], key) == user_on(
                        s.dexes[k],
                        key,
                    )
                &&& same_shared(s, t, key)
            }
            &&& !to_dex ==> same_on_dexes(s, t, key)
            &&& !to_dex && to_spot ==> {
                &&& shared_of(t, key, id) == (if shares_anywhere(s, key, id) {
                    shared_of(s, key, id).wrapping_add(wei)
                } else {
                    shared_of(s, key, id)
                })
                &&& forall|x: u32| x != id ==> #[trigger] shared_of(t, key, x) == shared_of(s, key, x)
            }
            &&& !to_dex && !to_spot ==> same_shared(s, t, key)
        }),
{
    let dest = crate::text::lowercase(destination@);
    let key = crate::text::lowercase(dest);
    let id = crate::clearing_house::replica::token_id(token@);
    let less_micro = crate::clearing_house::replica::negated(micro);
    let less_wei = crate::clearing_house::replica::negated(wei);
    let src = place(source);
    assert(crate::clearing_house::replica::text_or_empty(source) == src);
    assert(crate::clearing_house::replica::text_or_empty(target) == place(target));
    let mid = crate::clearing_house::replica::sent_from(s, u, src, id, micro, wei);
    if s.dex_names.contains_key(src) {
        lemma_credit_frame(s, u, less_micro, s.dex_names[src], key);
        lemma_credit_frame(s, u, less_micro, s.dex_names[src], dest);
    } else {
        lemma_spot_frame(s, u, id, less_wei, key);
        lemma_spot_frame(s, u, id, less_wei, dest);
    }
    assert(is_untouched(s, mid, key));
    assert(is_untouched(s, mid, dest));
    lemma_untouched_reads(s, mid, key);
    lemma_mode_stays(s, mid, dest, m);
    lemma_mode(mid, dest, m);
    lemma_shares_stays(s, mid, key, id);
    crate::clearing_house::action_laws::law_spot_transfers_reach_sharers(mid, dest, id, wei);
    lemma_spot_frame(mid, dest, id, wei, key);
    if s.dex_names.contains_key(place(target)) {
        lemma_dex_stays(s, mid, s.dex_names[place(target)], j);
        lemma_dex(mid, s.dex_names[place(target)], j);
        assert(user_on(mid.dexes[j], key) == user_on(s.dexes[j], key));
    }
    assert(forall|x: u32| #[trigger] shared_of(mid, key, x) == shared_of(s, key, x));
}

/// Without a place on either side an asset goes from the spot exchange to the spot exchange.
pub proof fn law_assets_without_places_stay_on_spot(
    s: StateModel,
    u: Seq<char>,
    destination: String,
    token: String,
    micro: i64,
    wei: i64,
)
    requires
        crate::text::lowercase(u) != crate::text::lowercase(crate::text::lowercase(destination@)),
    ensures
        ({
            let (from, to) = (
                crate::text::lowercase(u),
                crate::text::lowercase(crate::text::lowercase(destination@)),
            );
            let id = crate::clearing_house::replica::token_id(token@);
            let t = effect_of(
                s,
                Action::SendAsset {
                    destination,
                    token,
                    micro,
                    wei,
                    source_dex: None,
                    destination_dex: None,
                    from_sub_account: None,
                },
                Some(u),
            ).state;
            &&& StateModel { unified: s.unified, ..t } == s
            &&& shared_of(t, from, id) == (if shares_anywhere(s, from, id) {
                shared_of(s, from, id).wrapping_sub(wei)
            } else {
                shared_of(s, from, id)
            })
            &&& shared_of(t, to, id) == (if shares_anywhere(s, to, id) {
                shared_of(s, to, id).wrapping_add(wei)
            } else {
                shared_of(s, to, id)
            })
        }),
{
    let dest = crate::text::lowercase(destination@);
    lemma_moved_on_spot(s, u, dest, crate::clearing_house::replica::token_id(token@), wei);
}

/// A sub-account that is named sends in the place of whoever acts.
pub proof fn law_sub_accounts_send_for_themselves(
    s: StateModel,
    actor: Option<Seq<char>>,
    sub: String,
    destination: String,
    token: String,
    micro: i64,
    wei: i64,
    source: Option<String>,
    target: Option<String>,
)
    requires
        sub@.len() > 0,
    ensures
        effect_of(
            s,
            Action::SendAsset {
                destination,
                token,
                micro,
                wei,
                source_dex: source,
                destination_dex: target,
                from_sub_account: Some(sub),
            },
            actor,
        ) == effect_of(
            s,
            Action::SendAsset {
                destination,
                token,
                micro,
                wei,
                source_dex: source,
                destination_dex: target,
                from_sub_account: None,
            },
            Some(crate::text::lowercase(sub@)),
        ),
{
}

// ── Modes ────────────────────────────────────────────────────────────────

/// The mode that a letter names.
pub open spec fn letter_names(letter: Seq<char>, m: AccountMode) -> bool {
    match m {
        AccountMode::Unified => letter == "u"@,
        AccountMode::DexAbstraction => letter == "d"@,
        AccountMode::PortfolioMargin => letter == "p"@,
        AccountMode::Standard => letter != "u"@ && letter != "d"@ && letter != "p"@,
    }
}

/// On every dex that knows the user they have the mode; spot collateral stays unless the mode they
/// leave shares balances and the new one does not, in which case it is gone. Nothing else differs.
pub open spec fn is_remoded(s: StateModel, t: StateModel, u: Seq<char>, m: AccountMode) -> bool {
    &&& same_beside_dexes(s, t)
    &&& t.dexes.len() == s.dexes.len()
    &&& forall|k: int|
        #![trigger t.dexes[k]]
        0 <= k < s.dexes.len() ==> {
            let (d, e) = (s.dexes[k], t.dexes[k]);
            let kept = (d.users.contains_key(u) || d.partials.contains_key(u)) && (
            user_on(d, u).account_mode == AccountMode::Standard || user_on(d, u).account_mode
                == AccountMode::PortfolioMargin || m == AccountMode::Unified || m
                == AccountMode::DexAbstraction);
            &&& same_market(d, e)
            &&& e.users.dom() == d.users.dom()
            &&& e.partials.dom() == d.partials.dom()
            &&& d.users.contains_key(u) || d.partials.contains_key(u) ==> user_on(e, u) == (UserModel {
                account_mode: m,
                spot_collateral: if kept {
                    user_on(d, u).spot_collateral
                } else {
                    0
                },
                ..user_on(d, u)
            })
            &&& forall|v: Seq<char>|
                #![trigger e.users[v]]
                v != u && d.users.contains_key(v) ==> e.users[v] == d.users[v]
            &&& forall|v: Seq<char>|
                #![trigger e.partials[v]]
                v != u && d.partials.contains_key(v) ==> e.partials[v] == d.partials[v]
        }
}

proof fn lemma_remoded(s: StateModel, u: Seq<char>, letter: Seq<char>, m: AccountMode)
    requires
        letter_names(letter, m),
    ensures
        is_remoded(
            s,
            crate::clearing_house::state::state_remoded(s, u, letter),
            crate::text::lowercase(u),
            m,
        ),
{
    reveal_strlit("u");
    reveal_strlit("d");
    reveal_strlit("p");
    assert("u"@[0] == 'u' && "d"@[0] == 'd' && "p"@[0] == 'p');
    let key = crate::text::lowercase(u);
    let t = crate::clearing_house::state::state_remoded(s, u, letter);
    assert(crate::clearing_house::state::mode_of(letter) == m);
    assert forall|k: int|
        #![trigger t.dexes[k]]
        0 <= k < s.dexes.len() implies t.dexes[k].users.dom() == s.dexes[k].users.dom()
        && t.dexes[k].partials.dom() == s.dexes[k].partials.dom() by {
        assert(t.dexes[k].users.dom() =~= s.dexes[k].users.dom());
        assert(t.dexes[k].partials.dom() =~= s.dexes[k].partials.dom());
    }
}

/// A change of mode sets it on every dex that knows the user: for the user whom the action names, or
/// for whoever acts; an action that names no mode means dex abstraction.
pub proof fn law_modes_are_set_everywhere(
    s: StateModel,
    actor: Seq<char>,
    user: String,
    letter: String,
    m: AccountMode,
)
    requires
        letter_names(letter@, m),
    ensures
        is_remoded(
            s,
            effect_of(
                s,
                Action::UserSetAbstraction { user, abstraction: letter },
                Some(actor),
            ).state,
            crate::text::lowercase(crate::text::lowercase(user@)),
            m,
        ),
        is_remoded(
            s,
            effect_of(s, Action::AgentSetAbstraction { abstraction: letter }, Some(actor)).state,
            crate::text::lowercase(actor),
            m,
        ),
        is_remoded(
            s,
            effect_of(
                s,
                Action::UserDexAbstraction { abstraction: Some(letter) },
                Some(actor),
            ).state,
            crate::text::lowercase(actor),
            m,
        ),
        is_remoded(
            s,
            effect_of(s, Action::UserDexAbstraction { abstraction: None }, Some(actor)).state,
            crate::text::lowercase(actor),
            AccountMode::DexAbstraction,
        ),
        is_remoded(
            s,
            effect_of(s, Action::AgentEnableDexAbstraction, Some(actor)).state,
            crate::text::lowercase(actor),
            AccountMode::DexAbstraction,
        ),
        effect_of(
            s,
            Action::UserSetAbstraction { user, abstraction: letter },
            Some(actor),
        ).users == set![crate::text::lowercase(user@)],
        effect_of(s, Action::AgentSetAbstraction { abstraction: letter }, Some(actor)).users
            == set![actor],
{
    lemma_remoded(s, crate::text::lowercase(user@), letter@, m);
    lemma_remoded(s, actor, letter@, m);
    lemma_remoded(s, actor, "d"@, AccountMode::DexAbstraction);
}

// ── Deposits ─────────────────────────────────────────────────────────────

/// The first vote on a deposit pays it on the main dex and is remembered.
pub proof fn law_first_vote_pays(
    s: StateModel,
    actor: Option<Seq<char>>,
    user: String,
    usd: i64,
    eth_id: String,
    i: int,
)
    requires
        is_dex(s, 0, i),
        !s.nonces.contains(crate::clearing_house::replica::deposit_key(eth_id@)),
    ensures
        ({
            let e = effect_of(s, Action::VoteEthDepositAction { user, usd, eth_id }, actor);
            &&& is_paid(
                s,
                StateModel { nonces: s.nonces, ..e.state },
                i,
                crate::text::lowercase(crate::text::lowercase(user@)),
                usd,
            )
            &&& e.state.nonces == s.nonces.insert(
                crate::clearing_house::replica::deposit_key(eth_id@),
            )
            &&& e.users == set![crate::text::lowercase(user@)]
        }),
{
    let key = crate::clearing_house::replica::deposit_key(eth_id@);
    let n = StateModel { nonces: s.nonces.insert(key), ..s };
    assert(is_dex(n, 0, i));
    lemma_dex(n, 0, i);
}

// ── Nobody acts ──────────────────────────────────────────────────────────

/// An action that needs someone to act does nothing without; money that is sent still arrives.
pub proof fn law_actions_need_someone(s: StateModel, action: Action)
    requires
        action is UpdateLeverage || action is UpdateIsolatedMargin || action is UsdClassTransfer
            || action is SubAccountTransfer || action is Withdraw3 || action is SpotSend || action
            is VaultTransfer || action is AgentSetAbstraction || action is AgentEnableDexAbstraction
            || action is UserDexAbstraction || action is BorrowLend || action is CDeposit || action
            is CWithdraw,
    ensures
        effect_of(s, action, None).state == s,
        effect_of(s, action, None).users == Set::<Seq<char>>::empty(),
{
}

/// Orders, cancellations, agreements and everything else that is not listed leave the state alone.
pub proof fn law_other_actions_do_nothing(s: StateModel, action: Action, actor: Option<Seq<char>>)
    requires
        action is Order || action is Cancel || action is CancelByCloid || action is BatchModify
            || action is Modify || action is ScheduleCancel || action is Noop || action
            is ApproveAgent || action is SetReferrer || action is RegisterReferrer || action
            is ApproveBuilderFee || action is VoteAppHash || action is ClaimRewards || action
            is SpotUser || action is ValidatorSignWithdrawalAction || action is EvmRawTx || action
            is EvmUserModify || action is MultiSig || action is TwapOrder || action is TwapCancel
            || action is NetChildVaultPositionsAction || action is ReserveRequestWeight || action
            is TwapModify || action is RegisterReferrerRaw || action is CreateSubAccount || action
            is SubAccountModify || action is SendToEvmWithData || action is TokenDelegate || action
            is Unknown || action is PerpDeploy || action is VoteEthFinalizedWithdrawalAction,
    ensures
        effect_of(s, action, actor).state == s,
        effect_of(s, action, actor).users == Set::<Seq<char>>::empty(),
{
}

// ── Mark prices ──────────────────────────────────────────────────────────

proof fn lemma_marks(s: StateModel, pxs: Seq<Option<u64>>, n: int)
    requires
        0 <= n <= pxs.len(),
        pxs.len() <= u32::MAX,
    ensures
        ({
            let t = crate::clearing_house::replica::marks_set(s, pxs, n);
            &&& StateModel { marks: s.marks, ..t } == s
            &&& forall|d: u32, a: u32| #[trigger]
                mark(t, d, a) == (if d == 0 && a < n && pxs[a as int] is Some {
                    pxs[a as int]
                } else {
                    mark(s, d, a)
                })
        }),
    decreases n,
{
    if n > 0 {
        lemma_marks(s, pxs, n - 1);
        let m = crate::clearing_house::replica::marks_set(s, pxs, n - 1);
        let t = crate::clearing_house::replica::marks_set(s, pxs, n);
        assert forall|d: u32, a: u32| #[trigger] mark(t, d, a) == (if d == 0 && a < n
            && pxs[a as int] is Some {
            pxs[a as int]
        } else {
            mark(s, d, a)
        }) by {
            assert(mark(m, d, a) == (if d == 0 && a < n - 1 && pxs[a as int] is Some {
                pxs[a as int]
            } else {
                mark(s, d, a)
            }));
        }
    }
}

/// Global mark prices set those of the assets of dex 0 for which one is given, and no others.
pub proof fn law_global_marks_are_set(s: StateModel, pxs: Vec<Option<u64>>, actor: Option<Seq<char>>)
    requires
        pxs@.len() <= u32::MAX,
    ensures
        ({
            let e = effect_of(s, Action::SetGlobalAction { pxs }, actor);
            &&& e.users == Set::<Seq<char>>::empty()
            &&& StateModel { marks: s.marks, ..e.state } == s
            &&& forall|d: u32, a: u32| #[trigger]
                mark(e.state, d, a) == (if d == 0 && a < pxs@.len() && pxs@[a as int] is Some {
                    pxs@[a as int]
                } else {
                    mark(s, d, a)
                })
        }),
{
    lemma_marks(s, pxs@, pxs@.len() as int);
}

/// Whether a coin is the name of an asset of the universe, and of no earlier one.
pub open spec fn is_asset(d: DexModel, name: Seq<char>, a: u32) -> bool {
    &&& a < d.universe.len()
    &&& d.universe[a as int].name == name
    &&& forall|b: int| 0 <= b < a ==> (#[trigger] d.universe[b]).name != name
}

proof fn lemma_asset_named(d: DexModel, name: Seq<char>, i: int)
    requires
        0 <= i <= d.universe.len(),
    ensures
        ({
            let k = crate::clearing_house::replica::asset_named(d.universe, name, i);
            &&& i <= k <= d.universe.len()
            &&& k < d.universe.len() ==> d.universe[k].name == name
            &&& forall|b: int| i <= b < k ==> (#[trigger] d.universe[b]).name != name
        }),
    decreases d.universe.len() - i,
{
    if i < d.universe.len() && d.universe[i].name != name {
        lemma_asset_named(d, name, i + 1);
    }
}

proof fn lemma_oracle(s: StateModel, di: int, prices: Seq<(String, u64)>, n: int, a: u32)
    requires
        0 <= n <= prices.len(),
        0 <= di < s.dexes.len() <= u32::MAX,
        s.dexes[di].universe.len() <= u32::MAX,
        a < s.dexes[di].universe.len(),
    ensures
        ({
            let t = crate::clearing_house::replica::oracle_set(s, di, prices, n);
            &&& StateModel { marks: s.marks, ..t } == s
            &&& (forall|k: int|
                0 <= k < n ==> !is_asset(s.dexes[di], (#[trigger] prices[k]).0@, a)) ==> mark(
                t,
                di as u32,
                a,
            ) == mark(s, di as u32, a)
            &&& forall|k: int|
                #![trigger prices[k]]
                0 <= k < n && is_asset(s.dexes[di], prices[k].0@, a) && (forall|l: int|
                    k < l < n ==> !is_asset(s.dexes[di], (#[trigger] prices[l]).0@, a)) ==> mark(
                    t,
                    di as u32,
                    a,
                ) == Some(prices[k].1)
            &&& forall|d: u32, b: u32| d != di ==> #[trigger] mark(t, d, b) == mark(s, d, b)
        }),
    decreases n,
{
    if n > 0 {
        lemma_oracle(s, di, prices, n - 1, a);
        let name = prices[n - 1].0@;
        lemma_asset_named(s.dexes[di], name, 0);
        let m = crate::clearing_house::replica::oracle_set(s, di, prices, n - 1);
        let t = crate::clearing_house::replica::oracle_set(s, di, prices, n);
        let k = crate::clearing_house::replica::asset_named(s.dexes[di].universe, name, 0);
        if k < s.dexes[di].universe.len() {
            assert(is_asset(s.dexes[di], name, k as u32));
        }
        assert(is_asset(s.dexes[di], name, a) <==> k == a) by {
            if is_asset(s.dexes[di], name, a) && k != a {
                assert(s.dexes[di].universe[a as int].name == name);
            }
        }
        if k == a {
            assert(mark(t, di as u32, a) == Some(prices[n - 1].1));
            assert(is_asset(s.dexes[di], prices[n - 1].0@, a));
        } else {
            assert(mark(t, di as u32, a) == mark(m, di as u32, a));
            assert(!is_asset(s.dexes[di], prices[n - 1].0@, a));
            assert forall|j: int|
                #![trigger prices[j]]
                0 <= j < n && is_asset(s.dexes[di], prices[j].0@, a) && (forall|l: int|
                    j < l < n ==> !is_asset(s.dexes[di], (#[trigger] prices[l]).0@, a)) implies mark(
                t,
                di as u32,
                a,
            ) == Some(prices[j].1) by {
                assert(j < n - 1);
            }
        }
        assert forall|d: u32, b: u32| d != di implies #[trigger] mark(t, d, b) == mark(s, d, b) by {
            assert(mark(m, d, b) == mark(s, d, b));
        }
    }
}

/// A deployer's oracle prices set the mark price of each coin that the dex of the name lists, the last
/// one where a coin has several; other assets and other dexes keep theirs.
pub proof fn law_deployed_marks_are_set(s: StateModel, o: SetOracle, di: int, a: u32, k: int)
    requires
        0 <= di < s.dexes.len() <= u32::MAX,
        s.dexes[di].universe.len() <= u32::MAX,
        a < s.dexes[di].universe.len(),
        (o.dex@ + seq![':']).is_prefix_of(s.dexes[di].universe[0].name),
        forall|j: int|
            0 <= j < di ==> (#[trigger] s.dexes[j]).universe.len() == 0 || !(o.dex@
                + seq![':']).is_prefix_of(s.dexes[j].universe[0].name),
    ensures
        ({
            let t = crate::clearing_house::replica::deploy_effect(
                s,
                Action::PerpDeploy { set_oracle: Some(o) },
            );
            &&& StateModel { marks: s.marks, ..t } == s
            &&& 0 <= k < o.prices@.len() && is_asset(s.dexes[di], o.prices@[k].0@, a) && (forall|
                l: int,
            |
                k < l < o.prices@.len() ==> !is_asset(
                    s.dexes[di],
                    (#[trigger] o.prices@[l]).0@,
                    a,
                )) ==> mark(t, di as u32, a) == Some(o.prices@[k].1)
            &&& (forall|l: int|
                0 <= l < o.prices@.len() ==> !is_asset(
                    s.dexes[di],
                    (#[trigger] o.prices@[l]).0@,
                    a,
                )) ==> mark(t, di as u32, a) == mark(s, di as u32, a)
            &&& forall|d: u32, b: u32| d != di ==> #[trigger] mark(t, d, b) == mark(s, d, b)
        }),
{
    let p = |d: DexModel| crate::clearing_house::replica::dex_is_named(d, o.dex@);
    assert(o.dex@ + seq![':'] =~= o.dex@.push(':'));
    lemma_first_is(s.dexes, p, di, 0);
    lemma_oracle(s, di, o.prices@, o.prices@.len() as int, a);
    if 0 <= k < o.prices@.len() {
        let x = o.prices@[k];
    }
}

// ── Blocks ───────────────────────────────────────────────────────────────

/// Who an action is done for: the vault that it names, or else the user of the response.
pub open spec fn done_for(a: SignedAction, resp: Option<ActionResp>) -> Option<Seq<char>> {
    if a.vault_address is Some {
        Some(crate::text::lowercase(a.vault_address->0@))
    } else if resp is Some && resp->0.user is Some {
        Some(crate::text::lowercase(resp->0.user->0@))
    } else {
        None
    }
}

/// Whether a response says that the action went wrong.
pub open spec fn is_refused(resp: Option<ActionResp>) -> bool {
    resp is Some && resp->0.res is Some && resp->0.res->0.status@ != "ok"@
}

/// A block of one action without oracle prices does what the action does, for the vault that it names
/// or else for the user of the response, unless the response refuses it; everybody whom it affects is
/// counted once.
pub proof fn law_block_of_one_action(s: StateModel, block: ReplicaBlock, resp: Option<ActionResp>)
    requires
        block.abci_block.signed_action_bundles@.len() == 1,
        block.abci_block.signed_action_bundles@[0].1.signed_actions@.len() == 1,
        !(block.abci_block.signed_action_bundles@[0].1.signed_actions@[0].action is PerpDeploy),
        match block.resps {
            Some(Resps::Full(r)) => if r@.len() > 0 && r@[0].1@.len() > 0 {
                resp == Some(r@[0].1@[0])
            } else {
                resp is None
            },
            None => resp is None,
        },
    ensures
        ({
            let a = block.abci_block.signed_action_bundles@[0].1.signed_actions@[0];
            let e = effect_of(s, a.action, done_for(a, resp));
            let t = block_effect(s, block).state;
            if is_refused(resp) {
                t == s && block_effect(s, block).users == Set::<Seq<char>>::empty()
            } else {
                &&& StateModel { action_counts: e.state.action_counts, ..t } == e.state
                &&& block_effect(s, block).users == e.users
                &&& forall|u: Seq<char>| #[trigger]
                    count_of(t, u) == (if e.users.contains(u) {
                        count_of(s, u).wrapping_add(1)
                    } else {
                        count_of(s, u)
                    })
            }
        }),
{
    let bundles = block.abci_block.signed_action_bundles@;
    let actions = bundles[0].1.signed_actions@;
    let a = actions[0];
    reveal_with_fuel(crate::clearing_house::replica::bundles_effect, 3);
    reveal_with_fuel(crate::clearing_house::replica::bundle_effect, 3);
    reveal_with_fuel(crate::clearing_house::replica::bundles_deploys, 3);
    reveal_with_fuel(crate::clearing_house::replica::bundle_deploys, 3);
    let rs = crate::clearing_house::replica::bundle_resps(block.resps, 0);
    let none = crate::clearing_house::replica::no_effect(s);
    let inner = crate::clearing_house::replica::bundle_effect(none, actions, rs, 1);
    let e = effect_of(s, a.action, done_for(a, resp));
    assert(crate::clearing_house::replica::actor_of(a.vault_address, resp) == done_for(a, resp));
    assert(Set::<Seq<char>>::empty().union(e.users) =~= e.users);
    let t = block_effect(s, block).state;
    if a.action.ignored() {
        law_other_actions_do_nothing(s, a.action, done_for(a, resp));
    }
    assert(e.state.action_counts == s.action_counts) by {
        crate::clearing_house::laws::law_action_keeps_markets(s, a.action, done_for(a, resp));
        lemma_counts_stay(s, a.action, done_for(a, resp));
    }
    if is_refused(resp) {
        assert(t.action_counts =~= s.action_counts);
        assert(t =~= s);
    }
}

proof fn lemma_counts_stay(s: StateModel, action: Action, actor: Option<Seq<char>>)
    ensures
        effect_of(s, action, actor).state.action_counts == s.action_counts,
{
    match action {
        Action::SetGlobalAction { pxs } => {
            lemma_marks_keep_counts(s, pxs@, pxs@.len() as int);
        },
        _ => {},
    }
}

proof fn lemma_marks_keep_counts(s: StateModel, pxs: Seq<Option<u64>>, n: int)
    ensures
        crate::clearing_house::replica::marks_set(s, pxs, n).action_counts == s.action_counts,
    decreases n,
{
    if n > 0 {
        lemma_marks_keep_counts(s, pxs, n - 1);
    }
}

/// The actions of a bundle act one behind the other: the last one acts on what the others left.
pub proof fn law_last_action_acts_last(
    s: StateModel,
    actions: Seq<SignedAction>,
    last: SignedAction,
    resps: Seq<ActionResp>,
)
    requires
        resps.len() == actions.len() + 1,
        !is_refused(Some(resps.last())),
        !last.action.ignored(),
    ensures
        ({
            let none = crate::clearing_house::replica::no_effect(s);
            let first = crate::clearing_house::replica::bundle_effect(
                none,
                actions,
                Some(resps.drop_last()),
                actions.len() as int,
            );
            crate::clearing_house::replica::bundle_effect(
                none,
                actions.push(last),
                Some(resps),
                (actions.len() + 1) as int,
            ).state == effect_of(first.state, last.action, done_for(last, Some(resps.last()))).state
        }),
{
    let none = crate::clearing_house::replica::no_effect(s);
    lemma_prefix(none, actions, actions.push(last), resps.drop_last(), resps, actions.len() as int);
    assert(crate::clearing_house::replica::actor_of(last.vault_address, Some(resps.last()))
        == done_for(last, Some(resps.last())));
}

proof fn lemma_prefix(
    e: crate::clearing_house::replica::Effect,
    a: Seq<SignedAction>,
    b: Seq<SignedAction>,
    p: Seq<ActionResp>,
    q: Seq<ActionResp>,
    n: int,
)
    requires
        0 <= n <= a.len(),
        a.len() <= b.len(),
        n <= p.len(),
        n <= q.len(),
        forall|i: int| 0 <= i < n ==> #[trigger] a[i] == b[i],
        forall|i: int| 0 <= i < n ==> #[trigger] p[i] == q[i],
    ensures
        crate::clearing_house::replica::bundle_effect(e, a, Some(p), n)
            == crate::clearing_house::replica::bundle_effect(e, b, Some(q), n),
    decreases n,
{
    if n > 0 {
        lemma_prefix(e, a, b, p, q, n - 1);
        assert(a[n - 1] == b[n - 1]);
        assert(p[n - 1] == q[n - 1]);
    }
}

} // verus!

//! What fills do, told by what stands in the state before and after them.
use crate::clearing_house::fill::{state_after_fill, FillAmounts};
use crate::clearing_house::{AccountMode, DexModel, Leverage, MarginMode, StateModel, UserModel};
use vstd::prelude::*;

verus! {

/// What a dex knows of a user: all of it, what it knows of a user without positions, or nothing.
pub open spec fn user_on(d: DexModel, u: Seq<char>) -> UserModel {
    if d.users.contains_key(u) {
        d.users[u]
    } else if d.partials.contains_key(u) {
        UserModel {
            usdc_balance: d.partials[u].usdc_balance,
            spot_collateral: d.partials[u].spot_collateral,
            spot_collateral_decimals: d.partials[u].spot_collateral_decimals,
            account_mode: d.partials[u].account_mode,
            positions: Map::empty(),
            leverage_settings: d.partials[u].leverage_settings,
        }
    } else {
        UserModel {
            usdc_balance: 0,
            spot_collateral: 0,
            spot_collateral_decimals: 8,
            account_mode: AccountMode::Standard,
            positions: Map::empty(),
            leverage_settings: Map::empty(),
        }
    }
}

/// The dex on which a coin trades.
pub open spec fn dex_of(s: StateModel, coin: Seq<char>) -> DexModel {
    s.dexes[s.coins[coin].0 as int]
}

/// The asset that a coin is on its dex.
pub open spec fn asset_of(s: StateModel, coin: Seq<char>) -> u32 {
    s.coins[coin].1 as u32
}

/// What is known of the user on the dex of the coin.
pub open spec fn trader(s: StateModel, user: Seq<char>, coin: Seq<char>) -> UserModel {
    user_on(dex_of(s, coin), crate::text::lowercase(user))
}

/// The part of a notional that backs it at a multiple, rounded toward zero; nothing without one.
pub open spec fn backing(notional: i64, multiple: u32) -> int {
    if multiple == 0 {
        0
    } else if notional >= 0 {
        notional as int / multiple as int
    } else {
        -((-notional) / (multiple as int))
    }
}

/// The smaller of a balance that is not below nothing and an amount.
pub open spec fn at_hand(balance: i64, amount: int) -> int {
    let some = if balance > 0 {
        balance as int
    } else {
        0
    };
    if amount <= some {
        amount
    } else {
        some
    }
}

/// A fill that can be applied: its coin is known, and it is not one that starts from nothing while the
/// user still holds something.
pub open spec fn is_plain(s: StateModel, user: Seq<char>, coin: Seq<char>, f: FillAmounts) -> bool {
    &&& s.coins_valid()
    &&& s.coins.contains_key(coin)
    &&& f.start_szi == 0 ==> !trader(s, user, coin).positions.contains_key(asset_of(s, coin))
}

/// Whether a fill buys from a long position, or sells from a short one.
pub open spec fn goes_along(f: FillAmounts) -> bool {
    f.start_szi > 0 && f.is_buy || f.start_szi < 0 && !f.is_buy
}

/// Whether a fill sells from a long position, or buys from a short one.
pub open spec fn goes_against(f: FillAmounts) -> bool {
    f.start_szi > 0 && !f.is_buy || f.start_szi < 0 && f.is_buy
}

/// Whether the size stays on its side.
pub open spec fn stays_on_side(f: FillAmounts) -> bool {
    f.start_szi > 0 && f.new_szi > 0 || f.start_szi < 0 && f.new_szi < 0
}

/// Whether the size goes over to the other side.
pub open spec fn changes_side(f: FillAmounts) -> bool {
    f.start_szi > 0 && f.new_szi < 0 || f.start_szi < 0 && f.new_szi > 0
}

// ── What a fill reaches ──────────────────────────────────────────────────

/// A fill without amounts, or in a coin that is not known, changes nothing.
pub proof fn law_empty_fills_change_nothing(
    s: StateModel,
    user: Seq<char>,
    coin: Seq<char>,
    amounts: Option<FillAmounts>,
)
    requires
        amounts is None || !s.coins.contains_key(coin),
    ensures
        state_after_fill(s, user, coin, amounts) == s,
{
}

/// After a fill the user holds the size that the fill reports in the asset, and nothing there when that
/// is zero. The user is known in full on the dex.
pub proof fn law_fill_sets_the_size(s: StateModel, user: Seq<char>, coin: Seq<char>, f: FillAmounts)
    requires
        s.coins_valid(),
        s.coins.contains_key(coin),
    ensures
        ({
            let t = state_after_fill(s, user, coin, Some(f));
            let d = dex_of(t, coin);
            let u = crate::text::lowercase(user);
            let a = asset_of(s, coin);
            &&& d.users.contains_key(u)
            &&& !d.partials.contains_key(u)
            &&& f.new_szi != 0 <==> d.users[u].positions.contains_key(a)
            &&& f.new_szi != 0 ==> d.users[u].positions[a].szi == f.new_szi
        }),
{
}

/// A fill reaches its user only: other users and other dexes stay as they are. The one exception is
/// dex 0, where the balance of the same user may pay for margin.
#[verifier::spinoff_prover]
#[verifier::rlimit(30)]
pub proof fn law_fill_reaches_its_user_only(
    s: StateModel,
    user: Seq<char>,
    coin: Seq<char>,
    f: FillAmounts,
)
    requires
        s.coins_valid(),
        s.coins.contains_key(coin),
    ensures
        ({
            let t = state_after_fill(s, user, coin, Some(f));
            let u = crate::text::lowercase(user);
            let di = s.coins[coin].0 as int;
            &&& t.dexes.len() == s.dexes.len()
            &&& forall|i: int, v: Seq<char>|
                #![trigger t.dexes[i].users.contains_key(v)]
                0 <= i < s.dexes.len() && v != u ==> (t.dexes[i].users.contains_key(v)
                    == s.dexes[i].users.contains_key(v)) && (s.dexes[i].users.contains_key(v)
                    ==> t.dexes[i].users[v] == s.dexes[i].users[v])
            &&& forall|i: int, v: Seq<char>|
                #![trigger t.dexes[i].partials.contains_key(v)]
                0 <= i < s.dexes.len() && v != u ==> (t.dexes[i].partials.contains_key(v)
                    == s.dexes[i].partials.contains_key(v)) && (s.dexes[i].partials.contains_key(v)
                    ==> t.dexes[i].partials[v] == s.dexes[i].partials[v])
            &&& forall|i: int| 0 < i < s.dexes.len() && i != di ==> (#[trigger] t.dexes[i]) == s.dexes[i]
        }),
{
}

/// A fill reaches its asset only: the user's positions and settings in other assets stay as they are,
/// and so do the mode and the collateral.
#[verifier::spinoff_prover]
#[verifier::rlimit(30)]
pub proof fn law_fill_reaches_its_asset_only(
    s: StateModel,
    user: Seq<char>,
    coin: Seq<char>,
    f: FillAmounts,
)
    requires
        s.coins_valid(),
        s.coins.contains_key(coin),
    ensures
        ({
            let t = state_after_fill(s, user, coin, Some(f));
            let a = asset_of(s, coin);
            let (was, now) = (trader(s, user, coin), trader(t, user, coin));
            &&& forall|x: u32|
                #![trigger now.positions.contains_key(x)]
                x != a ==> (now.positions.contains_key(x) == was.positions.contains_key(x)) && (
                was.positions.contains_key(x) ==> now.positions[x] == was.positions[x])
            &&& forall|x: u32|
                #![trigger now.leverage_settings.contains_key(x)]
                x != a ==> (now.leverage_settings.contains_key(x)
                    == was.leverage_settings.contains_key(x)) && (was.leverage_settings.contains_key(x)
                    ==> now.leverage_settings[x] == was.leverage_settings[x])
            &&& now.account_mode == was.account_mode
            &&& now.spot_collateral == was.spot_collateral
            &&& now.spot_collateral_decimals == was.spot_collateral_decimals
        }),
{
}

/// A fill leaves everything as it is that is neither of a dex, nor counts actions or leverages that
/// are missing.
pub proof fn law_fill_leaves_the_rest(
    s: StateModel,
    user: Seq<char>,
    coin: Seq<char>,
    f: FillAmounts,
)
    requires
        s.coins_valid(),
        s.coins.contains_key(coin),
    ensures
        ({
            let t = state_after_fill(s, user, coin, Some(f));
            &&& (t.coins, t.nonces, t.vault_withdrawals, t.event_log, t.unified) == (
                s.coins,
                s.nonces,
                s.vault_withdrawals,
                s.event_log,
                s.unified,
            )
            &&& (t.borrows, t.portfolio_margin, t.vaults, t.marks, t.dex_names) == (
                s.borrows,
                s.portfolio_margin,
                s.vaults,
                s.marks,
                s.dex_names,
            )
        }),
{
}

/// A fill sets the oracle price of its asset, where the dex has one for it, and no other.
pub proof fn law_fill_sets_the_price(s: StateModel, user: Seq<char>, coin: Seq<char>, f: FillAmounts)
    requires
        s.coins_valid(),
        s.coins.contains_key(coin),
    ensures
        ({
            let (was, now) = (
                dex_of(s, coin).oracle_prices,
                dex_of(state_after_fill(s, user, coin, Some(f)), coin).oracle_prices,
            );
            let ai = s.coins[coin].1 as int;
            &&& now.len() == was.len()
            &&& forall|i: int|
                0 <= i < was.len() ==> (#[trigger] now[i]) == if i == ai {
                    f.oracle_px
                } else {
                    was[i]
                }
        }),
{
}

/// A fill counts as one more action of its user and of nobody else.
pub proof fn law_fill_is_counted(s: StateModel, user: Seq<char>, coin: Seq<char>, f: FillAmounts)
    requires
        s.coins_valid(),
        s.coins.contains_key(coin),
    ensures
        ({
            let (was, now) = (
                s.action_counts,
                state_after_fill(s, user, coin, Some(f)).action_counts,
            );
            let u = crate::text::lowercase(user);
            &&& now.contains_key(u)
            &&& !was.contains_key(u) ==> now[u] == 1
            &&& was.contains_key(u) && was[u] < u32::MAX ==> now[u] == was[u] + 1
            &&& forall|v: Seq<char>|
                #![trigger now.contains_key(v)]
                v != u ==> now.contains_key(v) == was.contains_key(v) && (was.contains_key(v) ==> now[v]
                    == was[v])
        }),
{
}

/// A position that is opened although nobody has set a leverage for it is noted for later, once; no
/// other fill is noted.
pub proof fn law_guesses_are_noted(s: StateModel, user: Seq<char>, coin: Seq<char>, f: FillAmounts)
    requires
        is_plain(s, user, coin, f),
    ensures
        ({
            let t = state_after_fill(s, user, coin, Some(f));
            let b = trader(s, user, coin);
            let a = asset_of(s, coin);
            let bare = !b.positions.contains_key(a) && !b.leverage_settings.contains_key(a);
            let market = dex_of(s, coin).universe[s.coins[coin].1 as int].margin_mode;
            &&& bare && f.new_szi != 0 && !(changes_side(f) && market != MarginMode::Normal)
                ==> t.leverage_fixes == s.leverage_fixes.push(
                (crate::text::lowercase(user), s.coins[coin].0, a),
            )
            &&& !bare || f.new_szi == 0 ==> t.leverage_fixes == s.leverage_fixes
        }),
{
}

// ── Cost basis ───────────────────────────────────────────────────────────

/// Adding to a position adds the notional of the fill to its cost basis, on either side of the market.
pub proof fn law_adding_adds_to_the_cost_basis(
    s: StateModel,
    user: Seq<char>,
    coin: Seq<char>,
    f: FillAmounts,
)
    requires
        s.coins_valid(),
        s.coins.contains_key(coin),
        trader(s, user, coin).positions.contains_key(asset_of(s, coin)),
        goes_along(f),
        f.new_szi != 0,
        changes_side(f) ==> trader(s, user, coin).positions[asset_of(s, coin)].leverage is Cross,
    ensures
        ({
            let p = trader(s, user, coin).positions[asset_of(s, coin)];
            let q = trader(state_after_fill(s, user, coin, Some(f)), user, coin).positions[asset_of(
                s,
                coin,
            )];
            &&& q.cost_basis == p.cost_basis.wrapping_add(f.notional)
            &&& i64::MIN <= p.cost_basis + f.notional <= i64::MAX ==> q.cost_basis == p.cost_basis
                + f.notional
        }),
{
}

/// A position that a fill opens has the notional of the fill as its cost basis, nothing outstanding and
/// the margin table of its market.
pub proof fn law_opening_costs_the_notional(
    s: StateModel,
    user: Seq<char>,
    coin: Seq<char>,
    f: FillAmounts,
)
    requires
        is_plain(s, user, coin, f),
        f.start_szi == 0,
        f.new_szi != 0,
    ensures
        ({
            let q = trader(state_after_fill(s, user, coin, Some(f)), user, coin).positions[asset_of(
                s,
                coin,
            )];
            &&& q.cost_basis == f.notional
            &&& q.outstanding_funding == 0
            &&& q.margin_table_id == dex_of(s, coin).universe[s.coins[coin].1 as int].margin_table_id
        }),
{
}

/// A fill against a position leaves the share of the cost basis that the fill reports; outstanding
/// funding and margin table stay.
pub proof fn law_reducing_leaves_a_share(
    s: StateModel,
    user: Seq<char>,
    coin: Seq<char>,
    f: FillAmounts,
)
    requires
        s.coins_valid(),
        s.coins.contains_key(coin),
        trader(s, user, coin).positions.contains_key(asset_of(s, coin)),
        goes_against(f),
        f.had_size,
        f.new_szi != 0,
        changes_side(f) ==> trader(s, user, coin).positions[asset_of(s, coin)].leverage is Cross,
    ensures
        ({
            let p = trader(s, user, coin).positions[asset_of(s, coin)];
            let q = trader(state_after_fill(s, user, coin, Some(f)), user, coin).positions[asset_of(
                s,
                coin,
            )];
            &&& q.cost_basis == f.reduced_cost_basis
            &&& q.outstanding_funding == p.outstanding_funding
            &&& q.margin_table_id == p.margin_table_id
        }),
{
}

/// The state after the first `n` fills of a user in a coin.
pub open spec fn after_fills(
    s: StateModel,
    user: Seq<char>,
    coin: Seq<char>,
    fs: Seq<FillAmounts>,
    n: int,
) -> StateModel
    decreases n,
{
    if n <= 0 {
        s
    } else {
        state_after_fill(after_fills(s, user, coin, fs, n - 1), user, coin, Some(fs[n - 1]))
    }
}

/// The sum of the notionals of the first `n` fills.
pub open spec fn notionals(fs: Seq<FillAmounts>, n: int) -> int
    decreases n,
{
    if n <= 0 {
        0
    } else {
        notionals(fs, n - 1) + fs[n - 1].notional
    }
}

/// Whether fills build a position up: the first starts from nothing, each of the others from where the
/// one before it ended, and all go the same way.
pub open spec fn build_up(fs: Seq<FillAmounts>, is_buy: bool) -> bool {
    forall|i: int|
        0 <= i < fs.len() ==> {
            let f = #[trigger] fs[i];
            &&& f.is_buy == is_buy
            &&& if is_buy {
                f.new_szi > 0
            } else {
                f.new_szi < 0
            }
            &&& f.start_szi == if i == 0 {
                0
            } else {
                fs[i - 1].new_szi
            }
        }
}

/// The cost basis of a position that was only added to is the sum of what its fills cost.
pub proof fn law_cost_basis_is_the_sum_of_the_fills(
    s: StateModel,
    user: Seq<char>,
    coin: Seq<char>,
    fs: Seq<FillAmounts>,
    is_buy: bool,
    n: int,
)
    requires
        s.coins_valid(),
        s.coins.contains_key(coin),
        !trader(s, user, coin).positions.contains_key(asset_of(s, coin)),
        build_up(fs, is_buy),
        0 < n <= fs.len(),
        forall|k: int| 0 <= k <= n ==> i64::MIN <= #[trigger] notionals(fs, k) <= i64::MAX,
    ensures
        ({
            let t = after_fills(s, user, coin, fs, n);
            let b = trader(t, user, coin);
            &&& t.coins == s.coins
            &&& t.coins_valid()
            &&& b.positions.contains_key(asset_of(s, coin))
            &&& b.positions[asset_of(s, coin)].szi == fs[n - 1].new_szi
            &&& b.positions[asset_of(s, coin)].cost_basis == notionals(fs, n)
        }),
    decreases n,
{
    let f = fs[n - 1];
    assert(notionals(fs, n) == notionals(fs, n - 1) + f.notional);
    if n == 1 {
        assert(after_fills(s, user, coin, fs, 0) == s);
        law_opening_costs_the_notional(s, user, coin, f);
        law_fill_sets_the_size(s, user, coin, f);
        crate::clearing_house::laws::law_fill_keeps_markets(s, user, coin, Some(f));
        crate::clearing_house::laws::lemma_markets_valid(
            s,
            state_after_fill(s, user, coin, Some(f)),
        );
    } else {
        law_cost_basis_is_the_sum_of_the_fills(s, user, coin, fs, is_buy, n - 1);
        let b = after_fills(s, user, coin, fs, n - 1);
        assert(fs[n - 2].new_szi == f.start_szi);
        law_adding_adds_to_the_cost_basis(b, user, coin, f);
        law_fill_sets_the_size(b, user, coin, f);
        crate::clearing_house::laws::law_fill_keeps_markets(b, user, coin, Some(f));
        crate::clearing_house::laws::lemma_markets_valid(
            b,
            state_after_fill(b, user, coin, Some(f)),
        );
    }
}

// ── Cross margin ─────────────────────────────────────────────────────────

/// Whether a fill of the user in the coin trades on cross margin: by the position that is held, else by
/// the setting, else by the market.
pub open spec fn is_cross(s: StateModel, user: Seq<char>, coin: Seq<char>) -> bool {
    let b = trader(s, user, coin);
    let a = asset_of(s, coin);
    if b.positions.contains_key(a) {
        b.positions[a].leverage is Cross
    } else if b.leverage_settings.contains_key(a) {
        b.leverage_settings[a] is Cross
    } else {
        dex_of(s, coin).universe[s.coins[coin].1 as int].margin_mode == MarginMode::Normal
    }
}

/// On cross margin a fill changes the balance by what it costs or brings, on no other dex, and a
/// position that stays open keeps its leverage.
pub proof fn law_cross_fills_settle_in_the_balance(
    s: StateModel,
    user: Seq<char>,
    coin: Seq<char>,
    f: FillAmounts,
)
    requires
        is_plain(s, user, coin, f),
        is_cross(s, user, coin),
    ensures
        ({
            let t = state_after_fill(s, user, coin, Some(f));
            let (was, now) = (trader(s, user, coin), trader(t, user, coin));
            let a = asset_of(s, coin);
            &&& now.usdc_balance == was.usdc_balance.wrapping_add(f.delta_u)
            &&& s.coins[coin].0 != 0 ==> t.dexes[0] == s.dexes[0]
            &&& f.new_szi != 0 ==> now.positions[a].leverage is Cross
            &&& f.new_szi != 0 && was.positions.contains_key(a) ==> now.positions[a].leverage
                == was.positions[a].leverage
        }),
{
}

// ── Isolated margin ──────────────────────────────────────────────────────

/// Adding to an isolated position moves margin from the balance to the position: the notional of the
/// fill over the multiple. What a standard balance lacks is taken from dex 0; a shared balance gives
/// what it has.
pub proof fn law_adding_deposits_margin(
    s: StateModel,
    user: Seq<char>,
    coin: Seq<char>,
    f: FillAmounts,
    multiple: u32,
    raw: i64,
)
    requires
        is_plain(s, user, coin, f),
        trader(s, user, coin).positions.contains_key(asset_of(s, coin)),
        trader(s, user, coin).positions[asset_of(s, coin)].leverage == (Leverage::Isolated {
            leverage: multiple,
            raw_usd: raw,
        }),
        goes_along(f),
        stays_on_side(f),
        multiple > 0,
        f.notional >= 0,
        s.coins[coin].0 != 0,
    ensures
        ({
            let t = state_after_fill(s, user, coin, Some(f));
            let u = crate::text::lowercase(user);
            let (was, now) = (trader(s, user, coin), trader(t, user, coin));
            let margin = backing(f.notional, multiple);
            let shared = was.account_mode is Unified || was.account_mode is DexAbstraction;
            let enough = was.usdc_balance >= margin;
            &&& now.positions[asset_of(s, coin)].leverage == (Leverage::Isolated {
                leverage: multiple,
                raw_usd: raw.wrapping_add(f.delta_u).wrapping_add(margin as i64),
            })
            &&& shared || !enough ==> now.usdc_balance == was.usdc_balance.wrapping_sub(
                at_hand(was.usdc_balance, margin) as i64,
            )
            &&& !shared && enough ==> now.usdc_balance == was.usdc_balance.wrapping_sub(margin as i64)
            &&& shared || enough ==> t.dexes[0] == s.dexes[0]
            &&& !shared && !enough ==> user_on(t.dexes[0], u).usdc_balance == if s.dexes[0].users.contains_key(
                u,
            ) || s.dexes[0].partials.contains_key(u) {
                user_on(s.dexes[0], u).usdc_balance.wrapping_sub(
                    (margin - at_hand(was.usdc_balance, margin)) as i64,
                )
            } else {
                0
            }
        }),
{
    lemma_backing_fits(f.notional, multiple);
}

/// A part of an amount fits where the amount fits.
proof fn lemma_backing_fits(notional: i64, multiple: u32)
    requires
        multiple > 0,
    ensures
        i64::MIN < backing(notional, multiple) <= i64::MAX || multiple == 1,
        i64::MIN <= backing(notional, multiple) <= i64::MAX,
        notional >= 0 ==> backing(notional, multiple) >= 0,
        notional <= 0 ==> backing(notional, multiple) <= 0,
{
    let n = if notional >= 0 {
        notional as int
    } else {
        -notional
    };
    assert(0 <= n / (multiple as int) <= n) by (nonlinear_arith)
        requires
            n >= 0,
            multiple > 0,
    ;
    if multiple >= 2 {
        assert(n / (multiple as int) <= n / 2) by (nonlinear_arith)
            requires
                n >= 0,
                multiple >= 2,
        ;
    }
}

/// A fill against an isolated position that leaves it open returns to the balance what the closed part
/// frees, if that is more than nothing; the rest stays with the position.
pub proof fn law_reducing_frees_margin(
    s: StateModel,
    user: Seq<char>,
    coin: Seq<char>,
    f: FillAmounts,
    multiple: u32,
    raw: i64,
)
    requires
        is_plain(s, user, coin, f),
        trader(s, user, coin).positions.contains_key(asset_of(s, coin)),
        trader(s, user, coin).positions[asset_of(s, coin)].leverage == (Leverage::Isolated {
            leverage: multiple,
            raw_usd: raw,
        }),
        goes_against(f),
        stays_on_side(f),
    ensures
        ({
            let t = state_after_fill(s, user, coin, Some(f));
            let (was, now) = (trader(s, user, coin), trader(t, user, coin));
            let part = f.released_raw_usd.wrapping_add(f.delta_u);
            let freed = if f.had_size && part > 0 {
                part
            } else {
                0
            };
            &&& now.usdc_balance == was.usdc_balance.wrapping_add(freed)
            &&& now.positions[asset_of(s, coin)].leverage == (Leverage::Isolated {
                leverage: multiple,
                raw_usd: raw.wrapping_add(f.delta_u).wrapping_sub(freed),
            })
            &&& s.coins[coin].0 != 0 ==> t.dexes[0] == s.dexes[0]
        }),
{
}

/// Closing a position returns its isolated margin with the fill's result to the balance, or the result
/// alone on cross margin. The mode and the multiple are remembered, without margin.
pub proof fn law_closing_returns_margin(
    s: StateModel,
    user: Seq<char>,
    coin: Seq<char>,
    f: FillAmounts,
)
    requires
        is_plain(s, user, coin, f),
        trader(s, user, coin).positions.contains_key(asset_of(s, coin)),
        goes_against(f),
        f.new_szi == 0,
    ensures
        ({
            let t = state_after_fill(s, user, coin, Some(f));
            let (was, now) = (trader(s, user, coin), trader(t, user, coin));
            let a = asset_of(s, coin);
            &&& now.leverage_settings.contains_key(a)
            &&& match was.positions[a].leverage {
                Leverage::Isolated { leverage, raw_usd } => {
                    &&& now.usdc_balance == was.usdc_balance.wrapping_add(
                        raw_usd.wrapping_add(f.delta_u),
                    )
                    &&& now.leverage_settings[a] == (Leverage::Isolated { leverage, raw_usd: 0 })
                },
                Leverage::Cross(v) => {
                    &&& now.usdc_balance == was.usdc_balance.wrapping_add(f.delta_u)
                    &&& now.leverage_settings[a] == Leverage::Cross(v)
                },
            }
            &&& s.coins[coin].0 != 0 ==> t.dexes[0] == s.dexes[0]
        }),
{
}

/// A fill that takes an isolated position to the other side closes it into the balance and opens the
/// new one with margin from the balance, at the same multiple.
pub proof fn law_flipping_closes_and_opens(
    s: StateModel,
    user: Seq<char>,
    coin: Seq<char>,
    f: FillAmounts,
    multiple: u32,
    raw: i64,
)
    requires
        is_plain(s, user, coin, f),
        trader(s, user, coin).positions.contains_key(asset_of(s, coin)),
        trader(s, user, coin).positions[asset_of(s, coin)].leverage == (Leverage::Isolated {
            leverage: multiple,
            raw_usd: raw,
        }),
        changes_side(f),
    ensures
        ({
            let t = state_after_fill(s, user, coin, Some(f));
            let (was, now) = (trader(s, user, coin), trader(t, user, coin));
            let q = now.positions[asset_of(s, coin)];
            let margin = backing(f.open_notional, multiple) as i64;
            &&& now.usdc_balance == was.usdc_balance.wrapping_add(
                raw.wrapping_add(f.close_delta),
            ).wrapping_sub(margin)
            &&& q.cost_basis == f.open_cost_basis
            &&& q.outstanding_funding == 0
            &&& q.leverage == (Leverage::Isolated {
                leverage: multiple,
                raw_usd: f.open_delta.wrapping_add(margin),
            })
            &&& s.coins[coin].0 != 0 ==> t.dexes[0] == s.dexes[0]
        }),
{
    if multiple > 0 {
        lemma_backing_fits(f.open_notional, multiple);
    }
}

/// A fill that starts from nothing while a position is held tells that the position was closed outside:
/// its margin returns to the balance, and what follows is as if the user had held nothing and
/// remembered the leverage.
pub proof fn law_closed_outside_is_closed_first(
    s: StateModel,
    user: Seq<char>,
    coin: Seq<char>,
    f: FillAmounts,
)
    requires
        s.coins_valid(),
        s.coins.contains_key(coin),
        trader(s, user, coin).positions.contains_key(asset_of(s, coin)),
        trader(s, user, coin).positions[asset_of(s, coin)].szi != 0,
        f.start_szi == 0,
    ensures
        ({
            let u = crate::text::lowercase(user);
            let a = asset_of(s, coin);
            let di = s.coins[coin].0 as int;
            let b = trader(s, user, coin);
            let (bare, back) = match b.positions[a].leverage {
                Leverage::Isolated { leverage, raw_usd } => (
                    Leverage::Isolated { leverage, raw_usd: 0 },
                    raw_usd,
                ),
                Leverage::Cross(v) => (Leverage::Cross(v), 0i64),
            };
            let closed = UserModel {
                usdc_balance: b.usdc_balance.wrapping_add(back),
                positions: b.positions.remove(a),
                leverage_settings: b.leverage_settings.insert(a, bare),
                ..b
            };
            let d = DexModel { users: s.dexes[di].users.insert(u, closed), ..s.dexes[di] };
            state_after_fill(s, user, coin, Some(f)) == state_after_fill(
                StateModel { dexes: s.dexes.update(di, d), ..s },
                user,
                coin,
                Some(f),
            )
        }),
{
    let u = crate::text::lowercase(user);
    let a = asset_of(s, coin);
    let di = s.coins[coin].0 as int;
    let b = trader(s, user, coin);
    let (bare, back) = match b.positions[a].leverage {
        Leverage::Isolated { leverage, raw_usd } => (
            Leverage::Isolated { leverage, raw_usd: 0 },
            raw_usd,
        ),
        Leverage::Cross(v) => (Leverage::Cross(v), 0i64),
    };
    let closed = UserModel {
        usdc_balance: b.usdc_balance.wrapping_add(back),
        positions: b.positions.remove(a),
        leverage_settings: b.leverage_settings.insert(a, bare),
        ..b
    };
    let d = DexModel { users: s.dexes[di].users.insert(u, closed), ..s.dexes[di] };
    let v = StateModel { dexes: s.dexes.update(di, d), ..s };
    let (x, y) = (
        crate::clearing_house::fill::dex_after_fill(s.dexes[di], u, s.coins[coin].1, f),
        crate::clearing_house::fill::dex_after_fill(d, u, s.coins[coin].1, f),
    );
    assert(x.users =~= y.users);
    assert(x =~= y);
    assert(s.dexes.update(di, x) =~= v.dexes.update(di, y));
}

// ── The leverage of what is opened ───────────────────────────────────────

/// A position that a fill opens has the mode and the multiple that were set for it. Where nothing was
/// set, it is cross where the market allows that and isolated elsewhere, at the multiple that the
/// market allows but no more than 20.
pub proof fn law_opening_takes_the_setting(
    s: StateModel,
    user: Seq<char>,
    coin: Seq<char>,
    f: FillAmounts,
)
    requires
        is_plain(s, user, coin, f),
        f.start_szi == 0,
        f.new_szi != 0,
    ensures
        ({
            let b = trader(s, user, coin);
            let d = dex_of(s, coin);
            let a = asset_of(s, coin);
            let meta = d.universe[s.coins[coin].1 as int];
            let table = meta.margin_table_id;
            let tiers = d.margin_tables[table];
            let most = if d.pdi == 0 && d.margin_tables.contains_key(table) && tiers.len() > 0 {
                tiers[0].max_leverage
            } else {
                table
            };
            let guess = if most < 20 {
                most
            } else {
                20
            };
            let l = trader(state_after_fill(s, user, coin, Some(f)), user, coin).positions[a].leverage;
            if b.leverage_settings.contains_key(a) {
                match b.leverage_settings[a] {
                    Leverage::Cross(v) => l == Leverage::Cross(v),
                    Leverage::Isolated { leverage, .. } => l matches Leverage::Isolated {
                        leverage: m,
                        ..
                    } && m == leverage,
                }
            } else if meta.margin_mode == MarginMode::Normal {
                l == Leverage::Cross(guess)
            } else {
                l matches Leverage::Isolated { leverage: m, .. } && m == guess
            }
        }),
{
}

/// Opening an isolated position at a multiple that was set moves the margin that it needs from a
/// balance that has it.
pub proof fn law_opening_deposits_margin(
    s: StateModel,
    user: Seq<char>,
    coin: Seq<char>,
    f: FillAmounts,
    multiple: u32,
)
    requires
        is_plain(s, user, coin, f),
        f.start_szi == 0,
        f.new_szi != 0,
        trader(s, user, coin).leverage_settings.contains_key(asset_of(s, coin)),
        trader(s, user, coin).leverage_settings[asset_of(s, coin)] == (Leverage::Isolated {
            leverage: multiple,
            raw_usd: 0,
        }),
        multiple > 0,
        f.notional >= 0,
        trader(s, user, coin).usdc_balance >= backing(f.notional, multiple),
    ensures
        ({
            let t = state_after_fill(s, user, coin, Some(f));
            let (was, now) = (trader(s, user, coin), trader(t, user, coin));
            let margin = backing(f.notional, multiple);
            &&& now.usdc_balance == was.usdc_balance - margin
            &&& now.positions[asset_of(s, coin)].leverage == (Leverage::Isolated {
                leverage: multiple,
                raw_usd: f.delta_u.wrapping_add(margin as i64),
            })
        }),
{
    lemma_backing_fits(f.notional, multiple);
}

} // verus!

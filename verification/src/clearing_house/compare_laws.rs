//! What a comparison reports, told by what stands in the two states.
use crate::clearing_house::compare::{
    balance_compared,
    blank,
    collateral_compared,
    cross_total,
    extras_noted,
    positions_compared,
    result_for,
    unknown_users,
    user_compared,
    users_compared,
    BalanceModel,
    ComparisonModel,
    FieldModel,
    LeverageModel,
};
use crate::clearing_house::{
    AccountMode,
    AssetModel,
    DexModel,
    Leverage,
    LiquidationState,
    Position,
    StateModel,
};
use vstd::prelude::*;

verus! {

// ── Words ────────────────────────────────────────────────────────────────

/// What a list says of a user's asset, in order.
pub open spec fn told(s: Seq<FieldModel>, u: Seq<char>, a: u32) -> Seq<FieldModel>
    decreases s.len(),
{
    if s.len() == 0 {
        Seq::empty()
    } else {
        let r = told(s.drop_last(), u, a);
        if s.last().0 == u && s.last().1 == a {
            r.push(s.last())
        } else {
            r
        }
    }
}

/// What a list says of the leverage of a user's asset, in order.
pub open spec fn told_leverage(s: Seq<LeverageModel>, u: Seq<char>, a: u32) -> Seq<LeverageModel>
    decreases s.len(),
{
    if s.len() == 0 {
        Seq::empty()
    } else {
        let r = told_leverage(s.drop_last(), u, a);
        if s.last().0 == u && s.last().1 == a {
            r.push(s.last())
        } else {
            r
        }
    }
}

/// What a list says of a user's balance, in order.
pub open spec fn told_balance(s: Seq<BalanceModel>, u: Seq<char>) -> Seq<BalanceModel>
    decreases s.len(),
{
    if s.len() == 0 {
        Seq::empty()
    } else {
        let r = told_balance(s.drop_last(), u);
        if s.last().0 == u {
            r.push(s.last())
        } else {
            r
        }
    }
}

/// The size that is held in an asset; nothing without a position.
pub open spec fn size_in(m: Map<u32, Position>, a: u32) -> i64 {
    if m.contains_key(a) {
        m[a].szi
    } else {
        0
    }
}

/// The name of a coin; a question mark for one that the dex does not list.
pub open spec fn name_in(universe: Seq<AssetModel>, a: u32) -> Seq<char> {
    if a < universe.len() {
        universe[a as int].name
    } else {
        "?"@
    }
}

/// Whether the two hold different sizes of the asset, or only one of them holds it.
pub open spec fn sizes_differ(r: Map<u32, Position>, t: Map<u32, Position>, a: u32) -> bool {
    r.contains_key(a) != t.contains_key(a) || size_in(r, a) != size_in(t, a)
}

/// Whether both hold the asset.
pub open spec fn both_hold(r: Map<u32, Position>, t: Map<u32, Position>, a: u32) -> bool {
    r.contains_key(a) && t.contains_key(a)
}

/// The multiple of a leverage.
pub open spec fn times(l: Leverage) -> u32 {
    match l {
        Leverage::Cross(v) => v,
        Leverage::Isolated { leverage, .. } => leverage,
    }
}

/// The margin that stands with a leverage.
pub open spec fn margin(l: Leverage) -> i64 {
    match l {
        Leverage::Cross(_) => 0,
        Leverage::Isolated { raw_usd, .. } => raw_usd,
    }
}

/// A list of one difference, or of none.
pub open spec fn one_if<T>(b: bool, x: T) -> Seq<T> {
    if b {
        seq![x]
    } else {
        Seq::empty()
    }
}

/// Whether the walk over the users of both states lists each of them once.
pub open spec fn users_listed(replay: LiquidationState, truth: LiquidationState, di: usize) -> bool {
    let tk = truth.dex_states@[di as int].users.keys();
    let rk = replay.dex_states@[di as int].users.keys();
    &&& di < replay.dex_states@.len()
    &&& di < truth.dex_states@.len()
    &&& tk.no_duplicates()
    &&& rk.no_duplicates()
    &&& forall|u: Seq<char>| tk.contains(u) <==> #[trigger] truth@.dexes[di as int].users.contains_key(u)
    &&& forall|u: Seq<char>| rk.contains(u) <==> #[trigger] replay@.dexes[di as int].users.contains_key(
        u,
    )
}

/// Whether a user of the truth is compared: neither a portfolio-margin user nor a vault.
pub open spec fn counts(truth: StateModel, u: Seq<char>) -> bool {
    !truth.portfolio_margin.contains_key(u) && !truth.vaults.contains_key(u)
}

/// Whether both states have a user on a dex who is compared.
pub open spec fn both_have(replay: StateModel, truth: StateModel, di: int, u: Seq<char>) -> bool {
    counts(truth, u) && replay.dexes[di].users.contains_key(u) && truth.dexes[di].users.contains_key(u)
}

// ── Lists ────────────────────────────────────────────────────────────────

proof fn lemma_told(s: Seq<FieldModel>, e: FieldModel, u: Seq<char>, a: u32)
    ensures
        told(s.push(e), u, a) == told(s, u, a) + one_if(e.0 == u && e.1 == a, e),
{
    assert(s.push(e).drop_last() =~= s);
}

proof fn lemma_told_leverage(s: Seq<LeverageModel>, e: LeverageModel, u: Seq<char>, a: u32)
    ensures
        told_leverage(s.push(e), u, a) == told_leverage(s, u, a) + one_if(
            e.0 == u && e.1 == a,
            e,
        ),
{
    assert(s.push(e).drop_last() =~= s);
}

proof fn lemma_told_balance(s: Seq<BalanceModel>, e: BalanceModel, u: Seq<char>)
    ensures
        told_balance(s.push(e), u) == told_balance(s, u) + one_if(e.0 == u, e),
{
    assert(s.push(e).drop_last() =~= s);
}

/// What the five lists of differences in positions say of a user's asset.
pub struct Told {
    pub sizes: Seq<FieldModel>,
    pub leverage: Seq<LeverageModel>,
    pub cost: Seq<FieldModel>,
    pub margin: Seq<FieldModel>,
    pub funding: Seq<FieldModel>,
}

/// What a result says of a user's asset.
pub open spec fn told_of(r: ComparisonModel, u: Seq<char>, a: u32) -> Told {
    Told {
        sizes: told(r.szi_mismatches, u, a),
        leverage: told_leverage(r.leverage_mismatches, u, a),
        cost: told(r.cost_basis_drifts, u, a),
        margin: told(r.raw_usd_drifts, u, a),
        funding: told(r.funding_drifts, u, a),
    }
}

/// One report behind another.
spec fn joined(x: Told, y: Told) -> Told {
    Told {
        sizes: x.sizes + y.sizes,
        leverage: x.leverage + y.leverage,
        cost: x.cost + y.cost,
        margin: x.margin + y.margin,
        funding: x.funding + y.funding,
    }
}

/// No report.
pub open spec fn nothing_told() -> Told {
    Told {
        sizes: Seq::empty(),
        leverage: Seq::empty(),
        cost: Seq::empty(),
        margin: Seq::empty(),
        funding: Seq::empty(),
    }
}

/// What there is to be told of an asset that two users hold.
pub open spec fn to_tell(
    u: Seq<char>,
    a: u32,
    c: Seq<char>,
    r: Map<u32, Position>,
    t: Map<u32, Position>,
) -> Told {
    let (p, q) = (r[a], t[a]);
    let both = both_hold(r, t, a);
    Told {
        sizes: one_if(sizes_differ(r, t, a), (u, a, c, size_in(r, a), size_in(t, a))),
        leverage: one_if(
            both && (p.leverage is Cross != q.leverage is Cross || times(p.leverage) != times(
                q.leverage,
            )),
            (
                u,
                a,
                c,
                crate::clearing_house::compare::leverage_text(p.leverage),
                crate::clearing_house::compare::leverage_text(q.leverage),
            ),
        ),
        cost: one_if(both && p.cost_basis != q.cost_basis, (u, a, c, p.cost_basis, q.cost_basis)),
        margin: one_if(
            both && p.leverage is Isolated && q.leverage is Isolated && margin(p.leverage) != margin(
                q.leverage,
            ),
            (u, a, c, margin(p.leverage), margin(q.leverage)),
        ),
        funding: one_if(
            both && p.outstanding_funding != q.outstanding_funding,
            (u, a, c, p.outstanding_funding, q.outstanding_funding),
        ),
    }
}

proof fn lemma_joined_nothing(x: Told)
    ensures
        joined(x, nothing_told()) == x,
        joined(nothing_told(), x) == x,
{
    assert(x.sizes + Seq::<FieldModel>::empty() =~= x.sizes);
    assert(x.leverage + Seq::<LeverageModel>::empty() =~= x.leverage);
    assert(x.cost + Seq::<FieldModel>::empty() =~= x.cost);
    assert(x.margin + Seq::<FieldModel>::empty() =~= x.margin);
    assert(x.funding + Seq::<FieldModel>::empty() =~= x.funding);
    assert(Seq::<FieldModel>::empty() + x.sizes =~= x.sizes);
    assert(Seq::<LeverageModel>::empty() + x.leverage =~= x.leverage);
    assert(Seq::<FieldModel>::empty() + x.cost =~= x.cost);
    assert(Seq::<FieldModel>::empty() + x.margin =~= x.margin);
    assert(Seq::<FieldModel>::empty() + x.funding =~= x.funding);
}

/// What the walk over the true positions has to tell: nothing of positions that only the replay has.
spec fn told_by_truth(
    u: Seq<char>,
    a: u32,
    c: Seq<char>,
    r: Map<u32, Position>,
    t: Map<u32, Position>,
) -> Told {
    if t.contains_key(a) {
        to_tell(u, a, c, r, t)
    } else {
        nothing_told()
    }
}

proof fn lemma_positions(
    acc: ComparisonModel,
    u: Seq<char>,
    universe: Seq<AssetModel>,
    r: Map<u32, Position>,
    t: Map<u32, Position>,
    n: int,
    v: Seq<char>,
    a: u32,
)
    requires
        n <= 0x1_0000_0000,
    ensures
        ({
            let x = positions_compared(acc, u, universe, r, t, n);
            &&& told_of(x, v, a) == joined(
                told_of(acc, v, a),
                if v == u && a < n {
                    told_by_truth(u, a, name_in(universe, a), r, t)
                } else {
                    nothing_told()
                },
            )
            &&& x.balance_drifts == acc.balance_drifts
            &&& x.scl_drifts == acc.scl_drifts
            &&& x.missing == acc.missing
            &&& x.extra == acc.extra
            &&& (x.dex_idx, x.users_in_truth, x.users_in_replay) == (
                acc.dex_idx,
                acc.users_in_truth,
                acc.users_in_replay,
            )
        }),
    decreases n,
{
    lemma_joined_nothing(told_of(acc, v, a));
    if n > 0 {
        lemma_positions(acc, u, universe, r, t, n - 1, v, a);
        let x = positions_compared(acc, u, universe, r, t, n - 1);
        let y = positions_compared(acc, u, universe, r, t, n);
        let b = (n - 1) as u32;
        assert(b == n - 1);
        let c = name_in(universe, b);
        lemma_joined_nothing(told_of(x, v, a));
        if t.contains_key(b) {
            let q = t[b];
            lemma_told(x.szi_mismatches, (u, b, c, size_in(r, b), q.szi), v, a);
            if r.contains_key(b) {
                let p = r[b];
                lemma_told_leverage(
                    x.leverage_mismatches,
                    (
                        u,
                        b,
                        c,
                        crate::clearing_house::compare::leverage_text(p.leverage),
                        crate::clearing_house::compare::leverage_text(q.leverage),
                    ),
                    v,
                    a,
                );
                lemma_told(x.cost_basis_drifts, (u, b, c, p.cost_basis, q.cost_basis), v, a);
                lemma_told(
                    x.raw_usd_drifts,
                    (u, b, c, margin(p.leverage), margin(q.leverage)),
                    v,
                    a,
                );
                lemma_told(
                    x.funding_drifts,
                    (u, b, c, p.outstanding_funding, q.outstanding_funding),
                    v,
                    a,
                );
            }
            let more = to_tell(u, b, c, r, t);
            if v == u && a == b {
                assert(told_of(x, v, a) == told_of(acc, v, a));
                assert(told_of(y, v, a).sizes =~= told_of(x, v, a).sizes + more.sizes);
                assert(told_of(y, v, a).leverage =~= told_of(x, v, a).leverage + more.leverage);
                assert(told_of(y, v, a).cost =~= told_of(x, v, a).cost + more.cost);
                assert(told_of(y, v, a).margin =~= told_of(x, v, a).margin + more.margin);
                assert(told_of(y, v, a).funding =~= told_of(x, v, a).funding + more.funding);
            } else {
                assert(told_of(y, v, a).sizes =~= told_of(x, v, a).sizes);
                assert(told_of(y, v, a).leverage =~= told_of(x, v, a).leverage);
                assert(told_of(y, v, a).cost =~= told_of(x, v, a).cost);
                assert(told_of(y, v, a).margin =~= told_of(x, v, a).margin);
                assert(told_of(y, v, a).funding =~= told_of(x, v, a).funding);
            }
        }
    }
}

proof fn lemma_extras(
    acc: ComparisonModel,
    u: Seq<char>,
    universe: Seq<AssetModel>,
    r: Map<u32, Position>,
    t: Map<u32, Position>,
    n: int,
    v: Seq<char>,
    a: u32,
)
    requires
        n <= 0x1_0000_0000,
    ensures
        ({
            let x = extras_noted(acc, u, universe, r, t, n);
            &&& told_of(x, v, a) == joined(
                told_of(acc, v, a),
                if v == u && a < n && !t.contains_key(a) {
                    to_tell(u, a, name_in(universe, a), r, t)
                } else {
                    nothing_told()
                },
            )
            &&& x == (ComparisonModel { szi_mismatches: x.szi_mismatches, ..acc })
        }),
    decreases n,
{
    lemma_joined_nothing(told_of(acc, v, a));
    if n > 0 {
        lemma_extras(acc, u, universe, r, t, n - 1, v, a);
        let x = extras_noted(acc, u, universe, r, t, n - 1);
        let b = (n - 1) as u32;
        assert(b == n - 1);
        let c = name_in(universe, b);
        lemma_joined_nothing(told_of(x, v, a));
        if r.contains_key(b) && !t.contains_key(b) {
            lemma_told(x.szi_mismatches, (u, b, c, r[b].szi, 0i64), v, a);
        }
        if v == u && a == b && !t.contains_key(b) {
            let y = extras_noted(acc, u, universe, r, t, n);
            let more = to_tell(u, b, c, r, t);
            assert(told_of(y, v, a).sizes =~= told_of(x, v, a).sizes + more.sizes);
            assert(told_of(y, v, a).leverage =~= told_of(x, v, a).leverage + more.leverage);
            assert(told_of(y, v, a).cost =~= told_of(x, v, a).cost + more.cost);
            assert(told_of(y, v, a).margin =~= told_of(x, v, a).margin + more.margin);
            assert(told_of(y, v, a).funding =~= told_of(x, v, a).funding + more.funding);
        } else if r.contains_key(b) && !t.contains_key(b) {
            let y = extras_noted(acc, u, universe, r, t, n);
            assert(told_of(y, v, a).sizes =~= told_of(x, v, a).sizes);
        }
    }
}

proof fn lemma_user(
    acc: ComparisonModel,
    replay: StateModel,
    truth: StateModel,
    di: int,
    u: Seq<char>,
    v: Seq<char>,
    a: u32,
)
    ensures
        ({
            let x = user_compared(acc, replay, truth, di, u);
            let (r, t) = (
                replay.dexes[di].users[u].positions,
                truth.dexes[di].users[u].positions,
            );
            let compared = counts(truth, u) && replay.dexes[di].users.contains_key(u);
            &&& told_of(x, v, a) == joined(
                told_of(acc, v, a),
                if v == u && compared {
                    to_tell(u, a, name_in(truth.dexes[di].universe, a), r, t)
                } else {
                    nothing_told()
                },
            )
            &&& x.missing == acc.missing + one_if(
                counts(truth, u) && !replay.dexes[di].users.contains_key(u),
                u,
            )
            &&& x.extra == acc.extra
            &&& (x.dex_idx, x.users_in_truth, x.users_in_replay) == (
                acc.dex_idx,
                acc.users_in_truth,
                acc.users_in_replay,
            )
            &&& compared ==> x.balance_drifts == balance_compared(
                acc,
                replay,
                truth,
                di,
                u,
            ).balance_drifts
            &&& !compared ==> x.balance_drifts == acc.balance_drifts && x.scl_drifts == acc.scl_drifts
            &&& compared ==> x.scl_drifts == collateral_compared(
                acc,
                u,
                replay.dexes[di].users[u],
                truth.dexes[di].users[u],
            ).scl_drifts
        }),
{
    lemma_joined_nothing(told_of(acc, v, a));
    let compared = counts(truth, u) && replay.dexes[di].users.contains_key(u);
    if compared {
        let all = crate::clearing_house::funding::asset_ids();
        let universe = truth.dexes[di].universe;
        let (ru, tu) = (replay.dexes[di].users[u], truth.dexes[di].users[u]);
        let a1 = balance_compared(acc, replay, truth, di, u);
        let a2 = positions_compared(a1, u, universe, ru.positions, tu.positions, all);
        let a3 = collateral_compared(a2, u, ru, tu);
        assert(told_of(a1, v, a) == told_of(acc, v, a));
        lemma_positions(a1, u, universe, ru.positions, tu.positions, all, v, a);
        assert(told_of(a3, v, a) == told_of(a2, v, a));
        lemma_extras(a3, u, universe, ru.positions, tu.positions, all, v, a);
        lemma_joined_nothing(told_of(a3, v, a));
        assert(acc.missing + Seq::<Seq<char>>::empty() =~= acc.missing);
    } else {
        assert(acc.missing + Seq::<Seq<char>>::empty() =~= acc.missing);
        assert(acc.missing.push(u) =~= acc.missing + seq![u]);
    }
}

proof fn lemma_users(
    acc: ComparisonModel,
    replay: StateModel,
    truth: StateModel,
    di: int,
    us: Seq<Seq<char>>,
    n: int,
    v: Seq<char>,
    a: u32,
)
    requires
        0 <= n <= us.len(),
        us.no_duplicates(),
        acc.missing == Seq::<Seq<char>>::empty(),
    ensures
        ({
            let x = users_compared(acc, replay, truth, di, us, n);
            let (r, t) = (
                replay.dexes[di].users[v].positions,
                truth.dexes[di].users[v].positions,
            );
            let compared = counts(truth, v) && replay.dexes[di].users.contains_key(v);
            let seen = us.take(n).contains(v);
            &&& told_of(x, v, a) == joined(
                told_of(acc, v, a),
                if seen && compared {
                    to_tell(v, a, name_in(truth.dexes[di].universe, a), r, t)
                } else {
                    nothing_told()
                },
            )
            &&& x.missing.contains(v) <==> seen && counts(truth, v)
                && !replay.dexes[di].users.contains_key(v)
            &&& x.missing.no_duplicates()
            &&& x.missing.to_set().subset_of(us.take(n).to_set())
            &&& x.extra == acc.extra
            &&& (x.dex_idx, x.users_in_truth, x.users_in_replay) == (
                acc.dex_idx,
                acc.users_in_truth,
                acc.users_in_replay,
            )
        }),
    decreases n,
{
    lemma_joined_nothing(told_of(acc, v, a));
    if n > 0 {
        lemma_users(acc, replay, truth, di, us, n - 1, v, a);
        let x = users_compared(acc, replay, truth, di, us, n - 1);
        let y = users_compared(acc, replay, truth, di, us, n);
        let u = us[n - 1];
        lemma_user(x, replay, truth, di, u, v, a);
        lemma_joined_nothing(told_of(x, v, a));
        crate::strmap::lemma_take_one(us, n - 1);
        assert(us.take(n - 1 + 1) == us.take(n));
        if v == u {
            assert(!us.take(n - 1).contains(u));
        }
        lemma_users(acc, replay, truth, di, us, n - 1, u, a);
        assert(!x.missing.contains(u)) by {
            if x.missing.contains(u) {
                assert(x.missing.to_set().contains(u));
                assert(us.take(n - 1).to_set().contains(u));
            }
        }
        let gone = counts(truth, u) && !replay.dexes[di].users.contains_key(u);
        if gone {
            assert(y.missing =~= x.missing.push(u));
            if x.missing.contains(v) {
                let k = choose|k: int| 0 <= k < x.missing.len() && x.missing[k] == v;
                assert(y.missing[k] == v);
            }
            assert(y.missing[x.missing.len() as int] == u);
            assert forall|w: Seq<char>| y.missing.to_set().contains(w) implies us.take(
                n,
            ).to_set().contains(w) by {
                let k = choose|k: int| 0 <= k < y.missing.len() && y.missing[k] == w;
                if k < x.missing.len() {
                    assert(x.missing[k] == w);
                    assert(x.missing.to_set().contains(w));
                    assert(us.take(n - 1).to_set().contains(w));
                    assert(us.take(n).contains(w));
                } else {
                    assert(us.take(n).contains(u));
                }
            }
        } else {
            assert(y.missing =~= x.missing);
            assert forall|w: Seq<char>| y.missing.to_set().contains(w) implies us.take(
                n,
            ).to_set().contains(w) by {
                assert(us.take(n - 1).to_set().contains(w));
                assert(us.take(n).contains(w));
            }
        }
    }
}

// ── Positions ────────────────────────────────────────────────────────────

proof fn lemma_result(replay: LiquidationState, truth: LiquidationState, di: usize, u: Seq<char>, a: u32)
    requires
        users_listed(replay, truth, di),
    ensures
        ({
            let x = result_for(replay, truth, di);
            let i = di as int;
            &&& both_have(replay@, truth@, i, u) ==> told_of(x, u, a) == to_tell(
                u,
                a,
                name_in(truth@.dexes[i].universe, a),
                replay@.dexes[i].users[u].positions,
                truth@.dexes[i].users[u].positions,
            )
            &&& !both_have(replay@, truth@, i, u) ==> told_of(x, u, a) == nothing_told()
            &&& x.missing.contains(u) <==> counts(truth@, u) && truth@.dexes[i].users.contains_key(u)
                && !replay@.dexes[i].users.contains_key(u)
            &&& x.missing.no_duplicates()
        }),
{
    let i = di as int;
    let tk = truth.dex_states@[i].users.keys();
    let rk = replay.dex_states@[i].users.keys();
    let b = blank(di, tk.len() as usize, rk.len() as usize);
    lemma_users(b, replay@, truth@, i, tk, tk.len() as int, u, a);
    assert(tk.take(tk.len() as int) =~= tk);
    assert(told_of(b, u, a) == nothing_told());
    lemma_joined_nothing(nothing_told());
    lemma_joined_nothing(
        to_tell(
            u,
            a,
            name_in(truth@.dexes[i].universe, a),
            replay@.dexes[i].users[u].positions,
            truth@.dexes[i].users[u].positions,
        ),
    );
    assert(truth@.dexes[i].users.contains_key(u) <==> tk.contains(u));
}

/// For every dex, every user whom both states have on it and who is compared, and every asset in which
/// they hold different sizes: the result has exactly one difference in size for the user and the
/// asset, with the coin and the two sizes. A position that is not there has size zero, whichever state
/// lacks it. Assets in which the sizes are the same have none.
pub proof fn law_differing_sizes_are_reported_once(
    replay: LiquidationState,
    truth: LiquidationState,
    di: usize,
    u: Seq<char>,
    a: u32,
)
    requires
        users_listed(replay, truth, di),
        both_have(replay@, truth@, di as int, u),
    ensures
        ({
            let i = di as int;
            let r = replay@.dexes[i].users[u].positions;
            let t = truth@.dexes[i].users[u].positions;
            let list = told(result_for(replay, truth, di).szi_mismatches, u, a);
            &&& size_in(r, a) != size_in(t, a) ==> list == seq![
                (u, a, name_in(truth@.dexes[i].universe, a), size_in(r, a), size_in(t, a)),
            ]
            &&& r.contains_key(a) == t.contains_key(a) && size_in(r, a) == size_in(t, a) ==> list
                == Seq::<FieldModel>::empty()
            &&& list.len() <= 1
        }),
{
    lemma_result(replay, truth, di, u, a);
}

/// In an asset that both hold, another cost basis, another funding, another margin of two isolated
/// positions and another kind or multiple of leverage are each reported once, with both values, and
/// equal ones are not.
pub proof fn law_differing_fields_are_reported_once(
    replay: LiquidationState,
    truth: LiquidationState,
    di: usize,
    u: Seq<char>,
    a: u32,
)
    requires
        users_listed(replay, truth, di),
        both_have(replay@, truth@, di as int, u),
        replay@.dexes[di as int].users[u].positions.contains_key(a),
        truth@.dexes[di as int].users[u].positions.contains_key(a),
    ensures
        ({
            let i = di as int;
            let p = replay@.dexes[i].users[u].positions[a];
            let q = truth@.dexes[i].users[u].positions[a];
            let c = name_in(truth@.dexes[i].universe, a);
            let x = result_for(replay, truth, di);
            &&& told(x.cost_basis_drifts, u, a) == one_if(
                p.cost_basis != q.cost_basis,
                (u, a, c, p.cost_basis, q.cost_basis),
            )
            &&& told(x.funding_drifts, u, a) == one_if(
                p.outstanding_funding != q.outstanding_funding,
                (u, a, c, p.outstanding_funding, q.outstanding_funding),
            )
            &&& told(x.raw_usd_drifts, u, a) == one_if(
                p.leverage is Isolated && q.leverage is Isolated && margin(p.leverage) != margin(
                    q.leverage,
                ),
                (u, a, c, margin(p.leverage), margin(q.leverage)),
            )
            &&& told_leverage(x.leverage_mismatches, u, a).len() == (if (p.leverage is Cross
                == q.leverage is Cross) && times(p.leverage) == times(q.leverage) {
                0nat
            } else {
                1nat
            })
        }),
{
    lemma_result(replay, truth, di, u, a);
}

/// Of users whom one of the states does not have on the dex, or who are not compared, no difference in
/// a position is reported; and of an asset that one of them does not hold, none but in size.
pub proof fn law_only_common_positions_are_compared(
    replay: LiquidationState,
    truth: LiquidationState,
    di: usize,
    u: Seq<char>,
    a: u32,
)
    requires
        users_listed(replay, truth, di),
    ensures
        !both_have(replay@, truth@, di as int, u) ==> told_of(result_for(replay, truth, di), u, a)
            == nothing_told(),
        both_have(replay@, truth@, di as int, u) && !both_hold(
            replay@.dexes[di as int].users[u].positions,
            truth@.dexes[di as int].users[u].positions,
            a,
        ) ==> told_of(result_for(replay, truth, di), u, a) == (Told {
            sizes: told(result_for(replay, truth, di).szi_mismatches, u, a),
            ..nothing_told()
        }),
{
    lemma_result(replay, truth, di, u, a);
}

/// Empty lists of differences mean that both states have the same: the users of the truth who are
/// compared are there in the replay, hold the same assets, and hold them in the same size, at the same
/// cost basis, with the same funding outstanding, and under leverage of the same kind, multiple and
/// margin.
pub proof fn law_no_differences_mean_the_same_positions(
    replay: LiquidationState,
    truth: LiquidationState,
    di: usize,
)
    requires
        users_listed(replay, truth, di),
        ({
            let x = result_for(replay, truth, di);
            &&& x.szi_mismatches.len() == 0
            &&& x.missing.len() == 0
            &&& x.extra.len() == 0
            &&& x.cost_basis_drifts.len() == 0
            &&& x.leverage_mismatches.len() == 0
            &&& x.raw_usd_drifts.len() == 0
            &&& x.funding_drifts.len() == 0
        }),
    ensures
        ({
            let i = di as int;
            &&& forall|u: Seq<char>|
                #![trigger truth@.dexes[i].users.contains_key(u)]
                #![trigger replay@.dexes[i].users.contains_key(u)]
                counts(truth@, u) ==> (truth@.dexes[i].users.contains_key(u)
                    <==> replay@.dexes[i].users.contains_key(u))
            &&& forall|u: Seq<char>|
                #![trigger truth@.dexes[i].users[u]]
                counts(truth@, u) && truth@.dexes[i].users.contains_key(u)
                    ==> same_but_tables(
                    replay@.dexes[i].users[u].positions,
                    truth@.dexes[i].users[u].positions,
                )
        }),
{
    let i = di as int;
    let x = result_for(replay, truth, di);
    assert forall|u: Seq<char>|
        #![trigger truth@.dexes[i].users.contains_key(u)]
        #![trigger replay@.dexes[i].users.contains_key(u)]
        counts(truth@, u) implies (truth@.dexes[i].users.contains_key(u)
        <==> replay@.dexes[i].users.contains_key(u)) by {
        lemma_result(replay, truth, di, u, 0);
        law_extra_users_are_reported(replay, truth, di, u);
        if truth@.dexes[i].users.contains_key(u) && !replay@.dexes[i].users.contains_key(u) {
            assert(x.missing.contains(u));
        }
        if !truth@.dexes[i].users.contains_key(u) && replay@.dexes[i].users.contains_key(u) {
            assert(x.extra.contains(u));
        }
    }
    assert forall|u: Seq<char>|
        #![trigger truth@.dexes[i].users[u]]
        counts(truth@, u) && truth@.dexes[i].users.contains_key(u) implies same_but_tables(
        replay@.dexes[i].users[u].positions,
        truth@.dexes[i].users[u].positions,
    ) by {
        assert(replay@.dexes[i].users.contains_key(u));
        let r = replay@.dexes[i].users[u].positions;
        let t = truth@.dexes[i].users[u].positions;
        assert forall|a: u32| #[trigger] same_position(r, t, a) by {
            lemma_result(replay, truth, di, u, a);
            let c = name_in(truth@.dexes[i].universe, a);
            let y = to_tell(u, a, c, r, t);
            assert(told_of(x, u, a) == y);
            assert(y.sizes.len() == 0);
            assert(y.leverage.len() == 0);
            assert(y.cost.len() == 0);
            assert(y.margin.len() == 0);
            assert(y.funding.len() == 0);
        }
    }
}

/// Whether two users hold the same in an asset, but for the table that its margin goes by.
pub open spec fn same_position(r: Map<u32, Position>, t: Map<u32, Position>, a: u32) -> bool {
    &&& r.contains_key(a) == t.contains_key(a)
    &&& r.contains_key(a) ==> r[a].szi == t[a].szi && r[a].cost_basis == t[a].cost_basis
        && r[a].outstanding_funding == t[a].outstanding_funding && r[a].leverage == t[a].leverage
}

/// Whether two users hold the same, but for the tables that their margin goes by.
pub open spec fn same_but_tables(r: Map<u32, Position>, t: Map<u32, Position>) -> bool {
    forall|a: u32| #[trigger] same_position(r, t, a)
}

// ── Users ────────────────────────────────────────────────────────────────

/// A user of the truth who is compared and whom the replay lacks is reported as missing, once, and
/// nobody else is.
pub proof fn law_missing_users_are_reported(
    replay: LiquidationState,
    truth: LiquidationState,
    di: usize,
    u: Seq<char>,
)
    requires
        users_listed(replay, truth, di),
    ensures
        result_for(replay, truth, di).missing.contains(u) <==> truth@.dexes[di as int].users.contains_key(
            u,
        ) && !replay@.dexes[di as int].users.contains_key(u)
            && !truth@.portfolio_margin.contains_key(u) && !truth@.vaults.contains_key(u),
        result_for(replay, truth, di).missing.no_duplicates(),
{
    lemma_result(replay, truth, di, u, 0);
}

proof fn lemma_unknown(d: DexModel, us: Seq<Seq<char>>, n: int)
    requires
        0 <= n <= us.len(),
    ensures
        forall|u: Seq<char>| #[trigger]
            unknown_users(d, us, n).contains(u) <==> us.take(n).contains(u) && !d.users.contains_key(u),
    decreases n,
{
    if n > 0 {
        lemma_unknown(d, us, n - 1);
        crate::strmap::lemma_take_one(us, n - 1);
        assert(us.take(n - 1 + 1) == us.take(n));
        let x = unknown_users(d, us, n - 1);
        let y = unknown_users(d, us, n);
        assert forall|u: Seq<char>| #[trigger] y.contains(u) <==> us.take(n).contains(u)
            && !d.users.contains_key(u) by {
            assert(us.take(n).contains(u) <==> us.take(n - 1).contains(u) || u == us[n - 1]);
            assert(x.contains(u) <==> us.take(n - 1).contains(u) && !d.users.contains_key(u));
            if !d.users.contains_key(us[n - 1]) {
                assert(y == x.push(us[n - 1]));
                if x.contains(u) {
                    let k = choose|k: int| 0 <= k < x.len() && x[k] == u;
                    assert(y[k] == u);
                }
                if y.contains(u) && u != us[n - 1] {
                    let k = choose|k: int| 0 <= k < y.len() && y[k] == u;
                    assert(x[k] == u);
                }
                assert(y[x.len() as int] == us[n - 1]);
            }
        }
    } else {
        assert(us.take(0) =~= Seq::<Seq<char>>::empty());
    }
}

/// A user of the replay whom the truth lacks is reported as extra, and nobody else is.
pub proof fn law_extra_users_are_reported(
    replay: LiquidationState,
    truth: LiquidationState,
    di: usize,
    u: Seq<char>,
)
    requires
        users_listed(replay, truth, di),
    ensures
        result_for(replay, truth, di).extra.contains(u) <==> replay@.dexes[di as int].users.contains_key(
            u,
        ) && !truth@.dexes[di as int].users.contains_key(u),
{
    let rk = replay.dex_states@[di as int].users.keys();
    lemma_unknown(truth@.dexes[di as int], rk, rk.len() as int);
    assert(rk.take(rk.len() as int) =~= rk);
    assert(replay@.dexes[di as int].users.contains_key(u) <==> rk.contains(u));
}

/// Of a dex that the replay lacks all users of the truth are missing, and nothing else is reported.
pub proof fn law_missing_dexes_lack_everyone(
    replay: LiquidationState,
    truth: LiquidationState,
    di: usize,
)
    requires
        di < truth.dex_states@.len(),
        di >= replay.dex_states@.len(),
    ensures
        ({
            let x = result_for(replay, truth, di);
            let tk = truth.dex_states@[di as int].users.keys();
            &&& x.missing == tk
            &&& x.dex_idx == di
            &&& tk.len() <= usize::MAX ==> x.users_in_truth == tk.len()
            &&& x.users_in_replay == 0
            &&& x.szi_matches == 0
            &&& x.szi_mismatches.len() == 0 && x.extra.len() == 0 && x.balance_drifts.len() == 0
            &&& x.cost_basis_drifts.len() == 0 && x.raw_usd_drifts.len() == 0
            &&& x.funding_drifts.len() == 0 && x.leverage_mismatches.len() == 0
            &&& x.scl_drifts.len() == 0
        }),
{
}

/// A result names its dex and counts the users of both states.
pub proof fn law_users_are_counted(replay: LiquidationState, truth: LiquidationState, di: usize)
    requires
        users_listed(replay, truth, di),
        truth.dex_states@[di as int].users.keys().len() <= usize::MAX,
        replay.dex_states@[di as int].users.keys().len() <= usize::MAX,
    ensures
        result_for(replay, truth, di).dex_idx == di,
        result_for(replay, truth, di).users_in_truth == truth.dex_states@[di as int].users.keys().len(),
        result_for(replay, truth, di).users_in_replay
            == replay.dex_states@[di as int].users.keys().len(),
{
    let i = di as int;
    let tk = truth.dex_states@[i].users.keys();
    let rk = replay.dex_states@[i].users.keys();
    let b = blank(di, tk.len() as usize, rk.len() as usize);
    lemma_users(b, replay@, truth@, i, tk, tk.len() as int, Seq::empty(), 0);
}

// ── Balances ─────────────────────────────────────────────────────────────

/// Whether two amounts in micro-USD are more than a dollar apart.
pub open spec fn dollar_apart(a: int, b: int) -> bool {
    a - b > 1_000_000 || b - a > 1_000_000
}

proof fn lemma_balances(
    acc: ComparisonModel,
    replay: StateModel,
    truth: StateModel,
    di: int,
    us: Seq<Seq<char>>,
    n: int,
    v: Seq<char>,
)
    requires
        0 <= n <= us.len(),
        us.no_duplicates(),
    ensures
        ({
            let x = users_compared(acc, replay, truth, di, us, n);
            let seen = us.take(n).contains(v) && counts(truth, v)
                && replay.dexes[di].users.contains_key(v);
            let fresh = blank(0, 0, 0);
            &&& told_balance(x.balance_drifts, v) == told_balance(acc.balance_drifts, v) + (if seen {
                balance_compared(fresh, replay, truth, di, v).balance_drifts
            } else {
                Seq::empty()
            })
            &&& told_balance(x.scl_drifts, v) == told_balance(acc.scl_drifts, v) + (if seen {
                collateral_compared(
                    fresh,
                    v,
                    replay.dexes[di].users[v],
                    truth.dexes[di].users[v],
                ).scl_drifts
            } else {
                Seq::empty()
            })
        }),
    decreases n,
{
    let fresh = blank(0, 0, 0);
    if n > 0 {
        lemma_balances(acc, replay, truth, di, us, n - 1, v);
        let x = users_compared(acc, replay, truth, di, us, n - 1);
        let y = users_compared(acc, replay, truth, di, us, n);
        let u = us[n - 1];
        lemma_user(x, replay, truth, di, u, u, 0);
        crate::strmap::lemma_take_one(us, n - 1);
        assert(us.take(n - 1 + 1) == us.take(n));
        if v == u {
            assert(!us.take(n - 1).contains(u));
        }
        let compared = counts(truth, u) && replay.dexes[di].users.contains_key(u);
        if compared {
            let b = balance_compared(fresh, replay, truth, di, u).balance_drifts;
            if b.len() > 0 {
                lemma_told_balance(x.balance_drifts, b[0], v);
                assert(y.balance_drifts =~= x.balance_drifts.push(b[0]));
            } else {
                assert(y.balance_drifts =~= x.balance_drifts);
            }
            let c = collateral_compared(
                fresh,
                u,
                replay.dexes[di].users[u],
                truth.dexes[di].users[u],
            ).scl_drifts;
            if c.len() > 0 {
                lemma_told_balance(x.scl_drifts, c[0], v);
                assert(y.scl_drifts =~= x.scl_drifts.push(c[0]));
            } else {
                assert(y.scl_drifts =~= x.scl_drifts);
            }
            if v == u {
                assert(told_balance(y.balance_drifts, v) =~= told_balance(acc.balance_drifts, v) + b);
                assert(told_balance(y.scl_drifts, v) =~= told_balance(acc.scl_drifts, v) + c);
            } else {
                assert(told_balance(y.balance_drifts, v) =~= told_balance(x.balance_drifts, v));
                assert(told_balance(y.scl_drifts, v) =~= told_balance(x.scl_drifts, v));
            }
        }
    } else {
        assert(us.take(0) =~= Seq::<Seq<char>>::empty());
        assert(told_balance(acc.balance_drifts, v) + Seq::<BalanceModel>::empty() =~= told_balance(
            acc.balance_drifts,
            v,
        ));
        assert(told_balance(acc.scl_drifts, v) + Seq::<BalanceModel>::empty() =~= told_balance(
            acc.scl_drifts,
            v,
        ));
    }
}

proof fn lemma_result_balances(
    replay: LiquidationState,
    truth: LiquidationState,
    di: usize,
    u: Seq<char>,
)
    requires
        users_listed(replay, truth, di),
    ensures
        ({
            let i = di as int;
            let x = result_for(replay, truth, di);
            let seen = both_have(replay@, truth@, i, u);
            let fresh = blank(0, 0, 0);
            &&& told_balance(x.balance_drifts, u) == (if seen {
                balance_compared(fresh, replay@, truth@, i, u).balance_drifts
            } else {
                Seq::empty()
            })
            &&& told_balance(x.scl_drifts, u) == (if seen {
                collateral_compared(
                    fresh,
                    u,
                    replay@.dexes[i].users[u],
                    truth@.dexes[i].users[u],
                ).scl_drifts
            } else {
                Seq::empty()
            })
        }),
{
    let i = di as int;
    let tk = truth.dex_states@[i].users.keys();
    let rk = replay.dex_states@[i].users.keys();
    let b = blank(di, tk.len() as usize, rk.len() as usize);
    lemma_balances(b, replay@, truth@, i, tk, tk.len() as int, u);
    assert(tk.take(tk.len() as int) =~= tk);
    assert(truth@.dexes[i].users.contains_key(u) <==> tk.contains(u));
    let x = result_for(replay, truth, di);
    let fresh = blank(0, 0, 0);
    let p = balance_compared(fresh, replay@, truth@, i, u).balance_drifts;
    let q = collateral_compared(
        fresh,
        u,
        replay@.dexes[i].users[u],
        truth@.dexes[i].users[u],
    ).scl_drifts;
    assert(Seq::<BalanceModel>::empty() + p =~= p);
    assert(Seq::<BalanceModel>::empty() + q =~= q);
}

/// Whether a mode shares balances over the dexes.
pub open spec fn mode_shares(m: AccountMode) -> bool {
    m == AccountMode::Unified || m == AccountMode::DexAbstraction
}

/// The balance of a user who does not share is reported where it is off by more than a dollar, once,
/// with both balances; so is the spot collateral, in micro-USD. Smaller differences are not.
pub proof fn law_balances_off_by_a_dollar_are_reported(
    replay: LiquidationState,
    truth: LiquidationState,
    di: usize,
    u: Seq<char>,
)
    requires
        users_listed(replay, truth, di),
        both_have(replay@, truth@, di as int, u),
        !mode_shares(replay@.dexes[di as int].users[u].account_mode),
    ensures
        ({
            let i = di as int;
            let (r, t) = (replay@.dexes[i].users[u], truth@.dexes[i].users[u]);
            let x = result_for(replay, truth, di);
            let off = r.usdc_balance - t.usdc_balance;
            let apart = r.spot_collateral - t.spot_collateral;
            &&& i64::MIN < off <= i64::MAX ==> told_balance(x.balance_drifts, u) == one_if(
                dollar_apart(r.usdc_balance as int, t.usdc_balance as int),
                (u, r.usdc_balance, t.usdc_balance),
            )
            &&& i64::MIN < apart <= i64::MAX ==> told_balance(x.scl_drifts, u).len() == (if apart
                >= 100_000_100 || apart <= -100_000_100 {
                1nat
            } else {
                0nat
            })
            &&& told_balance(x.scl_drifts, u).len() > 0 ==> told_balance(x.scl_drifts, u)[0].1 as int
                == crate::clearing_house::fill::div_trunc(r.spot_collateral as int, 100)
        }),
{
    lemma_result_balances(replay, truth, di, u);
}

/// Of users who are not compared, or whom one of the states lacks, no balance is reported.
pub proof fn law_only_common_balances_are_compared(
    replay: LiquidationState,
    truth: LiquidationState,
    di: usize,
    u: Seq<char>,
)
    requires
        users_listed(replay, truth, di),
        !both_have(replay@, truth@, di as int, u),
    ensures
        told_balance(result_for(replay, truth, di).balance_drifts, u).len() == 0,
        told_balance(result_for(replay, truth, di).scl_drifts, u).len() == 0,
{
    lemma_result_balances(replay, truth, di, u);
}

/// What a user has on the first `n` dexes that are backed by the token, under a mode that shares.
pub open spec fn holdings(dexes: Seq<DexModel>, u: Seq<char>, token: u32, n: int) -> i64
    decreases n,
{
    if n <= 0 {
        0
    } else {
        let d = dexes[n - 1];
        let full: i64 = if d.collateral_token == token && d.users.contains_key(u) && mode_shares(
            d.users[u].account_mode,
        ) {
            d.users[u].usdc_balance
        } else {
            0
        };
        let part: i64 = if d.collateral_token == token && d.partials.contains_key(u) && mode_shares(
            d.partials[u].account_mode,
        ) {
            d.partials[u].usdc_balance
        } else {
            0
        };
        holdings(dexes, u, token, n - 1).wrapping_add(full).wrapping_add(part)
    }
}

/// Whether a dex is backed by the token and has the user under a mode that shares.
pub open spec fn shares_on(d: DexModel, u: Seq<char>, token: u32) -> bool {
    d.collateral_token == token && (d.users.contains_key(u) && mode_shares(d.users[u].account_mode)
        || d.partials.contains_key(u) && mode_shares(d.partials[u].account_mode))
}

/// Whether the user's spot collateral is the same wherever they share the token.
pub open spec fn one_collateral(dexes: Seq<DexModel>, u: Seq<char>, token: u32, c: i64) -> bool {
    forall|k: int|
        0 <= k < dexes.len() && (#[trigger] dexes[k]).collateral_token == token ==> (
        dexes[k].users.contains_key(u) && mode_shares(dexes[k].users[u].account_mode)
            ==> dexes[k].users[u].spot_collateral == c) && (dexes[k].partials.contains_key(u)
            && mode_shares(dexes[k].partials[u].account_mode) ==> dexes[k].partials[u].spot_collateral
            == c)
}

/// Sums in 64-bit arithmetic may be taken in any order.
proof fn lemma_sums(a: i64, b: i64, c: i64)
    ensures
        a.wrapping_add(b).wrapping_add(c) == a.wrapping_add(c).wrapping_add(b),
        a.wrapping_add(b.wrapping_add(c)) == a.wrapping_add(b).wrapping_add(c),
        a.wrapping_add(0) == a,
        0i64.wrapping_add(a) == a,
{
}

/// One more balance in a total, with the collateral that was, or is now, in it.
proof fn lemma_run(had: i64, more: i64, c: i64, some: bool)
    ensures
        ({
            let m = crate::clearing_house::fill::div_trunc(c as int, 100) as i64;
            let r = crate::clearing_house::compare::Running {
                total: if some {
                    had.wrapping_add(m)
                } else {
                    had
                },
                counted: some,
            };
            let x = crate::clearing_house::compare::run_add(r, more, c);
            x.counted && x.total == had.wrapping_add(more).wrapping_add(m)
        }),
{
    let m = crate::clearing_house::fill::div_trunc(c as int, 100) as i64;
    lemma_sums(had, m, more);
    lemma_sums(had, more, m);
    lemma_sums(more, 0, 0);
}

/// The total of a user who shares is what they have on all dexes of the token, and their spot
/// collateral once, in micro-USD, however often it shows; without such a dex it is nothing.
pub proof fn law_totals_count_collateral_once(
    dexes: Seq<DexModel>,
    u: Seq<char>,
    token: u32,
    c: i64,
    n: int,
)
    requires
        0 <= n <= dexes.len(),
        one_collateral(dexes, u, token, c),
    ensures
        ({
            let x = cross_total(dexes, u, token, n);
            let some = exists|k: int| 0 <= k < n && shares_on(#[trigger] dexes[k], u, token);
            &&& x.counted == some
            &&& x.total == (if some {
                holdings(dexes, u, token, n).wrapping_add(
                    crate::clearing_house::fill::div_trunc(c as int, 100) as i64,
                )
            } else {
                0
            })
            &&& !some ==> holdings(dexes, u, token, n) == 0
        }),
    decreases n,
{
    if n > 0 {
        law_totals_count_collateral_once(dexes, u, token, c, n - 1);
        let d = dexes[n - 1];
        let before = exists|k: int| 0 <= k < n - 1 && shares_on(#[trigger] dexes[k], u, token);
        let some = exists|k: int| 0 <= k < n && shares_on(#[trigger] dexes[k], u, token);
        assert(some == (before || shares_on(d, u, token))) by {
            if before {
                let k = choose|k: int| 0 <= k < n - 1 && shares_on(#[trigger] dexes[k], u, token);
                assert(shares_on(dexes[k], u, token));
            }
            if shares_on(d, u, token) {
                assert(shares_on(dexes[n - 1], u, token));
            }
        }
        let had = holdings(dexes, u, token, n - 1);
        let full = d.collateral_token == token && d.users.contains_key(u) && mode_shares(
            d.users[u].account_mode,
        );
        let part = d.collateral_token == token && d.partials.contains_key(u) && mode_shares(
            d.partials[u].account_mode,
        );
        lemma_sums(had, 0, 0);
        if full {
            let more = d.users[u].usdc_balance;
            lemma_run(had, more, c, before);
            lemma_sums(had.wrapping_add(more), 0, 0);
            if part {
                lemma_run(had.wrapping_add(more), d.partials[u].usdc_balance, c, true);
            }
        } else if part {
            lemma_run(had, d.partials[u].usdc_balance, c, before);
        }
    }
}

/// Whether the total of a user in the collateral of a dex is compared on the dex.
pub open spec fn compares_total(replay: StateModel, truth: StateModel, u: Seq<char>, token: u32, i: int) -> bool {
    &&& i < replay.dexes.len()
    &&& replay.dexes[i].collateral_token == token
    &&& replay.dexes[i].users.contains_key(u)
    &&& truth.dexes[i].users.contains_key(u)
    &&& mode_shares(replay.dexes[i].users[u].account_mode)
}

/// The total of a user who shares is reported where it is off by more than a dollar, once for all the
/// dexes of a collateral: on the first of them where both states have the user.
pub proof fn law_totals_off_by_a_dollar_are_reported(
    replay: LiquidationState,
    truth: LiquidationState,
    di: usize,
    u: Seq<char>,
)
    requires
        users_listed(replay, truth, di),
        both_have(replay@, truth@, di as int, u),
        mode_shares(replay@.dexes[di as int].users[u].account_mode),
    ensures
        ({
            let i = di as int;
            let token = replay@.dexes[i].collateral_token;
            let r = cross_total(replay@.dexes, u, token, replay@.dexes.len() as int).total;
            let t = cross_total(truth@.dexes, u, token, truth@.dexes.len() as int).total;
            let list = told_balance(result_for(replay, truth, di).balance_drifts, u);
            let earlier = exists|k: int|
                0 <= k < i && #[trigger] compares_total(replay@, truth@, u, token, k);
            &&& earlier ==> list.len() == 0
            &&& !earlier && i64::MIN < r - t <= i64::MAX ==> list == one_if(
                dollar_apart(r as int, t as int),
                (u, r, t),
            )
            &&& told_balance(result_for(replay, truth, di).scl_drifts, u).len() == 0
        }),
{
    lemma_result_balances(replay, truth, di, u);
    let i = di as int;
    let token = replay@.dexes[i].collateral_token;
    if exists|k: int| 0 <= k < i && #[trigger] compares_total(replay@, truth@, u, token, k) {
        let k = choose|k: int| 0 <= k < i && #[trigger] compares_total(replay@, truth@, u, token, k);
        assert(crate::clearing_house::compare::total_compared_on(replay@, truth@, u, token, k));
    }
    if crate::clearing_house::compare::total_compared_before(replay@, truth@, u, token, i) {
        let k = choose|k: int|
            0 <= k < i && #[trigger] crate::clearing_house::compare::total_compared_on(
                replay@,
                truth@,
                u,
                token,
                k,
            );
        assert(compares_total(replay@, truth@, u, token, k));
    }
}

// ── Matches ──────────────────────────────────────────────────────────────

/// The assets below `n` that two users hold in the same size.
pub open spec fn agreeing(r: Map<u32, Position>, t: Map<u32, Position>, n: int) -> Set<u32> {
    Set::new(|a: u32| a < n && both_hold(r, t, a) && r[a].szi == t[a].szi)
}

proof fn lemma_agreeing(
    acc: ComparisonModel,
    u: Seq<char>,
    universe: Seq<AssetModel>,
    r: Map<u32, Position>,
    t: Map<u32, Position>,
    n: int,
)
    requires
        0 <= n <= 0x1_0000_0000,
    ensures
        agreeing(r, t, n).finite(),
        acc.szi_matches + agreeing(r, t, n).len() <= usize::MAX ==> positions_compared(
            acc,
            u,
            universe,
            r,
            t,
            n,
        ).szi_matches == acc.szi_matches + agreeing(r, t, n).len(),
    decreases n,
{
    if n > 0 {
        lemma_agreeing(acc, u, universe, r, t, n - 1);
        let a = (n - 1) as u32;
        assert(a == n - 1);
        if both_hold(r, t, a) && r[a].szi == t[a].szi {
            assert(agreeing(r, t, n) =~= agreeing(r, t, n - 1).insert(a));
        } else {
            assert(agreeing(r, t, n) =~= agreeing(r, t, n - 1));
        }
    } else {
        assert(agreeing(r, t, n) =~= Set::<u32>::empty());
    }
}

/// In how many assets the first `n` users of a list, as far as they are compared, hold the same size in
/// both states.
pub open spec fn agreements(replay: StateModel, truth: StateModel, di: int, us: Seq<Seq<char>>, n: int) -> nat
    decreases n,
{
    if n <= 0 {
        0
    } else {
        let u = us[n - 1];
        agreements(replay, truth, di, us, n - 1) + if both_have(replay, truth, di, u) {
            agreeing(
                replay.dexes[di].users[u].positions,
                truth.dexes[di].users[u].positions,
                0x1_0000_0000,
            ).len()
        } else {
            0
        }
    }
}

proof fn lemma_agreements(
    acc: ComparisonModel,
    replay: StateModel,
    truth: StateModel,
    di: int,
    us: Seq<Seq<char>>,
    n: int,
)
    requires
        0 <= n <= us.len(),
        forall|k: int| 0 <= k < us.len() ==> truth.dexes[di].users.contains_key(#[trigger] us[k]),
    ensures
        acc.szi_matches + agreements(replay, truth, di, us, n) <= usize::MAX ==> users_compared(
            acc,
            replay,
            truth,
            di,
            us,
            n,
        ).szi_matches == acc.szi_matches + agreements(replay, truth, di, us, n),
    decreases n,
{
    if n > 0 {
        lemma_agreements(acc, replay, truth, di, us, n - 1);
        let x = users_compared(acc, replay, truth, di, us, n - 1);
        let u = us[n - 1];
        assert(truth.dexes[di].users.contains_key(u));
        if both_have(replay, truth, di, u) {
            let all = crate::clearing_house::funding::asset_ids();
            let universe = truth.dexes[di].universe;
            let (ru, tu) = (replay.dexes[di].users[u], truth.dexes[di].users[u]);
            let a1 = balance_compared(x, replay, truth, di, u);
            let a2 = positions_compared(a1, u, universe, ru.positions, tu.positions, all);
            let a3 = collateral_compared(a2, u, ru, tu);
            lemma_agreeing(a1, u, universe, ru.positions, tu.positions, all);
            lemma_extras(a3, u, universe, ru.positions, tu.positions, all, u, 0);
        }
    }
}

/// The sizes that match are counted: the positions in which both states have a user who is compared
/// hold the same size.
pub proof fn law_matching_sizes_are_counted(
    replay: LiquidationState,
    truth: LiquidationState,
    di: usize,
)
    requires
        users_listed(replay, truth, di),
    ensures
        ({
            let us = truth.dex_states@[di as int].users.keys();
            let n = agreements(replay@, truth@, di as int, us, us.len() as int);
            n <= usize::MAX ==> result_for(replay, truth, di).szi_matches == n
        }),
{
    let i = di as int;
    let tk = truth.dex_states@[i].users.keys();
    let rk = replay.dex_states@[i].users.keys();
    assert forall|k: int| 0 <= k < tk.len() implies truth@.dexes[i].users.contains_key(
        #[trigger] tk[k],
    ) by {
        assert(tk.contains(tk[k]));
    }
    let b = blank(di, tk.len() as usize, rk.len() as usize);
    lemma_agreements(b, replay@, truth@, i, tk, tk.len() as int);
}

} // verus!

//! Comparison of a replayed state against the truth.
use crate::clearing_house::{
    AssetModel, DexModel, DexState, Leverage, LiquidationState, Position, StateModel, UserModel,
    UserState,
};
use crate::text::{push_decimal, push_signed, push_text};
use vstd::prelude::*;

verus! {

pub struct ComparisonResult {
    pub dex_idx: usize,
    pub users_in_truth: usize,
    pub users_in_replay: usize,
    pub szi_matches: usize,
    pub szi_mismatches: Vec<SziMismatch>,
    pub balance_drifts: Vec<BalanceDrift>,
    pub leverage_mismatches: Vec<LeverageMismatch>,
    pub cost_basis_drifts: Vec<PositionFieldDrift>,
    pub raw_usd_drifts: Vec<PositionFieldDrift>,
    pub funding_drifts: Vec<PositionFieldDrift>,
    pub scl_drifts: Vec<BalanceDrift>,
    pub missing_after_replay: Vec<String>,
    pub extra_after_replay: Vec<String>,
}

pub struct SziMismatch {
    pub user: String,
    pub asset_idx: u32,
    pub coin: String,
    pub replay_szi: i64,
    pub truth_szi: i64,
}

/// Balances that differ by more than a dollar, in micro-USD.
pub struct BalanceDrift {
    pub user: String,
    pub replay_balance: i64,
    pub truth_balance: i64,
}

pub struct PositionFieldDrift {
    pub user: String,
    pub asset_idx: u32,
    pub coin: String,
    pub replay_val: i64,
    pub truth_val: i64,
}

pub struct LeverageMismatch {
    pub user: String,
    pub asset_idx: u32,
    pub coin: String,
    pub replay_lev: String,
    pub truth_lev: String,
}

// ── What a comparison finds, mathematically ──────────────────────────────

/// A difference in a field of a position: user, asset, coin, replayed and true value.
pub type FieldModel = (Seq<char>, u32, Seq<char>, i64, i64);

/// A difference in leverage: user, asset, coin, replayed and true leverage.
pub type LeverageModel = (Seq<char>, u32, Seq<char>, Seq<char>, Seq<char>);

/// A difference in a balance: user, replayed and true balance.
pub type BalanceModel = (Seq<char>, i64, i64);

impl View for SziMismatch {
    type V = FieldModel;

    open spec fn view(&self) -> FieldModel {
        (self.user@, self.asset_idx, self.coin@, self.replay_szi, self.truth_szi)
    }
}

impl View for PositionFieldDrift {
    type V = FieldModel;

    open spec fn view(&self) -> FieldModel {
        (self.user@, self.asset_idx, self.coin@, self.replay_val, self.truth_val)
    }
}

impl View for LeverageMismatch {
    type V = LeverageModel;

    open spec fn view(&self) -> LeverageModel {
        (self.user@, self.asset_idx, self.coin@, self.replay_lev@, self.truth_lev@)
    }
}

impl View for BalanceDrift {
    type V = BalanceModel;

    open spec fn view(&self) -> BalanceModel {
        (self.user@, self.replay_balance, self.truth_balance)
    }
}

/// What a comparison result holds.
#[verifier::ext_equal]
pub struct ComparisonModel {
    pub dex_idx: usize,
    pub users_in_truth: usize,
    pub users_in_replay: usize,
    pub szi_matches: usize,
    pub szi_mismatches: Seq<FieldModel>,
    pub balance_drifts: Seq<BalanceModel>,
    pub leverage_mismatches: Seq<LeverageModel>,
    pub cost_basis_drifts: Seq<FieldModel>,
    pub raw_usd_drifts: Seq<FieldModel>,
    pub funding_drifts: Seq<FieldModel>,
    pub scl_drifts: Seq<BalanceModel>,
    pub missing: Seq<Seq<char>>,
    pub extra: Seq<Seq<char>>,
}

impl View for ComparisonResult {
    type V = ComparisonModel;

    open spec fn view(&self) -> ComparisonModel {
        ComparisonModel {
            dex_idx: self.dex_idx,
            users_in_truth: self.users_in_truth,
            users_in_replay: self.users_in_replay,
            szi_matches: self.szi_matches,
            szi_mismatches: self.szi_mismatches@.map_values(|x: SziMismatch| x@),
            balance_drifts: self.balance_drifts@.map_values(|x: BalanceDrift| x@),
            leverage_mismatches: self.leverage_mismatches@.map_values(|x: LeverageMismatch| x@),
            cost_basis_drifts: self.cost_basis_drifts@.map_values(|x: PositionFieldDrift| x@),
            raw_usd_drifts: self.raw_usd_drifts@.map_values(|x: PositionFieldDrift| x@),
            funding_drifts: self.funding_drifts@.map_values(|x: PositionFieldDrift| x@),
            scl_drifts: self.scl_drifts@.map_values(|x: BalanceDrift| x@),
            missing: self.missing_after_replay@.map_values(|x: String| x@),
            extra: self.extra_after_replay@.map_values(|x: String| x@),
        }
    }
}

/// Whether two leverages are of the same kind and multiple; margin does not matter.
pub open spec fn same_leverage(a: Leverage, b: Leverage) -> bool {
    (a is Isolated <==> b is Isolated) && crate::clearing_house::fill::multiple(a)
        == crate::clearing_house::fill::multiple(b)
}

/// A leverage in words.
pub open spec fn leverage_text(l: Leverage) -> Seq<char> {
    match l {
        Leverage::Cross(v) => "Cross("@ + crate::text::decimal_text(v as nat) + ")"@,
        Leverage::Isolated { leverage, raw_usd } => "Isolated(lev="@ + crate::text::decimal_text(
            leverage as nat,
        ) + ", usd="@ + crate::text::signed_text(raw_usd as int) + ")"@,
    }
}

/// Whether a difference in micro-USD is more than a dollar.
pub open spec fn is_drift(diff: i64) -> bool {
    diff > 1_000_000 || (diff < -1_000_000 && diff != i64::MIN)
}

/// An amount in 8 decimals, in 6 decimals.
pub open spec fn micro(wei: i64) -> i64 {
    crate::clearing_house::fill::div_trunc(wei as int, 100) as i64
}

/// A running total of a user's money, and whether the spot collateral is in it already.
pub struct Running {
    pub total: i64,
    pub counted: bool,
}

/// The total with one more balance. The spot collateral is the same wherever it shows, so it is
/// counted once.
pub open spec fn run_add(r: Running, usdc: i64, spot: i64) -> Running {
    Running {
        total: r.total.wrapping_add(
            usdc.wrapping_add(
                if r.counted {
                    0
                } else {
                    micro(spot)
                },
            ),
        ),
        counted: true,
    }
}

/// The total of a user who shares USDC over the first `n` dexes with the collateral token.
pub open spec fn cross_total(dexes: Seq<DexModel>, u: Seq<char>, token: u32, n: int) -> Running
    decreases n,
{
    if n <= 0 {
        Running { total: 0, counted: false }
    } else {
        let r = cross_total(dexes, u, token, n - 1);
        let d = dexes[n - 1];
        if d.collateral_token != token {
            r
        } else {
            let r1 = if d.users.contains_key(u) && d.users[u].account_mode.shared() {
                run_add(r, d.users[u].usdc_balance, d.users[u].spot_collateral)
            } else {
                r
            };
            if d.partials.contains_key(u) && d.partials[u].account_mode.shared() {
                run_add(r1, d.partials[u].usdc_balance, d.partials[u].spot_collateral)
            } else {
                r1
            }
        }
    }
}

/// Whether the user is compared at all: not a portfolio-margin user and not a vault.
pub open spec fn is_compared(truth: StateModel, u: Seq<char>) -> bool {
    !truth.portfolio_margin.contains_key(u) && !truth.vaults.contains_key(u)
}

/// Whether the user's total in the token is compared on the dex at position `i`.
pub open spec fn total_compared_on(
    replay: StateModel,
    truth: StateModel,
    u: Seq<char>,
    token: u32,
    i: int,
) -> bool {
    &&& i < replay.dexes.len()
    &&& truth.dexes[i].users.contains_key(u)
    &&& replay.dexes[i].users.contains_key(u)
    &&& replay.dexes[i].users[u].account_mode.shared()
    &&& replay.dexes[i].collateral_token == token
}

/// Whether an earlier dex has compared the user's total in the token.
pub open spec fn total_compared_before(
    replay: StateModel,
    truth: StateModel,
    u: Seq<char>,
    token: u32,
    di: int,
) -> bool {
    exists|i: int| 0 <= i < di && #[trigger] total_compared_on(replay, truth, u, token, i)
}

/// The result with a balance noted if it drifted.
pub open spec fn drift_noted(s: Seq<BalanceModel>, u: Seq<char>, replayed: i64, actual: i64) -> Seq<
    BalanceModel,
> {
    if is_drift(replayed.wrapping_sub(actual)) {
        s.push((u, replayed, actual))
    } else {
        s
    }
}

/// Compares a user's balance: the total over dexes, once, for users who share USDC; else the balance
/// on the dex.
pub open spec fn balance_compared(
    acc: ComparisonModel,
    replay: StateModel,
    truth: StateModel,
    di: int,
    u: Seq<char>,
) -> ComparisonModel {
    let ru = replay.dexes[di].users[u];
    let tu = truth.dexes[di].users[u];
    let token = replay.dexes[di].collateral_token;
    if !ru.account_mode.shared() {
        ComparisonModel {
            balance_drifts: drift_noted(acc.balance_drifts, u, ru.usdc_balance, tu.usdc_balance),
            ..acc
        }
    } else if !total_compared_before(replay, truth, u, token, di) {
        ComparisonModel {
            balance_drifts: drift_noted(
                acc.balance_drifts,
                u,
                cross_total(replay.dexes, u, token, replay.dexes.len() as int).total,
                cross_total(truth.dexes, u, token, truth.dexes.len() as int).total,
            ),
            ..acc
        }
    } else {
        acc
    }
}

/// The name of an asset, or a question mark.
pub open spec fn coin_name(universe: Seq<AssetModel>, a: u32) -> Seq<char> {
    if a < universe.len() {
        universe[a as int].name
    } else {
        "?"@
    }
}

/// The list with a difference noted if there is one.
pub open spec fn field_noted(s: Seq<FieldModel>, u: Seq<char>, a: u32, c: Seq<char>, r: i64, t: i64) -> Seq<
    FieldModel,
> {
    if r != t {
        s.push((u, a, c, r, t))
    } else {
        s
    }
}

/// Compares a position that both states have.
pub open spec fn position_compared(
    acc: ComparisonModel,
    u: Seq<char>,
    a: u32,
    c: Seq<char>,
    rp: Position,
    tp: Position,
) -> ComparisonModel {
    ComparisonModel {
        szi_matches: if rp.szi == tp.szi {
            acc.szi_matches.wrapping_add(1)
        } else {
            acc.szi_matches
        },
        szi_mismatches: field_noted(acc.szi_mismatches, u, a, c, rp.szi, tp.szi),
        leverage_mismatches: if same_leverage(rp.leverage, tp.leverage) {
            acc.leverage_mismatches
        } else {
            acc.leverage_mismatches.push(
                (u, a, c, leverage_text(rp.leverage), leverage_text(tp.leverage)),
            )
        },
        cost_basis_drifts: field_noted(
            acc.cost_basis_drifts,
            u,
            a,
            c,
            rp.cost_basis,
            tp.cost_basis,
        ),
        raw_usd_drifts: if rp.leverage is Isolated && tp.leverage is Isolated {
            field_noted(
                acc.raw_usd_drifts,
                u,
                a,
                c,
                crate::clearing_house::fill::carried(rp.leverage),
                crate::clearing_house::fill::carried(tp.leverage),
            )
        } else {
            acc.raw_usd_drifts
        },
        funding_drifts: field_noted(
            acc.funding_drifts,
            u,
            a,
            c,
            rp.outstanding_funding,
            tp.outstanding_funding,
        ),
        ..acc
    }
}

/// Compares the true positions in assets below `n`, in order of asset.
pub open spec fn positions_compared(
    acc: ComparisonModel,
    u: Seq<char>,
    universe: Seq<AssetModel>,
    replay: Map<u32, Position>,
    truth: Map<u32, Position>,
    n: int,
) -> ComparisonModel
    decreases n,
{
    if n <= 0 {
        acc
    } else {
        let r = positions_compared(acc, u, universe, replay, truth, n - 1);
        let a = (n - 1) as u32;
        let c = coin_name(universe, a);
        if !truth.contains_key(a) {
            r
        } else if !replay.contains_key(a) {
            ComparisonModel {
                szi_mismatches: r.szi_mismatches.push((u, a, c, 0, truth[a].szi)),
                ..r
            }
        } else {
            position_compared(r, u, a, c, replay[a], truth[a])
        }
    }
}

/// Notes the replayed positions below `n` that the truth does not have, in order of asset.
pub open spec fn extras_noted(
    acc: ComparisonModel,
    u: Seq<char>,
    universe: Seq<AssetModel>,
    replay: Map<u32, Position>,
    truth: Map<u32, Position>,
    n: int,
) -> ComparisonModel
    decreases n,
{
    if n <= 0 {
        acc
    } else {
        let r = extras_noted(acc, u, universe, replay, truth, n - 1);
        let a = (n - 1) as u32;
        if replay.contains_key(a) && !truth.contains_key(a) {
            ComparisonModel {
                szi_mismatches: r.szi_mismatches.push(
                    (u, a, coin_name(universe, a), replay[a].szi, 0),
                ),
                ..r
            }
        } else {
            r
        }
    }
}

/// Compares the spot collateral of a user who does not share USDC.
pub open spec fn collateral_compared(
    acc: ComparisonModel,
    u: Seq<char>,
    ru: UserModel,
    tu: UserModel,
) -> ComparisonModel {
    if !ru.account_mode.shared() && is_drift(
        micro(ru.spot_collateral.wrapping_sub(tu.spot_collateral)),
    ) {
        ComparisonModel {
            scl_drifts: acc.scl_drifts.push(
                (u, micro(ru.spot_collateral), micro(tu.spot_collateral)),
            ),
            ..acc
        }
    } else {
        acc
    }
}

/// Compares one user of the truth on a dex that both states have.
pub open spec fn user_compared(
    acc: ComparisonModel,
    replay: StateModel,
    truth: StateModel,
    di: int,
    u: Seq<char>,
) -> ComparisonModel {
    let all = crate::clearing_house::funding::asset_ids();
    let universe = truth.dexes[di].universe;
    if !is_compared(truth, u) {
        acc
    } else if !replay.dexes[di].users.contains_key(u) {
        ComparisonModel { missing: acc.missing.push(u), ..acc }
    } else {
        let ru = replay.dexes[di].users[u];
        let tu = truth.dexes[di].users[u];
        let a1 = balance_compared(acc, replay, truth, di, u);
        let a2 = positions_compared(a1, u, universe, ru.positions, tu.positions, all);
        let a3 = collateral_compared(a2, u, ru, tu);
        extras_noted(a3, u, universe, ru.positions, tu.positions, all)
    }
}

/// Compares the first `n` users in a list.
pub open spec fn users_compared(
    acc: ComparisonModel,
    replay: StateModel,
    truth: StateModel,
    di: int,
    us: Seq<Seq<char>>,
    n: int,
) -> ComparisonModel
    decreases n,
{
    if n <= 0 {
        acc
    } else {
        user_compared(
            users_compared(acc, replay, truth, di, us, n - 1),
            replay,
            truth,
            di,
            us[n - 1],
        )
    }
}

/// Those of the first `n` users in a list whom the dex does not know.
pub open spec fn unknown_users(d: DexModel, us: Seq<Seq<char>>, n: int) -> Seq<Seq<char>>
    decreases n,
{
    if n <= 0 {
        Seq::empty()
    } else {
        let r = unknown_users(d, us, n - 1);
        if d.users.contains_key(us[n - 1]) {
            r
        } else {
            r.push(us[n - 1])
        }
    }
}

/// A result without findings.
pub open spec fn blank(di: usize, in_truth: usize, in_replay: usize) -> ComparisonModel {
    ComparisonModel {
        dex_idx: di,
        users_in_truth: in_truth,
        users_in_replay: in_replay,
        szi_matches: 0,
        szi_mismatches: Seq::empty(),
        balance_drifts: Seq::empty(),
        leverage_mismatches: Seq::empty(),
        cost_basis_drifts: Seq::empty(),
        raw_usd_drifts: Seq::empty(),
        funding_drifts: Seq::empty(),
        scl_drifts: Seq::empty(),
        missing: Seq::empty(),
        extra: Seq::empty(),
    }
}

/// The result for a dex that the replay has: its users compared in the order `tk` in which the truth
/// lists them, and the extra users in the order `rk` of the replay.
pub open spec fn dex_compared(
    replay: StateModel,
    truth: StateModel,
    di: usize,
    tk: Seq<Seq<char>>,
    rk: Seq<Seq<char>>,
) -> ComparisonModel {
    let r = users_compared(
        blank(di, tk.len() as usize, rk.len() as usize),
        replay,
        truth,
        di as int,
        tk,
        tk.len() as int,
    );
    ComparisonModel {
        extra: unknown_users(truth.dexes[di as int], rk, rk.len() as int),
        ..r
    }
}

/// The result for a dex that the replay lacks: all its users are missing.
pub open spec fn dex_missing(di: usize, tk: Seq<Seq<char>>) -> ComparisonModel {
    ComparisonModel { missing: tk, ..blank(di, tk.len() as usize, 0) }
}

/// The result for the dex at a position.
pub open spec fn result_for(
    replay: LiquidationState,
    truth: LiquidationState,
    di: usize,
) -> ComparisonModel {
    let tk = truth.dex_states@[di as int].users.keys();
    if di < replay.dex_states@.len() {
        dex_compared(replay@, truth@, di, tk, replay.dex_states@[di as int].users.keys())
    } else {
        dex_missing(di, tk)
    }
}

/// How many positions those of the first `n` users in a list hold on a dex who are compared.
pub open spec fn positions_held(s: StateModel, di: int, us: Seq<Seq<char>>, n: int) -> nat
    decreases n,
{
    if n <= 0 {
        0
    } else {
        positions_held(s, di, us, n - 1) + if is_compared(s, us[n - 1]) {
            s.dexes[di].users[us[n - 1]].positions.len()
        } else {
            0
        }
    }
}

/// Whether the result for a dex shows no difference: all lists are empty, and the sizes that match are
/// the positions of the listed users who are compared. Their number is exact as far as a machine word
/// counts.
pub open spec fn all_match(r: ComparisonModel, s: StateModel, di: usize, us: Seq<Seq<char>>) -> bool {
    let held = positions_held(s, di as int, us, us.len() as int);
    &&& r == (ComparisonModel {
        szi_matches: r.szi_matches,
        ..blank(di, us.len() as usize, us.len() as usize)
    })
    &&& held <= usize::MAX ==> r.szi_matches == held
}

// ── The same, executed ───────────────────────────────────────────────────

/// Compare leverage type and value, ignoring raw_usd drift (which comes from funding).
pub fn leverage_type_matches(a: &Leverage, b: &Leverage) -> (r: bool)
    ensures
        r == same_leverage(*a, *b),
{
    match (a, b) {
        (Leverage::Cross(la), Leverage::Cross(lb)) => *la == *lb,
        (
            Leverage::Isolated { leverage: la, raw_usd: _ },
            Leverage::Isolated { leverage: lb, raw_usd: _ },
        ) => *la == *lb,
        _ => false,
    }
}

pub fn format_leverage(lev: &Leverage) -> (r: String)
    ensures
        r@ == leverage_text(*lev),
{
    let mut s = String::new();
    match lev {
        Leverage::Cross(l) => {
            push_text(&mut s, "Cross(");
            push_decimal(&mut s, *l as u64);
            push_text(&mut s, ")");
        },
        Leverage::Isolated { leverage, raw_usd } => {
            push_text(&mut s, "Isolated(lev=");
            push_decimal(&mut s, *leverage as u64);
            push_text(&mut s, ", usd=");
            push_signed(&mut s, *raw_usd);
            push_text(&mut s, ")");
        },
    }
    assert(s@ =~= leverage_text(*lev));
    s
}

fn drifted(diff: i64) -> (r: bool)
    ensures
        r == is_drift(diff),
{
    diff > 1_000_000 || (diff < -1_000_000 && diff != i64::MIN)
}

fn add_running(total: i64, counted: bool, usdc: i64, spot: i64) -> (r: i64)
    ensures
        r == run_add(Running { total, counted }, usdc, spot).total,
{
    let scl: i64 = if counted {
        0
    } else {
        spot / 100
    };
    total.wrapping_add(usdc.wrapping_add(scl))
}

impl LiquidationState {
    fn cross_dex_total(&self, u: &str, token: u32) -> (r: i64)
        ensures
            r == cross_total(self@.dexes, u@, token, self@.dexes.len() as int).total,
    {
        let mut total: i64 = 0;
        let mut counted: bool = false;
        let mut k: usize = 0;
        while k < self.dex_states.len()
            invariant
                k <= self.dex_states@.len(),
                (Running { total, counted }) == cross_total(self@.dexes, u@, token, k as int),
            decreases self.dex_states@.len() - k,
        {
            let d = &self.dex_states[k];
            assert(self@.dexes[k as int] == d@);
            if d.collateral_token == token {
                if let Some(us) = d.users.get(u) {
                    if us.account_mode.is_shared_usdc() {
                        total = add_running(total, counted, us.usdc_balance, us.spot_collateral);
                        counted = true;
                    }
                }
                if let Some(p) = d.users_without_positions.get(u) {
                    if p.account_mode.is_shared_usdc() {
                        total = add_running(total, counted, p.usdc_balance, p.spot_collateral);
                        counted = true;
                    }
                }
            }
            k = k + 1;
        }
        total
    }
}

fn compared_before(
    replay: &LiquidationState,
    truth: &LiquidationState,
    u: &str,
    token: u32,
    di: usize,
) -> (r: bool)
    requires
        di <= truth@.dexes.len(),
    ensures
        r == total_compared_before(replay@, truth@, u@, token, di as int),
{
    let mut i: usize = 0;
    while i < di
        invariant
            i <= di <= truth@.dexes.len(),
            forall|j: int| 0 <= j < i ==> !total_compared_on(replay@, truth@, u@, token, j),
        decreases di - i,
    {
        if i < replay.dex_states.len() {
            assert(truth@.dexes[i as int] == truth.dex_states@[i as int]@);
            assert(replay@.dexes[i as int] == replay.dex_states@[i as int]@);
            if truth.dex_states[i].users.contains_key(u) && replay.dex_states[i].collateral_token
                == token {
                if let Some(ru) = replay.dex_states[i].users.get(u) {
                    if ru.account_mode.is_shared_usdc() {
                        assert(total_compared_on(replay@, truth@, u@, token, i as int));
                        return true;
                    }
                }
            }
        }
        i = i + 1;
    }
    false
}

impl DexState {
    fn coin(&self, a: u32) -> (r: String)
        ensures
            r@ == coin_name(self@.universe, a),
    {
        let i: usize = a as usize;
        if i < self.universe.len() {
            assert(self@.universe[i as int] == self.universe@[i as int]@);
            self.universe[i].name.clone()
        } else {
            "?".to_owned()
        }
    }
}

impl ComparisonResult {
    fn note_balance(&mut self, u: &String, replayed: i64, actual: i64)
        ensures
            final(self)@ == (ComparisonModel {
                balance_drifts: drift_noted(old(self)@.balance_drifts, u@, replayed, actual),
                ..old(self)@
            }),
    {
        let ghost before = self@;
        if drifted(replayed.wrapping_sub(actual)) {
            self.balance_drifts.push(
                BalanceDrift {
                    user: u.clone(),
                    replay_balance: replayed,
                    truth_balance: actual,
                },
            );
        }
        assert(self@.balance_drifts =~= drift_noted(before.balance_drifts, u@, replayed, actual));
    }

    fn note_szi(&mut self, u: &String, a: u32, coin: String, r: i64, t: i64)
        ensures
            final(self)@ == (ComparisonModel {
                szi_mismatches: old(self)@.szi_mismatches.push((u@, a, coin@, r, t)),
                ..old(self)@
            }),
    {
        let ghost before = self@;
        self.szi_mismatches.push(
            SziMismatch { user: u.clone(), asset_idx: a, coin, replay_szi: r, truth_szi: t },
        );
        assert(self@.szi_mismatches =~= before.szi_mismatches.push((u@, a, coin@, r, t)));
    }

    fn compare_position(&mut self, u: &String, a: u32, coin: String, rp: Position, tp: Position)
        ensures
            final(self)@ == position_compared(old(self)@, u@, a, coin@, rp, tp),
    {
        let ghost before = self@;
        if rp.szi == tp.szi {
            self.szi_matches = self.szi_matches.wrapping_add(1);
        } else {
            self.note_szi(u, a, coin.clone(), rp.szi, tp.szi);
        }
        if !leverage_type_matches(&rp.leverage, &tp.leverage) {
            self.leverage_mismatches.push(
                LeverageMismatch {
                    user: u.clone(),
                    asset_idx: a,
                    coin: coin.clone(),
                    replay_lev: format_leverage(&rp.leverage),
                    truth_lev: format_leverage(&tp.leverage),
                },
            );
        }
        if rp.cost_basis != tp.cost_basis {
            self.cost_basis_drifts.push(
                PositionFieldDrift {
                    user: u.clone(),
                    asset_idx: a,
                    coin: coin.clone(),
                    replay_val: rp.cost_basis,
                    truth_val: tp.cost_basis,
                },
            );
        }
        match (rp.leverage, tp.leverage) {
            (
                Leverage::Isolated { leverage: _, raw_usd: r },
                Leverage::Isolated { leverage: _, raw_usd: t },
            ) => {
                if r != t {
                    self.raw_usd_drifts.push(
                        PositionFieldDrift {
                            user: u.clone(),
                            asset_idx: a,
                            coin: coin.clone(),
                            replay_val: r,
                            truth_val: t,
                        },
                    );
                }
            },
            _ => {},
        }
        if rp.outstanding_funding != tp.outstanding_funding {
            self.funding_drifts.push(
                PositionFieldDrift {
                    user: u.clone(),
                    asset_idx: a,
                    coin,
                    replay_val: rp.outstanding_funding,
                    truth_val: tp.outstanding_funding,
                },
            );
        }
        let ghost want = position_compared(before, u@, a, coin@, rp, tp);
        assert(self@.leverage_mismatches =~= want.leverage_mismatches);
        assert(self@.cost_basis_drifts =~= want.cost_basis_drifts);
        assert(self@.raw_usd_drifts =~= want.raw_usd_drifts);
        assert(self@.funding_drifts =~= want.funding_drifts);
        assert(self@ =~= want);
    }
}

/// Assets that the truth has no position in do not count.
proof fn lemma_positions_gap(
    acc: ComparisonModel,
    u: Seq<char>,
    universe: Seq<AssetModel>,
    replay: Map<u32, Position>,
    truth: Map<u32, Position>,
    lo: int,
    hi: int,
)
    requires
        0 <= lo <= hi <= crate::clearing_house::funding::asset_ids(),
        forall|a: u32| lo <= a < hi ==> !truth.contains_key(a),
    ensures
        positions_compared(acc, u, universe, replay, truth, hi) == positions_compared(
            acc,
            u,
            universe,
            replay,
            truth,
            lo,
        ),
    decreases hi - lo,
{
    if lo < hi {
        lemma_positions_gap(acc, u, universe, replay, truth, lo, hi - 1);
    }
}

/// Assets that the replay has no position in do not count.
proof fn lemma_extras_gap(
    acc: ComparisonModel,
    u: Seq<char>,
    universe: Seq<AssetModel>,
    replay: Map<u32, Position>,
    truth: Map<u32, Position>,
    lo: int,
    hi: int,
)
    requires
        0 <= lo <= hi <= crate::clearing_house::funding::asset_ids(),
        forall|a: u32| lo <= a < hi ==> !replay.contains_key(a),
    ensures
        extras_noted(acc, u, universe, replay, truth, hi) == extras_noted(
            acc,
            u,
            universe,
            replay,
            truth,
            lo,
        ),
    decreases hi - lo,
{
    if lo < hi {
        lemma_extras_gap(acc, u, universe, replay, truth, lo, hi - 1);
    }
}

/// One more than the key before position `i` of an ascending list.
spec fn bound(ks: Seq<u32>, i: int) -> int {
    if i <= 0 {
        0
    } else {
        ks[i - 1] + 1
    }
}

/// Between two neighbours of an ascending list lies no key.
proof fn lemma_no_key_between(ks: Seq<u32>, i: int)
    requires
        crate::assetmap::ascending(ks),
        0 <= i <= ks.len(),
    ensures
        0 <= bound(ks, i) <= crate::clearing_house::funding::asset_ids(),
        i < ks.len() ==> bound(ks, i) <= ks[i],
        forall|b: u32|
            bound(ks, i) <= b && (i < ks.len() ==> b < ks[i]) ==> !ks.to_set().contains(b),
{
    if 0 < i < ks.len() {
        assert(ks[i - 1] < ks[i]);
    }
    assert forall|b: u32|
        bound(ks, i) <= b && (i < ks.len() ==> b < ks[i]) implies !ks.to_set().contains(b) by {
        if ks.contains(b) {
            let j = ks.index_of(b);
            assert(ks[j] == b);
            if j < i - 1 {
                assert(ks[j] < ks[i - 1]);
            } else if j > i {
                assert(ks[i] < ks[j]);
            }
        }
    }
}

fn compare_positions(
    result: &mut ComparisonResult,
    u: &String,
    dex: &DexState,
    ru: &UserState,
    tu: &UserState,
)
    ensures
        final(result)@ == positions_compared(
            old(result)@,
            u@,
            dex@.universe,
            ru@.positions,
            tu@.positions,
            crate::clearing_house::funding::asset_ids(),
        ),
{
    let ghost acc = result@;
    let ghost (un, rm, tm) = (dex@.universe, ru@.positions, tu@.positions);
    let n: usize = tu.positions.len();
    let ghost ks = tu.positions.keys();
    let mut i: usize = 0;
    while i < n
        invariant
            i <= n == ks.len(),
            ks == tu.positions.keys(),
            crate::assetmap::ascending(ks),
            tm.dom() == ks.to_set(),
            un == dex@.universe,
            rm == ru@.positions,
            tm == tu@.positions,
            result@ == positions_compared(acc, u@, un, rm, tm, bound(ks, i as int)),
        decreases n - i,
    {
        let a: u32 = tu.positions.key_at(i);
        let tp: Position = *tu.positions.val_at(i);
        proof {
            lemma_no_key_between(ks, i as int);
            lemma_positions_gap(acc, u@, un, rm, tm, bound(ks, i as int), a as int);
        }
        let coin = dex.coin(a);
        match ru.positions.get(a) {
            None => {
                result.note_szi(u, a, coin, 0, tp.szi);
            },
            Some(rp) => {
                result.compare_position(u, a, coin, *rp, tp);
            },
        }
        i = i + 1;
    }
    proof {
        lemma_no_key_between(ks, n as int);
        lemma_positions_gap(
            acc,
            u@,
            un,
            rm,
            tm,
            bound(ks, n as int),
            crate::clearing_house::funding::asset_ids(),
        );
    }
}

fn note_extras(
    result: &mut ComparisonResult,
    u: &String,
    dex: &DexState,
    ru: &UserState,
    tu: &UserState,
)
    ensures
        final(result)@ == extras_noted(
            old(result)@,
            u@,
            dex@.universe,
            ru@.positions,
            tu@.positions,
            crate::clearing_house::funding::asset_ids(),
        ),
{
    let ghost acc = result@;
    let ghost (un, rm, tm) = (dex@.universe, ru@.positions, tu@.positions);
    let n: usize = ru.positions.len();
    let ghost ks = ru.positions.keys();
    let mut i: usize = 0;
    while i < n
        invariant
            i <= n == ks.len(),
            ks == ru.positions.keys(),
            crate::assetmap::ascending(ks),
            rm.dom() == ks.to_set(),
            un == dex@.universe,
            rm == ru@.positions,
            tm == tu@.positions,
            result@ == extras_noted(acc, u@, un, rm, tm, bound(ks, i as int)),
        decreases n - i,
    {
        let a: u32 = ru.positions.key_at(i);
        let rp: Position = *ru.positions.val_at(i);
        proof {
            lemma_no_key_between(ks, i as int);
            lemma_extras_gap(acc, u@, un, rm, tm, bound(ks, i as int), a as int);
        }
        if !tu.positions.contains_key(a) {
            let coin = dex.coin(a);
            result.note_szi(u, a, coin, rp.szi, 0);
        }
        i = i + 1;
    }
    proof {
        lemma_no_key_between(ks, n as int);
        lemma_extras_gap(
            acc,
            u@,
            un,
            rm,
            tm,
            bound(ks, n as int),
            crate::clearing_house::funding::asset_ids(),
        );
    }
}

fn compare_user(
    result: &mut ComparisonResult,
    replay: &LiquidationState,
    truth: &LiquidationState,
    di: usize,
    u: &String,
)
    requires
        di < replay@.dexes.len(),
        di < truth@.dexes.len(),
        truth@.dexes[di as int].users.contains_key(u@),
    ensures
        final(result)@ == user_compared(old(result)@, replay@, truth@, di as int, u@),
{
    if truth.portfolio_margin_users.contains_key(u.as_str()) || truth.vault_states.contains_key(
        u.as_str(),
    ) {
        return ;
    }
    let td = &truth.dex_states[di];
    let rd = &replay.dex_states[di];
    assert(truth@.dexes[di as int] == td@);
    assert(replay@.dexes[di as int] == rd@);
    let ru = match rd.users.get(u.as_str()) {
        None => {
            let ghost before = result@;
            result.missing_after_replay.push(u.clone());
            assert(result@.missing =~= before.missing.push(u@));
            return ;
        },
        Some(us) => us,
    };
    let tu = match td.users.get(u.as_str()) {
        None => {
            return ;
        },
        Some(us) => us,
    };
    if ru.account_mode.is_shared_usdc() {
        let token: u32 = rd.collateral_token;
        if !compared_before(replay, truth, u.as_str(), token, di) {
            let r: i64 = replay.cross_dex_total(u.as_str(), token);
            let t: i64 = truth.cross_dex_total(u.as_str(), token);
            result.note_balance(u, r, t);
        }
    } else {
        result.note_balance(u, ru.usdc_balance, tu.usdc_balance);
    }
    compare_positions(result, u, td, ru, tu);
    if !ru.account_mode.is_shared_usdc() {
        let diff: i64 = ru.spot_collateral.wrapping_sub(tu.spot_collateral) / 100;
        if drifted(diff) {
            let ghost before = result@;
            result.scl_drifts.push(
                BalanceDrift {
                    user: u.clone(),
                    replay_balance: ru.spot_collateral / 100,
                    truth_balance: tu.spot_collateral / 100,
                },
            );
            assert(result@.scl_drifts =~= before.scl_drifts.push(
                (u@, micro(ru.spot_collateral), micro(tu.spot_collateral)),
            ));
        }
    }
    note_extras(result, u, td, ru, tu);
}

/// Compare replayed state against ground truth (parsed second snapshot).
/// Per-dex, per-field comparison. For Unified/DexAbstraction users, balance comparison
/// sums usdc across all dexes with the same collateral token + SCL, since the protocol
/// silently rebalances between them.
pub fn compare_states(replay: &LiquidationState, truth: &LiquidationState) -> (r: Vec<
    ComparisonResult,
>)
    ensures
        r@.len() == truth.dex_states@.len(),
        forall|di: int|
            0 <= di < r@.len() ==> (#[trigger] r@[di])@ == result_for(*replay, *truth, di as usize),
        *replay == *truth ==> forall|di: int|
            0 <= di < r@.len() ==> all_match(
                (#[trigger] r@[di])@,
                truth@,
                di as usize,
                truth.dex_states@[di].users.keys(),
            ),
{
    let mut results: Vec<ComparisonResult> = Vec::new();
    let mut di: usize = 0;
    while di < truth.dex_states.len()
        invariant
            di <= truth.dex_states@.len(),
            results@.len() == di,
            forall|j: int|
                0 <= j < di ==> (#[trigger] results@[j])@ == result_for(
                    *replay,
                    *truth,
                    j as usize,
                ),
            *replay == *truth ==> forall|j: int|
                0 <= j < di ==> all_match(
                    (#[trigger] results@[j])@,
                    truth@,
                    j as usize,
                    truth.dex_states@[j].users.keys(),
                ),
        decreases truth.dex_states@.len() - di,
    {
        let td = &truth.dex_states[di];
        assert(truth@.dexes[di as int] == td@);
        let nt: usize = td.users.len();
        let ghost tk = td.users.keys();
        let nr: usize = if di < replay.dex_states.len() {
            replay.dex_states[di].users.len()
        } else {
            0
        };
        let mut result = ComparisonResult {
            dex_idx: di,
            users_in_truth: nt,
            users_in_replay: nr,
            szi_matches: 0,
            szi_mismatches: Vec::new(),
            balance_drifts: Vec::new(),
            leverage_mismatches: Vec::new(),
            cost_basis_drifts: Vec::new(),
            raw_usd_drifts: Vec::new(),
            funding_drifts: Vec::new(),
            scl_drifts: Vec::new(),
            missing_after_replay: Vec::new(),
            extra_after_replay: Vec::new(),
        };
        assert(result@ =~= blank(di, nt, nr));
        if di < replay.dex_states.len() {
            let rd = &replay.dex_states[di];
            let ghost rk = rd.users.keys();
            let mut i: usize = 0;
            while i < nt
                invariant
                    i <= nt == tk.len(),
                    di < replay@.dexes.len(),
                    di < truth@.dexes.len(),
                    td@ == truth@.dexes[di as int],
                    tk == td.users.keys(),
                    result@ == users_compared(
                        blank(di, nt, nr),
                        replay@,
                        truth@,
                        di as int,
                        tk,
                        i as int,
                    ),
                decreases nt - i,
            {
                compare_user(&mut result, replay, truth, di, td.users.key_at(i));
                i = i + 1;
            }
            let ghost compared = result@;
            proof {
                lemma_extra_untouched(
                    blank(di, nt, nr),
                    replay@,
                    truth@,
                    di as int,
                    tk,
                    nt as int,
                );
            }
            i = 0;
            while i < nr
                invariant
                    i <= nr == rk.len(),
                    rk == rd.users.keys(),
                    td@ == truth@.dexes[di as int],
                    result@ == (ComparisonModel {
                        extra: unknown_users(td@, rk, i as int),
                        ..compared
                    }),
                decreases nr - i,
            {
                let u = rd.users.key_at(i);
                if !td.users.contains_key(u.as_str()) {
                    let ghost before = result@;
                    result.extra_after_replay.push(u.clone());
                    assert(result@.extra =~= before.extra.push(u@));
                }
                i = i + 1;
            }
        } else {
            let mut i: usize = 0;
            while i < nt
                invariant
                    i <= nt == tk.len(),
                    tk == td.users.keys(),
                    result@ == (ComparisonModel { missing: tk.take(i as int), ..blank(di, nt, 0) }),
                decreases nt - i,
            {
                let ghost before = result@;
                let u = td.users.key_at(i).clone();
                result.missing_after_replay.push(u);
                assert(result@.missing =~= before.missing.push(u@));
                assert(tk.take(i + 1) =~= tk.take(i as int).push(tk[i as int]));
                i = i + 1;
            }
            assert(tk.take(nt as int) =~= tk);
        }
        proof {
            if *replay == *truth {
                assert forall|k: int| 0 <= k < tk.len() implies truth@.dexes[di as int].users.contains_key(
                    #[trigger] tk[k],
                ) by {
                    assert(tk.to_set().contains(tk[k]));
                }
                law_same_state_has_no_differences(truth@, di, tk);
            }
        }
        results.push(result);
        di = di + 1;
    }
    results
}

/// Comparing users notes no extra ones.
proof fn lemma_extra_untouched(
    acc: ComparisonModel,
    replay: StateModel,
    truth: StateModel,
    di: int,
    us: Seq<Seq<char>>,
    n: int,
)
    ensures
        users_compared(acc, replay, truth, di, us, n).extra == acc.extra,
    decreases n,
{
    if n > 0 {
        lemma_extra_untouched(acc, replay, truth, di, us, n - 1);
        let b = users_compared(acc, replay, truth, di, us, n - 1);
        let all = crate::clearing_house::funding::asset_ids();
        let u = us[n - 1];
        let universe = truth.dexes[di].universe;
        let rp = replay.dexes[di].users[u].positions;
        let tp = truth.dexes[di].users[u].positions;
        let a1 = balance_compared(b, replay, truth, di, u);
        lemma_positions_extra(a1, u, universe, rp, tp, all);
        let a2 = positions_compared(a1, u, universe, rp, tp, all);
        let a3 = collateral_compared(
            a2,
            u,
            replay.dexes[di].users[u],
            truth.dexes[di].users[u],
        );
        lemma_extras_extra(a3, u, universe, rp, tp, all);
    }
}

proof fn lemma_positions_extra(
    acc: ComparisonModel,
    u: Seq<char>,
    universe: Seq<AssetModel>,
    replay: Map<u32, Position>,
    truth: Map<u32, Position>,
    n: int,
)
    ensures
        positions_compared(acc, u, universe, replay, truth, n).extra == acc.extra,
    decreases n,
{
    if n > 0 {
        lemma_positions_extra(acc, u, universe, replay, truth, n - 1);
    }
}

proof fn lemma_extras_extra(
    acc: ComparisonModel,
    u: Seq<char>,
    universe: Seq<AssetModel>,
    replay: Map<u32, Position>,
    truth: Map<u32, Position>,
    n: int,
)
    ensures
        extras_noted(acc, u, universe, replay, truth, n).extra == acc.extra,
    decreases n,
{
    if n > 0 {
        lemma_extras_extra(acc, u, universe, replay, truth, n - 1);
    }
}

/// The assets below `n` in which there is a position.
spec fn held_below(m: Map<u32, Position>, n: int) -> Set<u32> {
    Set::new(|a: u32| m.contains_key(a) && a < n)
}

/// The assets below `n + 1` with a position are those below `n` and perhaps `n`.
proof fn lemma_held_below(m: Map<u32, Position>, n: int)
    requires
        0 <= n <= crate::clearing_house::funding::asset_ids(),
    ensures
        held_below(m, n).finite(),
        n == 0 ==> held_below(m, n).len() == 0,
        n > 0 ==> held_below(m, n).len() == held_below(m, n - 1).len() + if m.contains_key(
            (n - 1) as u32,
        ) {
            1int
        } else {
            0
        },
        n == crate::clearing_house::funding::asset_ids() ==> held_below(m, n) == m.dom(),
    decreases n,
{
    if n > 0 {
        lemma_held_below(m, n - 1);
        let a = (n - 1) as u32;
        if m.contains_key(a) {
            assert(held_below(m, n) =~= held_below(m, n - 1).insert(a));
        } else {
            assert(held_below(m, n) =~= held_below(m, n - 1));
        }
    } else {
        assert(held_below(m, n) =~= Set::<u32>::empty());
    }
    if n == crate::clearing_house::funding::asset_ids() {
        assert(held_below(m, n) =~= m.dom());
    }
}

/// Equal positions show no difference, and each of them counts as a match.
proof fn lemma_same_positions(
    acc: ComparisonModel,
    u: Seq<char>,
    universe: Seq<AssetModel>,
    m: Map<u32, Position>,
    n: int,
)
    requires
        0 <= n <= crate::clearing_house::funding::asset_ids(),
    ensures
        ({
            let r = positions_compared(acc, u, universe, m, m, n);
            let found = acc.szi_matches + held_below(m, n).len();
            &&& r == (ComparisonModel { szi_matches: r.szi_matches, ..acc })
            &&& found <= usize::MAX ==> r.szi_matches == found
        }),
        extras_noted(acc, u, universe, m, m, n) == acc,
    decreases n,
{
    lemma_held_below(m, n);
    if n > 0 {
        lemma_same_positions(acc, u, universe, m, n - 1);
    }
}

/// Users who are equal in both states show no difference, and each of their positions counts as a
/// match.
proof fn lemma_same_users(s: StateModel, di: int, acc: ComparisonModel, us: Seq<Seq<char>>, n: int)
    requires
        0 <= n <= us.len(),
        forall|i: int| 0 <= i < us.len() ==> s.dexes[di].users.contains_key(#[trigger] us[i]),
    ensures
        ({
            let r = users_compared(acc, s, s, di, us, n);
            let found = acc.szi_matches + positions_held(s, di, us, n);
            &&& r == (ComparisonModel { szi_matches: r.szi_matches, ..acc })
            &&& found <= usize::MAX ==> r.szi_matches == found
        }),
    decreases n,
{
    if n > 0 {
        lemma_same_users(s, di, acc, us, n - 1);
        let b = users_compared(acc, s, s, di, us, n - 1);
        let u = us[n - 1];
        let m = s.dexes[di].users[u].positions;
        let all = crate::clearing_house::funding::asset_ids();
        assert(s.dexes[di].users.contains_key(u));
        let a1 = balance_compared(b, s, s, di, u);
        assert(a1 == b);
        lemma_held_below(m, all);
        lemma_same_positions(a1, u, s.dexes[di].universe, m, all);
        let a2 = positions_compared(a1, u, s.dexes[di].universe, m, m, all);
        let a3 = collateral_compared(a2, u, s.dexes[di].users[u], s.dexes[di].users[u]);
        assert(a3 == a2);
        lemma_same_positions(a3, u, s.dexes[di].universe, m, all);
    }
}

/// A state compared with itself shows no difference on any dex: all lists are empty, and the sizes that
/// match are the positions of the listed users who are neither portfolio-margin users nor vaults. Their
/// number is exact as far as a machine word counts.
pub proof fn law_same_state_has_no_differences(s: StateModel, di: usize, us: Seq<Seq<char>>)
    requires
        di < s.dexes.len(),
        forall|i: int|
            0 <= i < us.len() ==> s.dexes[di as int].users.contains_key(#[trigger] us[i]),
    ensures
        all_match(dex_compared(s, s, di, us, us), s, di, us),
{
    let b = blank(di, us.len() as usize, us.len() as usize);
    lemma_same_users(s, di as int, b, us, us.len() as int);
    lemma_all_known(s.dexes[di as int], us, us.len() as int);
}

proof fn lemma_all_known(d: DexModel, us: Seq<Seq<char>>, n: int)
    requires
        0 <= n <= us.len(),
        forall|i: int| 0 <= i < us.len() ==> d.users.contains_key(#[trigger] us[i]),
    ensures
        unknown_users(d, us, n) == Seq::<Seq<char>>::empty(),
    decreases n,
{
    if n > 0 {
        lemma_all_known(d, us, n - 1);
        assert(d.users.contains_key(us[n - 1]));
    }
}

} // verus!

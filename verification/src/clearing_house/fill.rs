//! How a fill changes the user that it belongs to.
//!
//! A fill arrives with decimal prices and sizes. The amounts that follow from them by floating-point
//! arithmetic come in as the integers of [`FillAmounts`]; everything that is decided from them and
//! from the state is decided here.
use crate::clearing_house::{
    DexModel, DexState, Leverage, LiquidationState, MarginMode, PartialModel, Position, StateModel,
    UserModel, UserState, UserStatePartial,
};
use crate::text::to_lowercase;
use vstd::prelude::*;

verus! {

broadcast use vstd::std_specs::hash::group_hash_axioms;

/// The integer amounts of one fill. Sizes are in the asset's smallest unit, money in micro-USD.
#[derive(Debug, Clone, Copy, PartialEq, Eq, Structural)]
pub struct FillAmounts {
    pub is_buy: bool,
    /// Signed size before the fill, as the fill reports it.
    pub start_szi: i64,
    /// Signed size after the fill.
    pub new_szi: i64,
    /// Whether the size before the fill was not zero, before it was rounded.
    pub had_size: bool,
    /// What the fill does to the balance: minus the price paid or plus the price received, less the
    /// fee.
    pub delta_u: i64,
    /// Size times price.
    pub notional: i64,
    /// The fill's price in the oracle's unit.
    pub oracle_px: i64,
    /// For a fill that turns the position over: the balance change of the part that closes it.
    pub close_delta: i64,
    /// The same of the part that opens the other direction.
    pub open_delta: i64,
    /// Size times price of the part that opens the other direction.
    pub open_notional: i64,
    /// Cost basis of the position in the other direction.
    pub open_cost_basis: i64,
    /// For a fill that reduces the position: the share of its cost basis that remains.
    pub reduced_cost_basis: i64,
    /// The share of its isolated margin that the closed part carried.
    pub released_raw_usd: i64,
}

// ── What a fill does, mathematically ─────────────────────────────────────

/// Division of signed integers that rounds toward zero.
pub open spec fn div_trunc(a: int, b: int) -> int {
    if a >= 0 {
        a / b
    } else {
        -((-a) / b)
    }
}

/// The leverage that is remembered when a position goes: its mode and value, without margin.
pub open spec fn remembered(l: Leverage) -> Leverage {
    match l {
        Leverage::Isolated { leverage, raw_usd } => Leverage::Isolated { leverage, raw_usd: 0 },
        Leverage::Cross(v) => Leverage::Cross(v),
    }
}

/// The multiple of a leverage setting.
pub open spec fn multiple(l: Leverage) -> u32 {
    match l {
        Leverage::Isolated { leverage, raw_usd } => leverage,
        Leverage::Cross(v) => v,
    }
}

/// The margin that an isolated position carries; nothing for a cross position.
pub open spec fn carried(l: Leverage) -> i64 {
    match l {
        Leverage::Isolated { leverage, raw_usd } => raw_usd,
        Leverage::Cross(v) => 0,
    }
}

/// The same leverage with other margin; a cross leverage carries none.
pub open spec fn with_margin(l: Leverage, raw: i64) -> Leverage {
    match l {
        Leverage::Isolated { leverage, raw_usd } => Leverage::Isolated { leverage, raw_usd: raw },
        Leverage::Cross(v) => Leverage::Cross(v),
    }
}

/// The margin that a notional needs at a multiple; nothing where the multiple is zero.
pub open spec fn margin_for(notional: i64, lev: u32) -> i64 {
    if lev > 0 {
        div_trunc(notional as int, lev as int) as i64
    } else {
        0
    }
}

/// The user without the position, its leverage remembered.
pub open spec fn without_position(u: UserModel, a: u32) -> UserModel {
    if u.positions.contains_key(a) {
        UserModel {
            leverage_settings: u.leverage_settings.insert(
                a,
                remembered(u.positions[a].leverage),
            ),
            positions: u.positions.remove(a),
            ..u
        }
    } else {
        u
    }
}

/// A position that is still held although the fill started from nothing was closed from outside
/// (by deleveraging or liquidation): it goes, and its isolated margin returns to the balance.
pub open spec fn after_outside_close(u: UserModel, a: u32, start_szi: i64) -> UserModel {
    if start_szi == 0 && u.positions.contains_key(a) && u.positions[a].szi != 0 {
        let w = without_position(u, a);
        UserModel {
            usdc_balance: u.usdc_balance.wrapping_add(carried(u.positions[a].leverage)),
            ..w
        }
    } else {
        u
    }
}

/// Whether a fill in the asset concerns isolated margin: by the position, else by the user's
/// setting, else by what the market allows.
pub open spec fn trades_isolated(u: UserModel, a: u32, mode: MarginMode) -> bool {
    if u.positions.contains_key(a) {
        u.positions[a].leverage is Isolated
    } else if u.leverage_settings.contains_key(a) {
        u.leverage_settings[a] is Isolated
    } else {
        !(mode is Normal)
    }
}

/// Whether the fill takes the position through zero.
pub open spec fn turns_over(f: FillAmounts) -> bool {
    (f.start_szi > 0 && f.new_szi < 0) || (f.start_szi < 0 && f.new_szi > 0)
}

/// Whether the fill goes in the direction of the position.
pub open spec fn adds(f: FillAmounts) -> bool {
    (f.start_szi >= 0 && f.is_buy) || (f.start_szi <= 0 && !f.is_buy)
}

/// The multiple that margin is deposited at: that of the position, else of the setting, else 20.
pub open spec fn deposit_multiple(u: UserModel, a: u32) -> u32 {
    if u.positions.contains_key(a) {
        multiple(u.positions[a].leverage)
    } else if u.leverage_settings.contains_key(a) {
        multiple(u.leverage_settings[a])
    } else {
        20
    }
}

/// A fill that turns an isolated position over: the old position closes into the balance and the
/// new one opens with margin from it.
pub open spec fn after_turn_over(
    u: UserModel,
    a: u32,
    f: FillAmounts,
    table: u32,
) -> UserModel {
    let closed = without_position(u, a);
    let returned = if u.positions.contains_key(a) && u.positions[a].leverage is Isolated {
        carried(u.positions[a].leverage).wrapping_add(f.close_delta)
    } else {
        0
    };
    let lev = deposit_multiple(closed, a);
    let margin = margin_for(f.open_notional, lev);
    let setting = if closed.leverage_settings.contains_key(a) {
        closed.leverage_settings[a]
    } else {
        Leverage::Isolated { leverage: lev, raw_usd: 0 }
    };
    UserModel {
        usdc_balance: u.usdc_balance.wrapping_add(returned).wrapping_sub(margin),
        positions: closed.positions.insert(
            a,
            Position {
                szi: f.new_szi,
                cost_basis: f.open_cost_basis,
                leverage: with_margin(setting, f.open_delta.wrapping_add(margin)),
                margin_table_id: table,
                outstanding_funding: 0,
            },
        ),
        ..closed
    }
}

/// The part of a margin deposit that the balance itself pays, for users whose mode shares USDC or
/// whose balance does not reach: what is there, and never less than nothing.
pub open spec fn paid_locally(balance: i64, margin: i64) -> i64 {
    let available = if balance > 0 {
        balance
    } else {
        0
    };
    if margin <= available {
        margin
    } else {
        available
    }
}

/// The balance after a margin deposit, and what dex 0 still has to pay.
pub open spec fn after_deposit(u: UserModel, margin: i64) -> (UserModel, i64) {
    if u.account_mode.shared() {
        (
            UserModel {
                usdc_balance: u.usdc_balance.wrapping_sub(paid_locally(u.usdc_balance, margin)),
                ..u
            },
            0,
        )
    } else if u.usdc_balance >= margin {
        (UserModel { usdc_balance: u.usdc_balance.wrapping_sub(margin), ..u }, 0)
    } else {
        let local = if u.usdc_balance > 0 {
            u.usdc_balance
        } else {
            0
        };
        (
            UserModel { usdc_balance: u.usdc_balance.wrapping_sub(local), ..u },
            margin.wrapping_sub(local),
        )
    }
}

/// The leverage of a position that the fill opens.
pub open spec fn opening_leverage(u: UserModel, a: u32, mode: MarginMode, max_lev: u32) -> Leverage {
    if u.leverage_settings.contains_key(a) {
        u.leverage_settings[a]
    } else if mode is Normal {
        Leverage::Cross(max_lev)
    } else {
        Leverage::Isolated { leverage: max_lev, raw_usd: 0 }
    }
}

/// The position that the fill works on: the one held, or a new one of size zero.
pub open spec fn worked_position(
    u: UserModel,
    a: u32,
    mode: MarginMode,
    table: u32,
    max_lev: u32,
) -> Position {
    if u.positions.contains_key(a) {
        u.positions[a]
    } else {
        Position {
            szi: 0,
            cost_basis: 0,
            leverage: opening_leverage(u, a, mode, max_lev),
            margin_table_id: table,
            outstanding_funding: 0,
        }
    }
}

/// The cost basis after the fill: the fill's notional for a new position, the sum of both when
/// adding, the remaining share when reducing.
pub open spec fn cost_basis_after(u: UserModel, a: u32, f: FillAmounts) -> i64 {
    if !u.positions.contains_key(a) || f.start_szi == 0 {
        f.notional
    } else if adds(f) {
        u.positions[a].cost_basis.wrapping_add(f.notional)
    } else if f.had_size {
        f.reduced_cost_basis
    } else {
        u.positions[a].cost_basis
    }
}

/// What returns from isolated margin to the balance when the fill reduces the position.
pub open spec fn margin_released(f: FillAmounts) -> i64 {
    let r = f.released_raw_usd.wrapping_add(f.delta_u);
    if !adds(f) && f.had_size && r > 0 {
        r
    } else {
        0
    }
}

/// The user after a fill that leaves a position open (and does not turn an isolated one over).
pub open spec fn after_resize(
    u: UserModel,
    a: u32,
    f: FillAmounts,
    mode: MarginMode,
    table: u32,
    max_lev: u32,
) -> UserModel {
    let p = worked_position(u, a, mode, table, max_lev);
    let isolated = p.leverage is Isolated;
    let raw = carried(p.leverage).wrapping_add(f.delta_u);
    let margin = if adds(f) {
        margin_for(f.notional, multiple(p.leverage))
    } else {
        0
    };
    let released = if isolated {
        margin_released(f)
    } else {
        0
    };
    UserModel {
        usdc_balance: u.usdc_balance.wrapping_add(released),
        positions: u.positions.insert(
            a,
            Position {
                szi: f.new_szi,
                cost_basis: cost_basis_after(u, a, f),
                leverage: with_margin(
                    p.leverage,
                    raw.wrapping_add(margin).wrapping_sub(released),
                ),
                ..p
            },
        ),
        ..u
    }
}

/// The user after a fill that closes the position.
pub open spec fn after_close(u: UserModel, a: u32, f: FillAmounts, isolated: bool) -> UserModel {
    let returned = if isolated && u.positions.contains_key(a) && u.positions[a].leverage is Isolated {
        carried(u.positions[a].leverage).wrapping_add(f.delta_u)
    } else {
        0
    };
    let w = without_position(u, a);
    UserModel { usdc_balance: u.usdc_balance.wrapping_add(returned), ..w }
}

/// What a fill leaves behind: the user, what dex 0 owes, and whether a position was opened with a
/// leverage that nobody set.
pub struct FillOutcome {
    pub user: UserModel,
    pub deficit: i64,
    pub guessed_leverage: bool,
}

/// What a fill does to its user.
pub open spec fn fill_outcome(
    before: UserModel,
    a: u32,
    f: FillAmounts,
    mode: MarginMode,
    table: u32,
    max_lev: u32,
) -> FillOutcome {
    let u = after_outside_close(before, a, f.start_szi);
    let isolated = trades_isolated(u, a, mode);
    if isolated && turns_over(f) {
        FillOutcome {
            user: after_turn_over(u, a, f, table),
            deficit: 0,
            guessed_leverage: false,
        }
    } else {
        let (paid, deficit) = if !isolated {
            (UserModel { usdc_balance: u.usdc_balance.wrapping_add(f.delta_u), ..u }, 0)
        } else if adds(f) && deposit_multiple(u, a) > 0 {
            after_deposit(u, margin_for(f.notional, deposit_multiple(u, a)))
        } else {
            (u, 0)
        };
        if f.new_szi == 0 {
            FillOutcome { user: after_close(paid, a, f, isolated), deficit, guessed_leverage: false }
        } else {
            FillOutcome {
                user: after_resize(paid, a, f, mode, table, max_lev),
                deficit,
                guessed_leverage: !paid.positions.contains_key(a)
                    && !paid.leverage_settings.contains_key(a),
            }
        }
    }
}

// ── The same, executed ───────────────────────────────────────────────────

fn remember(l: Leverage) -> (r: Leverage)
    ensures
        r == remembered(l),
{
    match l {
        Leverage::Isolated { leverage, raw_usd: _ } => Leverage::Isolated { leverage, raw_usd: 0 },
        Leverage::Cross(v) => Leverage::Cross(v),
    }
}

fn leverage_multiple(l: Leverage) -> (r: u32)
    ensures
        r == multiple(l),
{
    match l {
        Leverage::Isolated { leverage, raw_usd: _ } => leverage,
        Leverage::Cross(v) => v,
    }
}

fn margin_needed(notional: i64, lev: u32) -> (r: i64)
    ensures
        r == margin_for(notional, lev),
{
    if lev > 0 {
        notional / (lev as i64)
    } else {
        0
    }
}

fn is_isolated(l: Leverage) -> (r: bool)
    ensures
        r == (l is Isolated),
{
    match l {
        Leverage::Isolated { leverage: _, raw_usd: _ } => true,
        Leverage::Cross(_) => false,
    }
}

fn margin_of(l: Leverage) -> (r: i64)
    ensures
        r == carried(l),
{
    match l {
        Leverage::Isolated { leverage: _, raw_usd } => raw_usd,
        Leverage::Cross(_) => 0,
    }
}

fn set_margin(l: Leverage, raw: i64) -> (r: Leverage)
    ensures
        r == with_margin(l, raw),
{
    match l {
        Leverage::Isolated { leverage, raw_usd: _ } => Leverage::Isolated { leverage, raw_usd: raw },
        Leverage::Cross(v) => Leverage::Cross(v),
    }
}

impl FillAmounts {
    fn is_adding(&self) -> (r: bool)
        ensures
            r == adds(*self),
    {
        (self.start_szi >= 0 && self.is_buy) || (self.start_szi <= 0 && !self.is_buy)
    }

    fn is_flip(&self) -> (r: bool)
        ensures
            r == turns_over(*self),
    {
        (self.start_szi > 0 && self.new_szi < 0) || (self.start_szi < 0 && self.new_szi > 0)
    }
}

impl UserState {
    fn position(&self, a: u32) -> (r: Option<Position>)
        ensures
            match r {
                Some(p) => self@.positions.contains_key(a) && p == self@.positions[a],
                None => !self@.positions.contains_key(a),
            },
    {
        match self.positions.get(a) {
            Some(p) => Some(*p),
            None => None,
        }
    }

    fn setting(&self, a: u32) -> (r: Option<Leverage>)
        ensures
            match r {
                Some(l) => self@.leverage_settings.contains_key(a) && l
                    == self@.leverage_settings[a],
                None => !self@.leverage_settings.contains_key(a),
            },
    {
        match self.leverage_settings.get(a) {
            Some(l) => Some(*l),
            None => None,
        }
    }

    /// Drops the position and remembers its leverage.
    fn drop_position(&mut self, a: u32)
        ensures
            final(self)@ == without_position(old(self)@, a),
    {
        if let Some(p) = self.position(a) {
            self.leverage_settings.insert(a, remember(p.leverage));
            let _ = self.positions.remove(a);
        }
    }

    fn close_from_outside(&mut self, a: u32, start_szi: i64)
        ensures
            final(self)@ == after_outside_close(old(self)@, a, start_szi),
    {
        if let Some(p) = self.position(a) {
            if start_szi == 0 && p.szi != 0 {
                self.drop_position(a);
                self.usdc_balance = self.usdc_balance.wrapping_add(margin_of(p.leverage));
            }
        }
    }

    fn is_trading_isolated(&self, a: u32, mode: MarginMode) -> (r: bool)
        ensures
            r == trades_isolated(self@, a, mode),
    {
        match self.position(a) {
            Some(p) => is_isolated(p.leverage),
            None => match self.setting(a) {
                Some(l) => is_isolated(l),
                None => match mode {
                    MarginMode::Normal => false,
                    _ => true,
                },
            },
        }
    }

    fn multiple_for_deposit(&self, a: u32) -> (r: u32)
        ensures
            r == deposit_multiple(self@, a),
    {
        match self.position(a) {
            Some(p) => leverage_multiple(p.leverage),
            None => match self.setting(a) {
                Some(l) => leverage_multiple(l),
                None => 20,
            },
        }
    }

    fn turn_over(&mut self, a: u32, f: &FillAmounts, table: u32)
        ensures
            final(self)@ == after_turn_over(old(self)@, a, *f, table),
    {
        let returned: i64 = match self.position(a) {
            Some(p) => if is_isolated(p.leverage) {
                margin_of(p.leverage).wrapping_add(f.close_delta)
            } else {
                0
            },
            None => 0,
        };
        self.drop_position(a);
        let lev: u32 = self.multiple_for_deposit(a);
        let margin: i64 = margin_needed(f.open_notional, lev);
        let setting = match self.setting(a) {
            Some(l) => l,
            None => Leverage::Isolated { leverage: lev, raw_usd: 0 },
        };
        self.usdc_balance = self.usdc_balance.wrapping_add(returned).wrapping_sub(margin);
        self.positions.insert(
            a,
            Position {
                szi: f.new_szi,
                cost_basis: f.open_cost_basis,
                leverage: set_margin(setting, f.open_delta.wrapping_add(margin)),
                margin_table_id: table,
                outstanding_funding: 0,
            },
        );
    }

    /// Pays a margin deposit; gives back what dex 0 still has to pay.
    fn deposit_margin(&mut self, margin: i64) -> (deficit: i64)
        ensures
            (final(self)@, deficit) == after_deposit(old(self)@, margin),
    {
        if self.account_mode.is_shared_usdc() {
            let available: i64 = if self.usdc_balance > 0 {
                self.usdc_balance
            } else {
                0
            };
            let paid: i64 = if margin <= available {
                margin
            } else {
                available
            };
            self.usdc_balance = self.usdc_balance.wrapping_sub(paid);
            0
        } else if self.usdc_balance >= margin {
            self.usdc_balance = self.usdc_balance.wrapping_sub(margin);
            0
        } else {
            let local: i64 = if self.usdc_balance > 0 {
                self.usdc_balance
            } else {
                0
            };
            self.usdc_balance = self.usdc_balance.wrapping_sub(local);
            margin.wrapping_sub(local)
        }
    }

    fn close(&mut self, a: u32, f: &FillAmounts, isolated: bool)
        ensures
            final(self)@ == after_close(old(self)@, a, *f, isolated),
    {
        let returned: i64 = match self.position(a) {
            Some(p) => if isolated && is_isolated(p.leverage) {
                margin_of(p.leverage).wrapping_add(f.delta_u)
            } else {
                0
            },
            None => 0,
        };
        self.drop_position(a);
        self.usdc_balance = self.usdc_balance.wrapping_add(returned);
    }

    fn resize(&mut self, a: u32, f: &FillAmounts, mode: MarginMode, table: u32, max_lev: u32)
        ensures
            final(self)@ == after_resize(old(self)@, a, *f, mode, table, max_lev),
    {
        let held = self.position(a);
        let p = match held {
            Some(p) => p,
            None => Position {
                szi: 0,
                cost_basis: 0,
                leverage: match self.setting(a) {
                    Some(l) => l,
                    None => match mode {
                        MarginMode::Normal => Leverage::Cross(max_lev),
                        _ => Leverage::Isolated { leverage: max_lev, raw_usd: 0 },
                    },
                },
                margin_table_id: table,
                outstanding_funding: 0,
            },
        };
        let adding = f.is_adding();
        let cost_basis: i64 = if held.is_none() || f.start_szi == 0 {
            f.notional
        } else if adding {
            p.cost_basis.wrapping_add(f.notional)
        } else if f.had_size {
            f.reduced_cost_basis
        } else {
            p.cost_basis
        };
        let raw: i64 = margin_of(p.leverage).wrapping_add(f.delta_u);
        let margin: i64 = if adding {
            margin_needed(f.notional, leverage_multiple(p.leverage))
        } else {
            0
        };
        let share: i64 = f.released_raw_usd.wrapping_add(f.delta_u);
        let released: i64 = if is_isolated(p.leverage) && !adding && f.had_size && share > 0 {
            share
        } else {
            0
        };
        self.usdc_balance = self.usdc_balance.wrapping_add(released);
        self.positions.insert(
            a,
            Position {
                szi: f.new_szi,
                cost_basis,
                leverage: set_margin(p.leverage, raw.wrapping_add(margin).wrapping_sub(released)),
                margin_table_id: p.margin_table_id,
                outstanding_funding: p.outstanding_funding,
            },
        );
    }

    /// Applies a fill. Gives back what dex 0 owes, and whether a position was opened with a leverage
    /// that nobody set.
    fn fill(&mut self, a: u32, f: &FillAmounts, mode: MarginMode, table: u32, max_lev: u32) -> (r: (
        i64,
        bool,
    ))
        ensures
            ({
                let o = fill_outcome(old(self)@, a, *f, mode, table, max_lev);
                final(self)@ == o.user && r.0 == o.deficit && r.1 == o.guessed_leverage
            }),
    {
        self.close_from_outside(a, f.start_szi);
        let isolated = self.is_trading_isolated(a, mode);
        if isolated && f.is_flip() {
            self.turn_over(a, f, table);
            return (0, false);
        }
        let mut deficit: i64 = 0;
        if !isolated {
            self.usdc_balance = self.usdc_balance.wrapping_add(f.delta_u);
        } else if f.is_adding() {
            let lev: u32 = self.multiple_for_deposit(a);
            if lev > 0 {
                deficit = self.deposit_margin(margin_needed(f.notional, lev));
            }
        }
        if f.new_szi == 0 {
            self.close(a, f, isolated);
            (deficit, false)
        } else {
            let guessed = self.position(a).is_none() && self.setting(a).is_none();
            self.resize(a, f, mode, table, max_lev);
            (deficit, guessed)
        }
    }
}

// ── A fill in the whole state ────────────────────────────────────────────

/// The highest default leverage of an asset: 20, or less where the asset's margin table allows
/// less. A dex of its own names the limit itself in place of a table; so does an unknown table.
pub open spec fn default_max_leverage(d: DexModel, table: u32) -> u32 {
    let limit = if d.pdi == 0 && d.margin_tables.contains_key(table)
        && d.margin_tables[table].len() > 0 {
        d.margin_tables[table][0].max_leverage
    } else {
        table
    };
    if limit < 20 {
        limit
    } else {
        20
    }
}

/// The user that a fill meets on a dex.
pub open spec fn user_met(d: DexModel, u: Seq<char>) -> UserModel {
    if d.users.contains_key(u) {
        d.users[u]
    } else if d.partials.contains_key(u) {
        d.partials[u].promoted()
    } else {
        PartialModel::fresh().promoted()
    }
}

/// What the fill does to its user on the dex where the asset at position `ai` trades.
pub open spec fn outcome_on_dex(d: DexModel, u: Seq<char>, ai: usize, f: FillAmounts) -> FillOutcome {
    let meta = d.universe[ai as int];
    fill_outcome(
        user_met(d, u),
        ai as u32,
        f,
        meta.margin_mode,
        meta.margin_table_id,
        default_max_leverage(d, meta.margin_table_id),
    )
}

/// The dex after the fill: the user is a full user, and the asset's oracle price is the fill's.
pub open spec fn dex_after_fill(d: DexModel, u: Seq<char>, ai: usize, f: FillAmounts) -> DexModel {
    DexModel {
        users: d.users.insert(u, outcome_on_dex(d, u, ai, f).user),
        partials: d.partials.remove(u),
        oracle_prices: if ai < d.oracle_prices.len() {
            d.oracle_prices.update(ai as int, f.oracle_px)
        } else {
            d.oracle_prices
        },
        ..d
    }
}

/// The dex after a charge to the balance of a user that it knows.
pub open spec fn charged(d: DexModel, u: Seq<char>, amount: i64) -> DexModel {
    if d.users.contains_key(u) {
        DexModel {
            users: d.users.insert(
                u,
                UserModel {
                    usdc_balance: d.users[u].usdc_balance.wrapping_sub(amount),
                    ..d.users[u]
                },
            ),
            ..d
        }
    } else if d.partials.contains_key(u) {
        DexModel {
            partials: d.partials.insert(
                u,
                PartialModel {
                    usdc_balance: d.partials[u].usdc_balance.wrapping_sub(amount),
                    ..d.partials[u]
                },
            ),
            ..d
        }
    } else {
        d
    }
}

/// The counters after one more action of the user.
pub open spec fn counted(m: Map<Seq<char>, u32>, u: Seq<char>) -> Map<Seq<char>, u32> {
    m.insert(
        u,
        if m.contains_key(u) {
            m[u].wrapping_add(1)
        } else {
            1
        },
    )
}

/// The state after a fill. A fill in an unknown coin, or one without size or price (no amounts),
/// changes nothing.
pub open spec fn state_after_fill(
    s: StateModel,
    user: Seq<char>,
    coin: Seq<char>,
    amounts: Option<FillAmounts>,
) -> StateModel {
    match amounts {
        Some(f) if s.coins.contains_key(coin) => {
            let u = crate::text::lowercase(user);
            let (di, ai) = s.coins[coin];
            let o = outcome_on_dex(s.dexes[di as int], u, ai, f);
            let dexes = s.dexes.update(
                di as int,
                dex_after_fill(s.dexes[di as int], u, ai, f),
            );
            StateModel {
                dexes: if o.deficit > 0 {
                    dexes.update(0, charged(dexes[0], u, o.deficit))
                } else {
                    dexes
                },
                action_counts: counted(s.action_counts, u),
                leverage_fixes: if o.guessed_leverage {
                    s.leverage_fixes.push((u, di, ai as u32))
                } else {
                    s.leverage_fixes
                },
                ..s
            }
        },
        _ => s,
    }
}

impl DexState {
    fn max_default_leverage(&self, table: u32) -> (r: u32)
        ensures
            r == default_max_leverage(self@, table),
    {
        let mut limit: u32 = table;
        if self.pdi == 0 {
            if let Some(tiers) = self.margin_tables.get(table) {
                if tiers.len() > 0 {
                    limit = tiers[0].max_leverage;
                }
            }
        }
        if limit < 20 {
            limit
        } else {
            20
        }
    }

    /// Applies a fill on this dex. Gives back what dex 0 owes, and whether a position was opened with
    /// a leverage that nobody set.
    fn fill(&mut self, u: &String, ai: usize, f: &FillAmounts) -> (r: (i64, bool))
        requires
            ai < old(self)@.universe.len(),
        ensures
            final(self)@ == dex_after_fill(old(self)@, u@, ai, *f),
            r.0 == outcome_on_dex(old(self)@, u@, ai, *f).deficit,
            r.1 == outcome_on_dex(old(self)@, u@, ai, *f).guessed_leverage,
    {
        let ghost before = self@;
        let table: u32 = self.universe[ai].margin_table_id;
        let mode = self.universe[ai].margin_mode;
        assert(before.universe[ai as int] == self.universe@[ai as int]@);
        let max_lev: u32 = self.max_default_leverage(table);
        let partial = self.users_without_positions.remove(u.as_str());
        if !self.users.contains_key(u.as_str()) {
            let met = match partial {
                Some(p) => p.into_user_state(),
                None => UserStatePartial::fresh().into_user_state(),
            };
            self.users.insert(u.clone(), met);
        }
        #[verifier::truncate]
        let a: u32 = ai as u32;
        let r = match self.users.get_mut(u.as_str()) {
            Some(us) => us.fill(a, f, mode, table, max_lev),
            None => (0, false),
        };
        if ai < self.oracle_prices.len() {
            self.oracle_prices.set(ai, f.oracle_px);
        }
        assert(self@ =~= dex_after_fill(before, u@, ai, *f));
        r
    }

    fn charge(&mut self, u: &String, amount: i64)
        ensures
            final(self)@ == charged(old(self)@, u@, amount),
    {
        let ghost before = self@;
        if let Some(us) = self.users.get_mut(u.as_str()) {
            us.usdc_balance = us.usdc_balance.wrapping_sub(amount);
        } else if let Some(p) = self.users_without_positions.get_mut(u.as_str()) {
            p.usdc_balance = p.usdc_balance.wrapping_sub(amount);
        }
        assert(self@ =~= charged(before, u@, amount));
    }
}

impl LiquidationState {
    /// Counts one more action of the user.
    pub(crate) fn count_action(&mut self, u: &String)
        ensures
            final(self)@ == (StateModel {
                action_counts: counted(old(self)@.action_counts, u@),
                ..old(self)@
            }),
    {
        let n: u32 = match self.user_action_counts.get(u.as_str()) {
            Some(n) => n.wrapping_add(1),
            None => 1,
        };
        self.user_action_counts.insert(u.clone(), n);
    }

    /// The number of size decimals of a coin, where the coin is known.
    pub fn fill_decimals(&self, coin: &str) -> (r: Option<u32>)
        requires
            self@.coins_valid(),
        ensures
            r == (if self@.coins.contains_key(coin@) {
                let (di, ai) = self@.coins[coin@];
                Some(self@.dexes[di as int].universe[ai as int].sz_decimals)
            } else {
                None
            }),
    {
        match self.coin_to_dex_asset.get(coin) {
            None => None,
            Some(p) => {
                let di: usize = p.0;
                let ai: usize = p.1;
                assert(self@.coins[coin@] == (di, ai));
                assert(self@.dexes[di as int] == self.dex_states@[di as int]@);
                assert(self@.dexes[di as int].universe[ai as int]
                    == self.dex_states@[di as int].universe@[ai as int]@);
                Some(self.dex_states[di].universe[ai].sz_decimals)
            },
        }
    }

    /// The cost basis and the isolated margin of the position that a fill in the coin will work on:
    /// what a reducing fill takes its shares of.
    pub fn fill_basis(&self, user: &str, coin: &str, start_szi: i64) -> (r: (i64, i64))
        requires
            self@.coins_valid(),
        ensures
            r == (if self@.coins.contains_key(coin@) {
                let (di, ai) = self@.coins[coin@];
                let d = self@.dexes[di as int];
                let u = after_outside_close(user_met(d, crate::text::lowercase(user@)), ai as u32, start_szi);
                let p = worked_position(u, ai as u32, MarginMode::Normal, 0, 0);
                (p.cost_basis, carried(p.leverage))
            } else {
                (0, 0)
            }),
    {
        let (di, ai): (usize, usize) = match self.coin_to_dex_asset.get(coin) {
            None => {
                return (0, 0);
            },
            Some(p) => (p.0, p.1),
        };
        let u = to_lowercase(user);
        let dex = &self.dex_states[di];
        assert(self@.dexes[di as int] == self.dex_states@[di as int]@);
        #[verifier::truncate]
        let a: u32 = ai as u32;
        match dex.users.get(u.as_str()) {
            Some(us) => match us.position(a) {
                Some(p) => if start_szi == 0 && p.szi != 0 {
                    (0, margin_of(remember(p.leverage)))
                } else {
                    (p.cost_basis, margin_of(p.leverage))
                },
                None => match us.setting(a) {
                    Some(l) => (0, margin_of(l)),
                    None => (0, 0),
                },
            },
            None => match dex.users_without_positions.get(u.as_str()) {
                Some(p) => match p.leverage_settings.get(a) {
                    Some(l) => (0, margin_of(*l)),
                    None => (0, 0),
                },
                None => (0, 0),
            },
        }
    }

    /// Apply a fill to update a user's position and balance.
    /// Returns the affected coin name if the coin is known. `amounts` is absent for a fill without
    /// size or price.
    pub fn apply_fill(&mut self, user: &str, coin: &str, amounts: Option<FillAmounts>) -> (r: Option<
        String,
    >)
        requires
            old(self)@.coins_valid(),
        ensures
            final(self)@ == state_after_fill(old(self)@, user@, coin@, amounts),
            final(self)@.coins_valid(),
            r is Some <==> old(self)@.coins.contains_key(coin@),
            r matches Some(c) ==> c@ == coin@,
    {
        let ghost before = self@;
        let (di, ai): (usize, usize) = match self.coin_to_dex_asset.get(coin) {
            None => {
                return None;
            },
            Some(p) => (p.0, p.1),
        };
        let f = match amounts {
            None => {
                return Some(coin.to_owned());
            },
            Some(f) => f,
        };
        let u = to_lowercase(user);
        self.count_action(&u);
        assert(before.dexes[di as int] == self.dex_states@[di as int]@);
        let (deficit, guessed): (i64, bool) = self.dex_states[di].fill(&u, ai, &f);
        let ghost mid = before.dexes.update(
            di as int,
            dex_after_fill(before.dexes[di as int], u@, ai, f),
        );
        assert(self@.dexes =~= mid);
        if guessed {
            #[verifier::truncate]
            let a: u32 = ai as u32;
            self.positions_needing_leverage_fix.push((u.clone(), di, a));
            assert(self@.leverage_fixes =~= before.leverage_fixes.push((u@, di, ai as u32)));
        }
        if deficit > 0 {
            assert(mid[0] == self.dex_states@[0]@);
            self.dex_states[0].charge(&u, deficit);
            assert(self@.dexes =~= mid.update(0, charged(mid[0], u@, deficit)));
        }
        assert(self@ =~= state_after_fill(before, user@, coin@, amounts));
        Some(coin.to_owned())
    }
}

} // verus!

//! Balance, leverage and mode changes of the clearing-house state.
use crate::assetmap::AssetMap;
use crate::clearing_house::{
    AccountMode, BorrowLendState, DexModel, DexState, Fraction, Leverage, LiquidationState, PartialModel,
    Position, StateModel, UserModel, UserState, UserStatePartial,
};
use crate::strmap::StrMap;
use crate::text::{str_eq, to_lowercase};
use vstd::prelude::*;

verus! {

// ── Finding a dex ────────────────────────────────────────────────────────

/// The position of the first dex, from `i` on, of which `p` holds; the number of dexes where there
/// is none.
pub open spec fn first_dex(dexes: Seq<DexModel>, p: spec_fn(DexModel) -> bool, i: int) -> int
    decreases dexes.len() - i,
{
    if i >= dexes.len() || p(dexes[i]) {
        i
    } else {
        first_dex(dexes, p, i + 1)
    }
}

/// A dex of which `p` holds, and no earlier one, is the first.
pub proof fn lemma_first_dex(dexes: Seq<DexModel>, p: spec_fn(DexModel) -> bool, i: int, k: int)
    requires
        0 <= i <= k <= dexes.len(),
        forall|j: int| i <= j < k ==> !p(#[trigger] dexes[j]),
        k == dexes.len() || p(dexes[k]),
    ensures
        first_dex(dexes, p, i) == k,
    decreases k - i,
{
    if i < k {
        lemma_first_dex(dexes, p, i + 1, k);
    }
}

/// The pdi and local index that a global asset id stands for. The format is
/// (pdi + 10) * 10000 + local index, or just the local index for dex 0.
pub open spec fn asset_parts(asset: u32) -> (u32, u32) {
    if asset >= 10_000 {
        ((asset / 10_000).wrapping_sub(10), asset % 10_000)
    } else {
        (0, asset)
    }
}

/// Decompose a global asset ID into (dex_pdi_prefix, local_asset_idx).
/// Global format: (pdi + 10) * 10000 + local_idx for HIP-3, or just local_idx for dex 0.
pub fn decompose_asset_id(asset: u32) -> (r: (Option<u32>, u32))
    ensures
        r.0 is Some <==> asset >= 10_000,
        r.0 is Some ==> r.0->0 == asset_parts(asset).0,
        r.1 == asset_parts(asset).1,
{
    if asset >= 10_000 {
        let prefix: u32 = asset / 10_000;
        let pdi: u32 = prefix.wrapping_sub(10);
        let local: u32 = asset % 10_000;
        (Some(pdi), local)
    } else {
        (None, asset)
    }
}

// ── Leverage ─────────────────────────────────────────────────────────────

/// The setting that a leverage update stores.
pub open spec fn leverage_setting(is_cross: bool, leverage: u32) -> Leverage {
    if is_cross {
        Leverage::Cross(leverage)
    } else {
        Leverage::Isolated { leverage, raw_usd: 0 }
    }
}

/// The position under a new leverage: an isolated position that stays isolated keeps its margin.
pub open spec fn relevered(p: Position, is_cross: bool, leverage: u32) -> Position {
    Position {
        leverage: match p.leverage {
            Leverage::Isolated { leverage: _, raw_usd } if !is_cross => Leverage::Isolated {
                leverage,
                raw_usd,
            },
            _ => leverage_setting(is_cross, leverage),
        },
        ..p
    }
}

/// The dex after a leverage update of one of its users, known or not.
pub open spec fn dex_relevered(
    d: DexModel,
    u: Seq<char>,
    a: u32,
    is_cross: bool,
    leverage: u32,
) -> DexModel {
    let setting = leverage_setting(is_cross, leverage);
    if d.users.contains_key(u) {
        let us = d.users[u];
        DexModel {
            users: d.users.insert(
                u,
                UserModel {
                    leverage_settings: us.leverage_settings.insert(a, setting),
                    positions: if us.positions.contains_key(a) {
                        us.positions.insert(a, relevered(us.positions[a], is_cross, leverage))
                    } else {
                        us.positions
                    },
                    ..us
                },
            ),
            ..d
        }
    } else {
        let p = if d.partials.contains_key(u) {
            d.partials[u]
        } else {
            PartialModel::fresh()
        };
        DexModel {
            partials: d.partials.insert(
                u,
                PartialModel { leverage_settings: p.leverage_settings.insert(a, setting), ..p },
            ),
            ..d
        }
    }
}

/// The state with one dex, where there is one at the position, replaced.
pub open spec fn with_dex(s: StateModel, i: int, d: DexModel) -> StateModel {
    if 0 <= i < s.dexes.len() {
        StateModel { dexes: s.dexes.update(i, d), ..s }
    } else {
        s
    }
}

/// The state after a leverage update: the first dex with the asset's pdi changes.
pub open spec fn state_relevered(
    s: StateModel,
    user: Seq<char>,
    asset: u32,
    is_cross: bool,
    leverage: u32,
) -> StateModel {
    let (pdi, a) = asset_parts(asset);
    let i = first_dex(s.dexes, |d: DexModel| d.pdi == pdi, 0);
    with_dex(
        s,
        i,
        dex_relevered(s.dexes[i], crate::text::lowercase(user), a, is_cross, leverage),
    )
}

impl DexState {
    fn relever(&mut self, u: &String, a: u32, is_cross: bool, leverage: u32)
        ensures
            final(self)@ == dex_relevered(old(self)@, u@, a, is_cross, leverage),
    {
        let ghost before = self@;
        let setting = if is_cross {
            Leverage::Cross(leverage)
        } else {
            Leverage::Isolated { leverage, raw_usd: 0 }
        };
        if let Some(us) = self.users.get_mut(u.as_str()) {
            us.leverage_settings.insert(a, setting);
            if let Some(pos) = us.positions.get_mut(a) {
                let lev = if is_cross {
                    setting
                } else {
                    match pos.leverage {
                        Leverage::Isolated { leverage: _, raw_usd } => Leverage::Isolated {
                            leverage,
                            raw_usd,
                        },
                        Leverage::Cross(_) => setting,
                    }
                };
                pos.leverage = lev;
            }
        } else if let Some(p) = self.users_without_positions.get_mut(u.as_str()) {
            p.leverage_settings.insert(a, setting);
        } else {
            // Not seen on this dex yet: the setting has to survive until the first fill.
            let mut p = UserStatePartial::fresh();
            p.leverage_settings.insert(a, setting);
            self.users_without_positions.insert(u.clone(), p);
        }
        assert(self@ =~= dex_relevered(before, u@, a, is_cross, leverage));
    }
}

// ── Balances ─────────────────────────────────────────────────────────────

/// The user with money added to the balance.
pub open spec fn credited_user(u: UserModel, delta: i64) -> UserModel {
    UserModel { usdc_balance: u.usdc_balance.wrapping_add(delta), ..u }
}

/// The user without positions with money added to the balance.
pub open spec fn credited_partial(p: PartialModel, delta: i64) -> PartialModel {
    PartialModel { usdc_balance: p.usdc_balance.wrapping_add(delta), ..p }
}

/// The dex with money added to the balance of a user; a user unknown to the dex becomes known
/// without positions.
pub open spec fn credited(d: DexModel, u: Seq<char>, delta: i64) -> DexModel {
    if d.users.contains_key(u) {
        DexModel { users: d.users.insert(u, credited_user(d.users[u], delta)), ..d }
    } else {
        let p = if d.partials.contains_key(u) {
            d.partials[u]
        } else {
            PartialModel::fresh()
        };
        DexModel { partials: d.partials.insert(u, credited_partial(p, delta)), ..d }
    }
}

/// Where a transfer to a user lands: the first dex on which they are a full user, else the first
/// that knows them without positions, else dex 0.
pub open spec fn transfer_dex(dexes: Seq<DexModel>, u: Seq<char>) -> int {
    let i = first_dex(dexes, |d: DexModel| d.users.contains_key(u), 0);
    let j = first_dex(dexes, |d: DexModel| d.partials.contains_key(u), 0);
    if i < dexes.len() {
        i
    } else if j < dexes.len() {
        j
    } else {
        0
    }
}

/// The state after a transfer to a user.
pub open spec fn state_credited(s: StateModel, user: Seq<char>, delta: i64) -> StateModel {
    let u = crate::text::lowercase(user);
    let i = transfer_dex(s.dexes, u);
    with_dex(s, i, credited(s.dexes[i], u, delta))
}

/// The state after a transfer to a user on the first dex with the pdi.
pub open spec fn state_credited_on(
    s: StateModel,
    user: Seq<char>,
    delta: i64,
    pdi: u32,
) -> StateModel {
    let i = first_dex(s.dexes, |d: DexModel| d.pdi == pdi, 0);
    with_dex(s, i, credited(s.dexes[i], crate::text::lowercase(user), delta))
}

/// What the user holds of the token in the shared balance.
pub open spec fn shared_balance(s: StateModel, u: Seq<char>, token: u32) -> i64 {
    if s.unified.contains_key(u) && s.unified[u].contains_key(token) {
        s.unified[u][token]
    } else {
        0
    }
}

/// The state with an amount added to a shared balance.
pub open spec fn shared_credited(
    s: StateModel,
    u: Seq<char>,
    token: u32,
    delta: i64,
) -> StateModel {
    let tokens = if s.unified.contains_key(u) {
        s.unified[u]
    } else {
        Map::empty()
    };
    StateModel {
        unified: s.unified.insert(
            u,
            tokens.insert(token, shared_balance(s, u, token).wrapping_add(delta)),
        ),
        ..s
    }
}

/// Whether the dex knows the user under a mode that shares USDC.
pub open spec fn shares_on(d: DexModel, u: Seq<char>) -> bool {
    (d.users.contains_key(u) && d.users[u].account_mode.shared()) || (d.partials.contains_key(u)
        && d.partials[u].account_mode.shared())
}

/// Whether some dex with the collateral token knows the user under a mode that shares USDC.
pub open spec fn shares_token(dexes: Seq<DexModel>, u: Seq<char>, token: u32) -> bool {
    exists|i: int|
        0 <= i < dexes.len() && (#[trigger] dexes[i]).collateral_token == token && shares_on(
            dexes[i],
            u,
        )
}

/// The state after a spot transfer: only the shared balance of a user who shares the token.
pub open spec fn state_spot_credited(
    s: StateModel,
    user: Seq<char>,
    token: u32,
    delta: i64,
) -> StateModel {
    let u = crate::text::lowercase(user);
    if shares_token(s.dexes, u, token) {
        shared_credited(s, u, token, delta)
    } else {
        s
    }
}

/// The state after a transfer to a dex that reaches users who share USDC there in the shared balance
/// (with two more decimals), and others on the dex.
pub open spec fn state_credited_on_or_shared(
    s: StateModel,
    user: Seq<char>,
    delta: i64,
    pdi: u32,
) -> StateModel {
    let u = crate::text::lowercase(user);
    let i = first_dex(s.dexes, |d: DexModel| d.pdi == pdi, 0);
    if i < s.dexes.len() && shares_on(s.dexes[i], u) {
        shared_credited(s, u, s.dexes[i].collateral_token, delta.wrapping_mul(100))
    } else {
        state_credited_on(s, user, delta, pdi)
    }
}

impl DexState {
    fn credit(&mut self, u: &String, delta: i64)
        ensures
            final(self)@ == credited(old(self)@, u@, delta),
    {
        let ghost before = self@;
        if let Some(us) = self.users.get_mut(u.as_str()) {
            us.usdc_balance = us.usdc_balance.wrapping_add(delta);
        } else if let Some(p) = self.users_without_positions.get_mut(u.as_str()) {
            p.usdc_balance = p.usdc_balance.wrapping_add(delta);
        } else {
            let mut p = UserStatePartial::fresh();
            p.usdc_balance = p.usdc_balance.wrapping_add(delta);
            self.users_without_positions.insert(u.clone(), p);
        }
        assert(self@ =~= credited(before, u@, delta));
    }

    fn shares_usdc(&self, u: &str) -> (r: bool)
        ensures
            r == shares_on(self@, u@),
    {
        let full: bool = match self.users.get(u) {
            Some(us) => us.account_mode.is_shared_usdc(),
            None => false,
        };
        let partial: bool = match self.users_without_positions.get(u) {
            Some(p) => p.account_mode.is_shared_usdc(),
            None => false,
        };
        full || partial
    }
}

impl LiquidationState {
    /// The first dex with the pdi.
    fn dex_with_pdi(&self, pdi: u32) -> (r: Option<usize>)
        ensures
            ({
                let i = first_dex(self@.dexes, |d: DexModel| d.pdi == pdi, 0);
                match r {
                    Some(k) => k == i && i < self@.dexes.len(),
                    None => i >= self@.dexes.len(),
                }
            }),
    {
        let ghost p = |d: DexModel| d.pdi == pdi;
        let mut k: usize = 0;
        while k < self.dex_states.len()
            invariant
                k <= self.dex_states@.len(),
                p == (|d: DexModel| d.pdi == pdi),
                forall|j: int| 0 <= j < k ==> !p(#[trigger] self@.dexes[j]),
            decreases self.dex_states@.len() - k,
        {
            if self.dex_states[k].pdi == pdi {
                proof {
                    lemma_first_dex(self@.dexes, p, 0, k as int);
                }
                return Some(k);
            }
            k = k + 1;
        }
        proof {
            lemma_first_dex(self@.dexes, p, 0, k as int);
        }
        None
    }

    /// Where a transfer to the user lands; nowhere without dexes.
    fn transfer_target(&self, u: &str) -> (r: Option<usize>)
        ensures
            match r {
                Some(k) => k == transfer_dex(self@.dexes, u@) && k < self@.dexes.len(),
                None => self@.dexes.len() == 0,
            },
    {
        let ghost p = |d: DexModel| d.users.contains_key(u@);
        let ghost q = |d: DexModel| d.partials.contains_key(u@);
        let mut k: usize = 0;
        while k < self.dex_states.len()
            invariant
                k <= self.dex_states@.len(),
                p == (|d: DexModel| d.users.contains_key(u@)),
                forall|j: int| 0 <= j < k ==> !p(#[trigger] self@.dexes[j]),
            decreases self.dex_states@.len() - k,
        {
            if self.dex_states[k].users.contains_key(u) {
                proof {
                    lemma_first_dex(self@.dexes, p, 0, k as int);
                }
                return Some(k);
            }
            k = k + 1;
        }
        proof {
            lemma_first_dex(self@.dexes, p, 0, k as int);
        }
        k = 0;
        while k < self.dex_states.len()
            invariant
                k <= self.dex_states@.len(),
                q == (|d: DexModel| d.partials.contains_key(u@)),
                forall|j: int| 0 <= j < k ==> !q(#[trigger] self@.dexes[j]),
                first_dex(self@.dexes, |d: DexModel| d.users.contains_key(u@), 0)
                    == self@.dexes.len(),
            decreases self.dex_states@.len() - k,
        {
            if self.dex_states[k].users_without_positions.contains_key(u) {
                proof {
                    lemma_first_dex(self@.dexes, q, 0, k as int);
                }
                return Some(k);
            }
            k = k + 1;
        }
        proof {
            lemma_first_dex(self@.dexes, q, 0, k as int);
        }
        if self.dex_states.len() > 0 {
            Some(0)
        } else {
            None
        }
    }

    /// Update leverage mode/value for a user's position.
    /// Also stores the setting so future positions inherit it.
    pub fn apply_leverage_update(&mut self, user: &str, asset: u32, is_cross: bool, leverage: u32)
        ensures
            final(self)@ == state_relevered(old(self)@, user@, asset, is_cross, leverage),
    {
        let ghost before = self@;
        let (target, a): (Option<u32>, u32) = decompose_asset_id(asset);
        let pdi: u32 = target.unwrap_or(0);
        let u = to_lowercase(user);
        if let Some(k) = self.dex_with_pdi(pdi) {
            assert(before.dexes[k as int] == self.dex_states@[k as int]@);
            self.dex_states[k].relever(&u, a, is_cross, leverage);
            assert(self@.dexes =~= before.dexes.update(
                k as int,
                dex_relevered(before.dexes[k as int], u@, a, is_cross, leverage),
            ));
        }
        assert(self@ =~= state_relevered(before, user@, asset, is_cross, leverage));
    }

    /// Generic USD transfer: adds/subtracts from user's cross balance.
    /// For users without positions, updates their partial snapshot state in place.
    pub fn apply_usd_transfer(&mut self, user: &str, delta_micro_usd: i64)
        ensures
            final(self)@ == state_credited(old(self)@, user@, delta_micro_usd),
    {
        let ghost before = self@;
        let u = to_lowercase(user);
        if let Some(k) = self.transfer_target(u.as_str()) {
            assert(before.dexes[k as int] == self.dex_states@[k as int]@);
            self.dex_states[k].credit(&u, delta_micro_usd);
            assert(self@.dexes =~= before.dexes.update(
                k as int,
                credited(before.dexes[k as int], u@, delta_micro_usd),
            ));
        }
        assert(self@ =~= state_credited(before, user@, delta_micro_usd));
    }

    /// USD transfer on the first dex with the pdi. A user that the dex does not know becomes known
    /// without positions.
    pub fn apply_usd_transfer_on_dex(&mut self, user: &str, delta_micro_usd: i64, pdi: u32)
        ensures
            final(self)@ == state_credited_on(old(self)@, user@, delta_micro_usd, pdi),
    {
        let ghost before = self@;
        let u = to_lowercase(user);
        if let Some(k) = self.dex_with_pdi(pdi) {
            assert(before.dexes[k as int] == self.dex_states@[k as int]@);
            self.dex_states[k].credit(&u, delta_micro_usd);
            assert(self@.dexes =~= before.dexes.update(
                k as int,
                credited(before.dexes[k as int], u@, delta_micro_usd),
            ));
        }
        assert(self@ =~= state_credited_on(before, user@, delta_micro_usd, pdi));
    }

    /// USD transfer to a dex that lands in the shared balance for users who share USDC there.
    pub fn apply_usd_transfer_on_dex_unified_scl(
        &mut self,
        user: &str,
        delta_micro_usd: i64,
        pdi: u32,
    )
        ensures
            final(self)@ == state_credited_on_or_shared(old(self)@, user@, delta_micro_usd, pdi),
    {
        let u = to_lowercase(user);
        if let Some(k) = self.dex_with_pdi(pdi) {
            assert(self@.dexes[k as int] == self.dex_states@[k as int]@);
            if self.dex_states[k].shares_usdc(u.as_str()) {
                let token: u32 = self.dex_states[k].collateral_token;
                self.add_shared(&u, token, delta_micro_usd.wrapping_mul(100));
                return;
            }
        }
        self.apply_usd_transfer_on_dex(user, delta_micro_usd, pdi);
    }

    fn shared(&self, u: &str, token: u32) -> (r: i64)
        ensures
            r == shared_balance(self@, u@, token),
    {
        match self.unified_balances.get(u) {
            Some(tokens) => match tokens.get(token) {
                Some(b) => *b,
                None => 0,
            },
            None => 0,
        }
    }

    fn add_shared(&mut self, u: &String, token: u32, delta: i64)
        ensures
            final(self)@ == shared_credited(old(self)@, u@, token, delta),
    {
        let ghost before = self@;
        let b: i64 = self.shared(u.as_str(), token).wrapping_add(delta);
        if let Some(tokens) = self.unified_balances.get_mut(u.as_str()) {
            tokens.insert(token, b);
        } else {
            let mut tokens = AssetMap::new();
            tokens.insert(token, b);
            self.unified_balances.insert(u.clone(), tokens);
        }
        assert(self@ =~= shared_credited(before, u@, token, delta));
    }

    /// Mutate the unified balance for a user. `delta_micro_usd` is in 6-decimal micro-USD.
    /// Converts to 8-decimal and updates the shared balance.
    /// Returns the new balance (8 decimals).
    pub fn unified_balance_add(
        &mut self,
        user: &str,
        collateral_token: u32,
        delta_micro_usd: i64,
    ) -> (r: i64)
        ensures
            final(self)@ == shared_credited(
                old(self)@,
                crate::text::lowercase(user@),
                collateral_token,
                delta_micro_usd.wrapping_mul(100),
            ),
            r == shared_balance(final(self)@, crate::text::lowercase(user@), collateral_token),
    {
        let u = to_lowercase(user);
        self.add_shared(&u, collateral_token, delta_micro_usd.wrapping_mul(100));
        self.shared(u.as_str(), collateral_token)
    }

    /// Get the unified balance for a user (8 decimals).
    pub fn unified_balance_get(&self, user: &str, collateral_token: u32) -> (r: i64)
        ensures
            r == shared_balance(self@, crate::text::lowercase(user@), collateral_token),
    {
        let u = to_lowercase(user);
        self.shared(u.as_str(), collateral_token)
    }

    /// Adjust spot collateral for a unified user.
    /// `delta` is in 8-decimal (weiDecimals) units — goes directly to unified_balances.
    pub fn apply_spot_transfer(&mut self, user: &str, token_id: u32, delta: i64)
        ensures
            final(self)@ == state_spot_credited(old(self)@, user@, token_id, delta),
    {
        let u = to_lowercase(user);
        let mut k: usize = 0;
        while k < self.dex_states.len()
            invariant
                k <= self.dex_states@.len(),
                self@ == old(self)@,
                u@ == crate::text::lowercase(user@),
                forall|j: int|
                    0 <= j < k ==> !((#[trigger] self@.dexes[j]).collateral_token == token_id
                        && shares_on(self@.dexes[j], u@)),
            decreases self.dex_states@.len() - k,
        {
            assert(self@.dexes[k as int] == self.dex_states@[k as int]@);
            if self.dex_states[k].collateral_token == token_id && self.dex_states[k].shares_usdc(
                u.as_str(),
            ) {
                self.add_shared(&u, token_id, delta);
                return;
            }
            k = k + 1;
        }
    }
}

// ── Isolated margin ──────────────────────────────────────────────────────

/// Whether the dex has the pdi and the user a position in the asset there.
pub open spec fn holds_on(d: DexModel, pdi: u32, u: Seq<char>, a: u32) -> bool {
    d.pdi == pdi && d.users.contains_key(u) && d.users[u].positions.contains_key(a)
}

/// The user with money moved from the balance to the margin of an isolated position.
pub open spec fn margin_moved(us: UserModel, a: u32, ntli: i64) -> UserModel {
    let p = us.positions[a];
    match p.leverage {
        Leverage::Isolated { leverage, raw_usd } => UserModel {
            usdc_balance: us.usdc_balance.wrapping_sub(ntli),
            positions: us.positions.insert(
                a,
                Position {
                    leverage: Leverage::Isolated { leverage, raw_usd: raw_usd.wrapping_add(ntli) },
                    ..p
                },
            ),
            ..us
        },
        Leverage::Cross(_) => us,
    }
}

/// The state after an isolated-margin update.
pub open spec fn state_margin_moved(
    s: StateModel,
    user: Seq<char>,
    asset: u32,
    ntli: i64,
) -> StateModel {
    let u = crate::text::lowercase(user);
    let (pdi, a) = asset_parts(asset);
    let i = first_dex(s.dexes, |d: DexModel| holds_on(d, pdi, u, a), 0);
    let d = s.dexes[i];
    with_dex(
        s,
        i,
        DexModel { users: d.users.insert(u, margin_moved(d.users[u], a, ntli)), ..d },
    )
}

impl UserState {
    fn move_margin(&mut self, a: u32, ntli: i64)
        requires
            old(self)@.positions.contains_key(a),
        ensures
            final(self)@ == margin_moved(old(self)@, a, ntli),
    {
        let ghost before = self@;
        let isolated = if let Some(pos) = self.positions.get_mut(a) {
            match pos.leverage {
                Leverage::Isolated { leverage, raw_usd } => {
                    pos.leverage = Leverage::Isolated {
                        leverage,
                        raw_usd: raw_usd.wrapping_add(ntli),
                    };
                    true
                },
                Leverage::Cross(_) => false,
            }
        } else {
            false
        };
        if isolated {
            self.usdc_balance = self.usdc_balance.wrapping_sub(ntli);
        }
        assert(self@ =~= margin_moved(before, a, ntli));
    }
}

impl DexState {
    fn holds(&self, pdi: u32, u: &str, a: u32) -> (r: bool)
        ensures
            r == holds_on(self@, pdi, u@, a),
    {
        self.pdi == pdi && match self.users.get(u) {
            Some(us) => us.positions.contains_key(a),
            None => false,
        }
    }
}

impl LiquidationState {
    /// Adjust isolated margin for a position.
    pub fn apply_isolated_margin_update(
        &mut self,
        user: &str,
        asset: u32,
        _is_buy: bool,
        ntli: i64,
    )
        ensures
            final(self)@ == state_margin_moved(old(self)@, user@, asset, ntli),
    {
        let ghost before = self@;
        let (target, a): (Option<u32>, u32) = decompose_asset_id(asset);
        let pdi: u32 = target.unwrap_or(0);
        let u = to_lowercase(user);
        let ghost p = |d: DexModel| holds_on(d, pdi, u@, a);
        let mut k: usize = 0;
        while k < self.dex_states.len()
            invariant
                k <= self.dex_states@.len(),
                before == old(self)@,
                self@ == before,
                u@ == crate::text::lowercase(user@),
                (pdi, a) == asset_parts(asset),
                p == (|d: DexModel| holds_on(d, pdi, u@, a)),
                forall|j: int| 0 <= j < k ==> !p(#[trigger] self@.dexes[j]),
            decreases self.dex_states@.len() - k,
        {
            assert(before.dexes[k as int] == self.dex_states@[k as int]@);
            if self.dex_states[k].holds(pdi, u.as_str(), a) {
                proof {
                    lemma_first_dex(before.dexes, p, 0, k as int);
                }
                if let Some(us) = self.dex_states[k].users.get_mut(u.as_str()) {
                    us.move_margin(a, ntli);
                }
                assert(self@ =~= state_margin_moved(before, user@, asset, ntli));
                return;
            }
            k = k + 1;
        }
        proof {
            lemma_first_dex(before.dexes, p, 0, k as int);
        }
        assert(self@ =~= state_margin_moved(before, user@, asset, ntli));
    }
}

// ── Account mode ─────────────────────────────────────────────────────────

/// The mode that an abstraction letter stands for.
pub open spec fn mode_of(letter: Seq<char>) -> AccountMode {
    if letter == "u"@ {
        AccountMode::Unified
    } else if letter == "d"@ {
        AccountMode::DexAbstraction
    } else if letter == "p"@ {
        AccountMode::PortfolioMargin
    } else {
        AccountMode::Standard
    }
}

/// The spot collateral that is left after a mode change: nothing once USDC is no longer shared.
pub open spec fn collateral_after(was: AccountMode, now: AccountMode, spot: i64) -> i64 {
    if was.shared() && !now.shared() {
        0
    } else {
        spot
    }
}

/// The dex after a mode change of the user, full or without positions.
pub open spec fn dex_remoded(d: DexModel, u: Seq<char>, m: AccountMode) -> DexModel {
    DexModel {
        users: if d.users.contains_key(u) {
            let us = d.users[u];
            d.users.insert(
                u,
                UserModel {
                    account_mode: m,
                    spot_collateral: collateral_after(us.account_mode, m, us.spot_collateral),
                    ..us
                },
            )
        } else {
            d.users
        },
        partials: if d.partials.contains_key(u) {
            let p = d.partials[u];
            d.partials.insert(
                u,
                PartialModel {
                    account_mode: m,
                    spot_collateral: collateral_after(p.account_mode, m, p.spot_collateral),
                    ..p
                },
            )
        } else {
            d.partials
        },
        ..d
    }
}

/// The state after a mode change: on every dex that knows the user.
pub open spec fn state_remoded(s: StateModel, user: Seq<char>, letter: Seq<char>) -> StateModel {
    StateModel {
        dexes: s.dexes.map_values(
            |d: DexModel| dex_remoded(d, crate::text::lowercase(user), mode_of(letter)),
        ),
        ..s
    }
}

impl DexState {
    fn set_mode(&mut self, u: &str, m: AccountMode)
        ensures
            final(self)@ == dex_remoded(old(self)@, u@, m),
    {
        let ghost before = self@;
        if let Some(us) = self.users.get_mut(u) {
            let was = us.account_mode.is_shared_usdc();
            us.account_mode = m;
            if !m.is_shared_usdc() && was {
                us.spot_collateral = 0;
            }
        }
        if let Some(p) = self.users_without_positions.get_mut(u) {
            let was = p.account_mode.is_shared_usdc();
            p.account_mode = m;
            if !m.is_shared_usdc() && was {
                p.spot_collateral = 0;
            }
        }
        assert(self@ =~= dex_remoded(before, u@, m));
    }
}

impl LiquidationState {
    /// Set user's abstraction mode: "u" = unified, "d" = decoupled.
    /// Applies to both full and partial user states.
    pub fn apply_set_abstraction(&mut self, user: &str, mode: &str)
        ensures
            final(self)@ == state_remoded(old(self)@, user@, mode@),
    {
        let ghost before = self@;
        let u = to_lowercase(user);
        let m = if str_eq(mode, "u") {
            AccountMode::Unified
        } else if str_eq(mode, "d") {
            AccountMode::DexAbstraction
        } else if str_eq(mode, "p") {
            AccountMode::PortfolioMargin
        } else {
            AccountMode::Standard
        };
        let n: usize = self.dex_states.len();
        let mut k: usize = 0;
        while k < n
            invariant
                k <= n == self.dex_states@.len(),
                before == old(self)@,
                n == before.dexes.len(),
                u@ == crate::text::lowercase(user@),
                m == mode_of(mode@),
                self@ == (StateModel { dexes: self@.dexes, ..before }),
                forall|j: int|
                    0 <= j < n ==> #[trigger] self@.dexes[j] == (if j < k {
                        dex_remoded(before.dexes[j], u@, m)
                    } else {
                        before.dexes[j]
                    }),
            decreases n - k,
        {
            assert(self@.dexes[k as int] == self.dex_states@[k as int]@);
            let ghost seen = self@.dexes;
            self.dex_states[k].set_mode(u.as_str(), m);
            assert(self@.dexes =~= seen.update(
                k as int,
                dex_remoded(before.dexes[k as int], u@, m),
            ));
            k = k + 1;
        }
        assert(self@ =~= state_remoded(before, user@, mode@));
    }
}

// ── Portfolio margin ─────────────────────────────────────────────────────

/// The user's balance summed over the first `n` dexes.
pub open spec fn usdc_total(dexes: Seq<DexModel>, u: Seq<char>, n: int) -> i64
    decreases n,
{
    if n <= 0 {
        0
    } else {
        let rest = usdc_total(dexes, u, n - 1);
        if dexes[n - 1].users.contains_key(u) {
            rest.wrapping_add(dexes[n - 1].users[u].usdc_balance)
        } else {
            rest
        }
    }
}

/// The state with money added on the first dex where the user is a full user.
pub open spec fn first_credited(s: StateModel, u: Seq<char>, delta: i64) -> StateModel {
    let i = first_dex(s.dexes, |d: DexModel| d.users.contains_key(u), 0);
    let d = s.dexes[i];
    with_dex(s, i, DexModel { users: d.users.insert(u, credited_user(d.users[u], delta)), ..d })
}

/// What the user has borrowed and supplied of the token.
pub open spec fn borrow_state(s: StateModel, u: Seq<char>, token: u32) -> BorrowLendState {
    if s.borrows.contains_key(u) && s.borrows[u].contains_key(token) {
        s.borrows[u][token]
    } else {
        BorrowLendState::none()
    }
}

/// The state with another amount borrowed.
pub open spec fn with_borrowed(
    s: StateModel,
    u: Seq<char>,
    token: u32,
    borrowed: i64,
) -> StateModel {
    let tokens = if s.borrows.contains_key(u) {
        s.borrows[u]
    } else {
        Map::empty()
    };
    StateModel {
        borrows: s.borrows.insert(
            u,
            tokens.insert(token, BorrowLendState { borrowed, ..borrow_state(s, u, token) }),
        ),
        ..s
    }
}

/// The smaller of two amounts.
pub open spec fn smaller(a: i64, b: i64) -> i64 {
    if a <= b {
        a
    } else {
        b
    }
}

/// An amount in 8 decimals, in 6 decimals.
pub open spec fn to_micro(a: i64) -> i64 {
    crate::clearing_house::fill::div_trunc(a as int, 100) as i64
}

/// What is repaid when money comes in: as much of the debt as it covers.
pub open spec fn repaid(delta_micro: i64, borrowed: i64) -> i64 {
    smaller(delta_micro.wrapping_mul(100), borrowed)
}

/// What is borrowed when money goes out: what the balance lacks, up to what went out.
pub open spec fn newly_borrowed(total: i64, delta_micro: i64) -> i64 {
    smaller(
        0i64.wrapping_sub(total).wrapping_mul(100),
        0i64.wrapping_sub(delta_micro.wrapping_mul(100)),
    )
}

/// The state of a portfolio-margin user after money moved: incoming money repays debt first, and a
/// balance that is below zero after spending is borrowed back.
pub open spec fn state_after_borrow_repay(
    s: StateModel,
    user: Seq<char>,
    token: u32,
    delta_micro: i64,
) -> StateModel {
    let u = crate::text::lowercase(user);
    let owed = borrow_state(s, u, token).borrowed;
    let total = usdc_total(s.dexes, u, s.dexes.len() as int);
    if !s.portfolio_margin.contains_key(u) {
        s
    } else if delta_micro > 0 && owed > 0 {
        let r = repaid(delta_micro, owed);
        first_credited(
            with_borrowed(s, u, token, owed.wrapping_sub(r)),
            u,
            0i64.wrapping_sub(to_micro(r)),
        )
    } else if delta_micro < 0 && total < 0 {
        let b = newly_borrowed(total, delta_micro);
        first_credited(with_borrowed(s, u, token, owed.wrapping_add(b)), u, to_micro(b))
    } else {
        with_borrowed(s, u, token, owed)
    }
}

impl LiquidationState {
    fn borrow_of(&self, u: &str, token: u32) -> (r: BorrowLendState)
        ensures
            r == borrow_state(self@, u@, token),
    {
        match self.borrow_lend_states.get(u) {
            Some(tokens) => match tokens.get(token) {
                Some(b) => *b,
                None => BorrowLendState::default(),
            },
            None => BorrowLendState::default(),
        }
    }

    fn set_borrowed(&mut self, u: &String, token: u32, borrowed: i64)
        ensures
            final(self)@ == with_borrowed(old(self)@, u@, token, borrowed),
    {
        let ghost before = self@;
        let was = self.borrow_of(u.as_str(), token);
        let b = BorrowLendState {
            borrowed,
            borrow_shares: was.borrow_shares,
            supplied: was.supplied,
            supply_shares: was.supply_shares,
        };
        if let Some(tokens) = self.borrow_lend_states.get_mut(u.as_str()) {
            tokens.insert(token, b);
        } else {
            let mut tokens = AssetMap::new();
            tokens.insert(token, b);
            self.borrow_lend_states.insert(u.clone(), tokens);
        }
        assert(self@ =~= with_borrowed(before, u@, token, borrowed));
    }

    fn credit_first(&mut self, u: &str, delta: i64)
        ensures
            final(self)@ == first_credited(old(self)@, u@, delta),
    {
        let ghost before = self@;
        let ghost p = |d: DexModel| d.users.contains_key(u@);
        let mut k: usize = 0;
        while k < self.dex_states.len()
            invariant
                k <= self.dex_states@.len(),
                before == old(self)@,
                self@ == before,
                p == (|d: DexModel| d.users.contains_key(u@)),
                forall|j: int| 0 <= j < k ==> !p(#[trigger] self@.dexes[j]),
            decreases self.dex_states@.len() - k,
        {
            assert(before.dexes[k as int] == self.dex_states@[k as int]@);
            if self.dex_states[k].users.contains_key(u) {
                proof {
                    lemma_first_dex(before.dexes, p, 0, k as int);
                }
                if let Some(us) = self.dex_states[k].users.get_mut(u) {
                    us.usdc_balance = us.usdc_balance.wrapping_add(delta);
                }
                assert(self@ =~= first_credited(before, u@, delta));
                return;
            }
            k = k + 1;
        }
        proof {
            lemma_first_dex(before.dexes, p, 0, k as int);
        }
        assert(self@ =~= first_credited(before, u@, delta));
    }

    /// The user's balance summed over all dexes where they are a full user.
    fn total_usdc(&self, u: &str) -> (r: i64)
        ensures
            r == usdc_total(self@.dexes, u@, self@.dexes.len() as int),
    {
        let mut total: i64 = 0;
        let mut k: usize = 0;
        while k < self.dex_states.len()
            invariant
                k <= self.dex_states@.len(),
                total == usdc_total(self@.dexes, u@, k as int),
            decreases self.dex_states@.len() - k,
        {
            assert(self@.dexes[k as int] == self.dex_states@[k as int]@);
            if let Some(us) = self.dex_states[k].users.get(u) {
                total = total.wrapping_add(us.usdc_balance);
            }
            k = k + 1;
        }
        total
    }

    /// For portfolio margin users: auto-repay borrows when receiving funds,
    /// auto-borrow when spending beyond available balance.
    /// `delta_micro` is in 6-decimal units. Positive = receiving, negative = spending.
    pub fn pm_auto_borrow_repay(&mut self, user: &str, collateral_token: u32, delta_micro: i64)
        ensures
            final(self)@ == state_after_borrow_repay(
                old(self)@,
                user@,
                collateral_token,
                delta_micro,
            ),
    {
        let u = to_lowercase(user);
        if !self.portfolio_margin_users.contains_key(u.as_str()) {
            return;
        }
        let owed: i64 = self.borrow_of(u.as_str(), collateral_token).borrowed;
        let delta: i64 = delta_micro.wrapping_mul(100);
        if delta_micro > 0 && owed > 0 {
            let repay: i64 = if delta <= owed {
                delta
            } else {
                owed
            };
            self.set_borrowed(&u, collateral_token, owed.wrapping_sub(repay));
            self.credit_first(u.as_str(), 0i64.wrapping_sub(repay / 100));
        } else if delta_micro < 0 {
            let total: i64 = self.total_usdc(u.as_str());
            if total < 0 {
                let lack: i64 = 0i64.wrapping_sub(total).wrapping_mul(100);
                let spent: i64 = 0i64.wrapping_sub(delta);
                let borrow: i64 = if lack <= spent {
                    lack
                } else {
                    spent
                };
                self.set_borrowed(&u, collateral_token, owed.wrapping_add(borrow));
                self.credit_first(u.as_str(), borrow / 100);
            } else {
                self.set_borrowed(&u, collateral_token, owed);
            }
        } else {
            self.set_borrowed(&u, collateral_token, owed);
        }
    }

    /// What a withdrawal of everything from a vault is reckoned from: the vault's balance summed
    /// over the dexes, in micro-USD, and the user's share. `None` for a user without a
    /// share.
    pub fn vault_share(&self, vault_addr: &str, user_addr: &str) -> (r: Option<(i64, Fraction)>)
        ensures
            ({
                let v = crate::text::lowercase(vault_addr@);
                let u = crate::text::lowercase(user_addr@);
                r == (if self@.vaults.contains_key(v) && self@.vaults[v].contains_key(u) {
                    Some((usdc_total(self@.dexes, v, self@.dexes.len() as int), self@.vaults[v][u]))
                } else {
                    None
                })
            }),
    {
        let v = to_lowercase(vault_addr);
        let u = to_lowercase(user_addr);
        match self.vault_states.get(v.as_str()) {
            None => None,
            Some(vs) => match vs.user_ownership.get(u.as_str()) {
                None => None,
                Some(share) => Some((self.total_usdc(v.as_str()), *share)),
            },
        }
    }
}

// ── Event log ────────────────────────────────────────────────────────────

/// The state with one more line in the user's log, where logging is on.
pub open spec fn state_logged(
    s: StateModel,
    user: Seq<char>,
    block: u64,
    desc: String,
) -> StateModel {
    let u = crate::text::lowercase(user);
    match s.event_log {
        None => s,
        Some(log) => StateModel {
            event_log: Some(
                log.insert(
                    u,
                    (if log.contains_key(u) {
                        log[u]
                    } else {
                        Seq::empty()
                    }).push((block, desc)),
                ),
            ),
            ..s
        },
    }
}

impl LiquidationState {
    /// Enable per-user event tracing.
    pub fn enable_event_log(&mut self)
        ensures
            final(self)@ == (StateModel { event_log: Some(Map::empty()), ..old(self)@ }),
    {
        self.event_log = Some(StrMap::new());
    }

    /// Log an event for a user. No-op if event_log is disabled.
    pub fn log_event(&mut self, user: &str, block: u64, desc: String)
        ensures
            final(self)@ == state_logged(old(self)@, user@, block, desc),
    {
        let ghost before = self@;
        if let Some(log) = self.event_log.as_mut() {
            let u = to_lowercase(user);
            if let Some(lines) = log.get_mut(u.as_str()) {
                lines.push((block, desc));
            } else {
                let mut lines: Vec<(u64, String)> = Vec::new();
                lines.push((block, desc));
                log.insert(u, lines);
            }
        }
        assert(self@ =~= state_logged(before, user@, block, desc));
    }
}

} // verus!

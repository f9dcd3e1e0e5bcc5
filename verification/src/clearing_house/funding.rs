//! Funding: what accrues to positions, and how it settles.
use crate::clearing_house::{
    DexModel, DexState, Leverage, LiquidationState, Position, StateModel, UserModel, UserState,
};
use crate::text::to_lowercase;
use vstd::prelude::*;

verus! {

/// The outstanding funding of the cross positions in assets below `n`.
pub open spec fn cross_funding(m: Map<u32, Position>, n: int) -> i64
    decreases n,
{
    if n <= 0 {
        0
    } else {
        let rest = cross_funding(m, n - 1);
        let a = (n - 1) as u32;
        if m.contains_key(a) && m[a].leverage is Cross {
            rest.wrapping_add(m[a].outstanding_funding)
        } else {
            rest
        }
    }
}

/// One more than the highest asset id.
pub open spec fn asset_ids() -> int {
    0x1_0000_0000
}

/// The position with its funding settled: an isolated one keeps it as margin.
pub open spec fn settled_position(p: Position) -> Position {
    Position {
        outstanding_funding: 0,
        leverage: match p.leverage {
            Leverage::Isolated { leverage, raw_usd } => Leverage::Isolated {
                leverage,
                raw_usd: raw_usd.wrapping_add(p.outstanding_funding),
            },
            Leverage::Cross(l) => Leverage::Cross(l),
        },
        ..p
    }
}

/// The user with all funding settled: that of cross positions goes to the balance.
pub open spec fn settled_user(u: UserModel) -> UserModel {
    UserModel {
        usdc_balance: u.usdc_balance.wrapping_add(cross_funding(u.positions, asset_ids())),
        positions: u.positions.map_values(|p: Position| settled_position(p)),
        ..u
    }
}

/// The dex with the funding of all its users settled.
pub open spec fn settled_dex(d: DexModel) -> DexModel {
    DexModel { users: d.users.map_values(|u: UserModel| settled_user(u)), ..d }
}

/// The state with all funding settled.
pub open spec fn state_settled(s: StateModel) -> StateModel {
    StateModel { dexes: s.dexes.map_values(|d: DexModel| settled_dex(d)), ..s }
}

/// Assets without a position do not count.
proof fn lemma_gap(m: Map<u32, Position>, lo: int, hi: int)
    requires
        0 <= lo <= hi <= asset_ids(),
        forall|a: u32| lo <= a < hi ==> !m.contains_key(a),
    ensures
        cross_funding(m, hi) == cross_funding(m, lo),
    decreases hi - lo,
{
    if lo < hi {
        lemma_gap(m, lo, hi - 1);
    }
}

impl UserState {
    fn settle(&mut self)
        ensures
            final(self)@ == settled_user(old(self)@),
    {
        let ghost before = self@;
        let n: usize = self.positions.len();
        let ghost ks = self.positions.keys();
        let mut total: i64 = 0;
        let mut i: usize = 0;
        while i < n
            invariant
                i <= n,
                n == ks.len(),
                ks == self.positions.keys(),
                crate::assetmap::ascending(ks),
                before.positions.dom() == ks.to_set(),
                self@ == (UserModel { positions: self@.positions, ..before }),
                self@.positions.dom() == before.positions.dom(),
                forall|j: int|
                    0 <= j < n ==> self@.positions[#[trigger] ks[j]] == (if j < i {
                        settled_position(before.positions[ks[j]])
                    } else {
                        before.positions[ks[j]]
                    }),
                total == cross_funding(
                    before.positions,
                    if i == 0 {
                        0
                    } else {
                        ks[i - 1] + 1
                    },
                ),
            decreases n - i,
        {
            let ghost seen = self@.positions;
            let ghost a = ks[i as int];
            let pos = self.positions.val_at_mut(i);
            let funding: i64 = pos.outstanding_funding;
            match pos.leverage {
                Leverage::Isolated { leverage, raw_usd } => {
                    pos.leverage = Leverage::Isolated {
                        leverage,
                        raw_usd: raw_usd.wrapping_add(funding),
                    };
                },
                Leverage::Cross(_) => {
                    total = total.wrapping_add(funding);
                },
            }
            pos.outstanding_funding = 0;
            proof {
                assert(before.positions.contains_key(a));
                assert(self@.positions =~= seen.insert(a, settled_position(before.positions[a])));
                assert(self@.positions.dom() =~= before.positions.dom());
                let lo: int = if i == 0 {
                    0
                } else {
                    ks[i - 1] + 1
                };
                assert forall|b: u32| lo <= b < a implies !before.positions.contains_key(b) by {
                    if ks.contains(b) {
                        let j = ks.index_of(b);
                        assert(ks[j] == b);
                        if j < i - 1 {
                            assert(ks[j] < ks[i - 1]);
                        } else if j > i {
                            assert(ks[i as int] < ks[j]);
                        }
                    }
                }
                lemma_gap(before.positions, lo, a as int);
            }
            i = i + 1;
        }
        proof {
            let lo: int = if i == 0 {
                0
            } else {
                ks[i - 1] + 1
            };
            assert forall|b: u32| lo <= b < asset_ids() implies !before.positions.contains_key(b) by {
                if ks.contains(b) {
                    let j = ks.index_of(b);
                    assert(ks[j] == b);
                    if j < i - 1 {
                        assert(ks[j] < ks[i - 1]);
                    }
                }
            }
            lemma_gap(before.positions, lo, asset_ids());
        }
        self.usdc_balance = self.usdc_balance.wrapping_add(total);
        proof {
            let want = before.positions.map_values(|p: Position| settled_position(p));
            assert forall|b: u32| before.positions.contains_key(b) implies self@.positions[b]
                == want[b] by {
                let j = ks.index_of(b);
                assert(ks[j] == b);
            }
            assert(self@.positions =~= want);
        }
        assert(self@ =~= settled_user(before));
    }
}

impl DexState {
    fn settle(&mut self)
        ensures
            final(self)@ == settled_dex(old(self)@),
    {
        let ghost before = self@;
        let n: usize = self.users.len();
        let ghost ks = self.users.keys();
        let mut i: usize = 0;
        while i < n
            invariant
                i <= n,
                n == ks.len(),
                ks == self.users.keys(),
                ks.no_duplicates(),
                before.users.dom() == ks.to_set(),
                self@ == (DexModel { users: self@.users, ..before }),
                self@.users.dom() == before.users.dom(),
                forall|j: int|
                    0 <= j < n ==> self@.users[#[trigger] ks[j]] == (if j < i {
                        settled_user(before.users[ks[j]])
                    } else {
                        before.users[ks[j]]
                    }),
            decreases n - i,
        {
            let ghost seen = self@.users;
            let ghost k = ks[i as int];
            self.users.val_at_mut(i).settle();
            assert(self@.users =~= seen.insert(k, settled_user(before.users[k])));
            assert(self@.users.dom() =~= before.users.dom());
            i = i + 1;
        }
        proof {
            let want = before.users.map_values(|u: UserModel| settled_user(u));
            assert forall|k: Seq<char>| before.users.contains_key(k) implies self@.users[k]
                == want[k] by {
                let j = ks.index_of(k);
                assert(ks[j] == k);
            }
            assert(self@.users =~= want);
        }
    }
}

impl LiquidationState {
    /// Settle all outstanding funding into usdc_balance for all users.
    /// Called when a funding distribution event occurs (hourly boundary).
    /// For cross positions: outstanding → usdc_balance.
    /// For isolated positions: outstanding → raw_usd.
    pub fn settle_funding(&mut self)
        ensures
            final(self)@ == state_settled(old(self)@),
    {
        let ghost before = self@;
        let n: usize = self.dex_states.len();
        let mut k: usize = 0;
        while k < n
            invariant
                k <= n == self.dex_states@.len(),
                before == old(self)@,
                n == before.dexes.len(),
                self@ == (StateModel { dexes: self@.dexes, ..before }),
                forall|j: int|
                    0 <= j < n ==> #[trigger] self@.dexes[j] == (if j < k {
                        settled_dex(before.dexes[j])
                    } else {
                        before.dexes[j]
                    }),
            decreases n - k,
        {
            assert(self@.dexes[k as int] == self.dex_states@[k as int]@);
            let ghost seen = self@.dexes;
            self.dex_states[k].settle();
            assert(self@.dexes =~= seen.update(k as int, settled_dex(before.dexes[k as int])));
            k = k + 1;
        }
        assert(self@ =~= state_settled(before));
    }
}

/// Nothing is left outstanding after funding settles.
pub proof fn law_nothing_outstanding(s: StateModel, i: int, u: Seq<char>, a: u32)
    requires
        0 <= i < s.dexes.len(),
        s.dexes[i].users.contains_key(u),
        s.dexes[i].users[u].positions.contains_key(a),
    ensures
        state_settled(s).dexes[i].users[u].positions[a].outstanding_funding == 0,
{
}

/// Where nothing is outstanding, cross positions add up to nothing.
proof fn lemma_nothing_to_sum(m: Map<u32, Position>, n: int)
    requires
        0 <= n <= asset_ids(),
        forall|a: u32| #[trigger] m.contains_key(a) ==> m[a].outstanding_funding == 0,
    ensures
        cross_funding(m, n) == 0,
    decreases n,
{
    if n > 0 {
        lemma_nothing_to_sum(m, n - 1);
    }
}

/// Settling funding twice is settling it once.
pub proof fn law_settling_is_idempotent(s: StateModel)
    ensures
        state_settled(state_settled(s)) == state_settled(s),
{
    let t = state_settled(s);
    assert forall|i: int| 0 <= i < t.dexes.len() implies settled_dex(#[trigger] t.dexes[i])
        == t.dexes[i] by {
        let d = t.dexes[i];
        assert forall|u: Seq<char>| #[trigger] d.users.contains_key(u) implies settled_user(
            d.users[u],
        ) == d.users[u] by {
            let m = d.users[u].positions;
            lemma_nothing_to_sum(m, asset_ids());
            assert(m.map_values(|p: Position| settled_position(p)) =~= m);
        }
        assert(settled_dex(d).users =~= d.users);
    }
    assert(state_settled(t).dexes =~= t.dexes);
}

// ── Funding payments ─────────────────────────────────────────────────────

/// The user after a funding payment in an asset: it shows as outstanding on the position and goes to
/// an isolated position's margin, else to the balance.
pub open spec fn funded_user(us: UserModel, a: u32, micro: i64) -> UserModel {
    if us.positions.contains_key(a) {
        let p = us.positions[a];
        let q = Position { outstanding_funding: p.outstanding_funding.wrapping_add(micro), ..p };
        match p.leverage {
            Leverage::Isolated { leverage, raw_usd } => UserModel {
                positions: us.positions.insert(
                    a,
                    Position {
                        leverage: Leverage::Isolated {
                            leverage,
                            raw_usd: raw_usd.wrapping_add(micro),
                        },
                        ..q
                    },
                ),
                ..us
            },
            Leverage::Cross(_) => UserModel {
                usdc_balance: us.usdc_balance.wrapping_add(micro),
                positions: us.positions.insert(a, q),
                ..us
            },
        }
    } else {
        UserModel { usdc_balance: us.usdc_balance.wrapping_add(micro), ..us }
    }
}

/// The state after one funding payment. A payment in an unknown coin, to a user who is not a full
/// user of the coin's dex, or of nothing (no amount) changes nothing.
pub open spec fn state_funded(
    s: StateModel,
    user: Seq<char>,
    coin: Seq<char>,
    amount: Option<i64>,
) -> StateModel {
    let u = crate::text::lowercase(user);
    match amount {
        Some(micro) if s.coins.contains_key(coin) => {
            let (di, ai) = s.coins[coin];
            let d = s.dexes[di as int];
            if d.users.contains_key(u) {
                StateModel {
                    dexes: s.dexes.update(
                        di as int,
                        DexModel {
                            users: d.users.insert(u, funded_user(d.users[u], ai as u32, micro)),
                            ..d
                        },
                    ),
                    ..s
                }
            } else {
                s
            }
        },
        _ => s,
    }
}

impl UserState {
    fn fund(&mut self, a: u32, micro: i64)
        ensures
            final(self)@ == funded_user(old(self)@, a, micro),
    {
        let ghost before = self@;
        let to_balance = if let Some(pos) = self.positions.get_mut(a) {
            pos.outstanding_funding = pos.outstanding_funding.wrapping_add(micro);
            match pos.leverage {
                Leverage::Isolated { leverage, raw_usd } => {
                    pos.leverage = Leverage::Isolated {
                        leverage,
                        raw_usd: raw_usd.wrapping_add(micro),
                    };
                    false
                },
                Leverage::Cross(_) => true,
            }
        } else {
            true
        };
        if to_balance {
            self.usdc_balance = self.usdc_balance.wrapping_add(micro);
        }
        assert(self@ =~= funded_user(before, a, micro));
    }
}

impl LiquidationState {
    /// Applies one funding payment. `amount` is in micro-USD and absent for a payment of nothing.
    pub fn apply_funding_payment(&mut self, user: &str, coin: &str, amount: Option<i64>)
        requires
            old(self)@.coins_valid(),
        ensures
            final(self)@ == state_funded(old(self)@, user@, coin@, amount),
            final(self)@.coins_valid(),
    {
        let ghost before = self@;
        let micro: i64 = match amount {
            None => {
                return ;
            },
            Some(m) => m,
        };
        let u = to_lowercase(user);
        let (di, ai): (usize, usize) = match self.coin_to_dex_asset.get(coin) {
            None => {
                return ;
            },
            Some(p) => (p.0, p.1),
        };
        assert(before.dexes[di as int] == self.dex_states@[di as int]@);
        #[verifier::truncate]
        let a: u32 = ai as u32;
        if let Some(us) = self.dex_states[di].users.get_mut(u.as_str()) {
            us.fund(a, micro);
        }
        assert(self@.dexes =~= state_funded(before, user@, coin@, amount).dexes);
        assert(self@ =~= state_funded(before, user@, coin@, amount));
    }
}

} // verus!

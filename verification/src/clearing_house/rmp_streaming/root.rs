//! A whole snapshot: what stands in it, and the state that is made of it.
use crate::assetmap::AssetMap;
use crate::clearing_house::rmp_streaming as walk;
use crate::clearing_house::rmp_streaming::dex;
use crate::clearing_house::rmp_streaming::locus;
use crate::clearing_house::{
    AccountMode, BorrowLendState, DexModel, DexState, Fraction, Leverage, LiquidationState,
    PartialModel, StateModel, UserModel, UserStatePartial, VaultState,
};
use crate::msgpack::{MsgpackError, Reader};
use crate::strmap::StrMap;
use crate::text::{contains_char, str_eq, text_before};
use std::collections::HashSet;
use vstd::prelude::*;

verus! {

// ── What stands in a snapshot ────────────────────────────────────────────

/// What has been read of a snapshot.
#[verifier::ext_equal]
pub struct RootModel {
    pub dexes: Seq<DexModel>,
    pub coins: Map<Seq<char>, (usize, usize)>,
    pub modes: Map<Seq<char>, AccountMode>,
    pub portfolio_margin: Map<Seq<char>, ()>,
    pub spot: Map<Seq<char>, Map<u32, i64>>,
    pub borrows: Map<Seq<char>, Map<u32, BorrowLendState>>,
    pub vaults: Map<Seq<char>, Map<Seq<char>, Fraction>>,
    pub settings: Seq<Map<Seq<char>, Map<u32, u32>>>,
}

/// The coins, with the first `n` assets of a dex entered under their names.
pub open spec fn coins_entered(
    coins: Map<Seq<char>, (usize, usize)>,
    di: usize,
    d: DexModel,
    n: int,
) -> Map<Seq<char>, (usize, usize)>
    decreases n,
{
    if n <= 0 {
        coins
    } else {
        coins_entered(coins, di, d, n - 1).insert(d.universe[n - 1].name, (di, (n - 1) as usize))
    }
}

/// What is read by going through the next `n` dexes, of which the first is number `di` of its list.
pub open spec fn dex_items(s: Seq<u8>, di: usize, n: nat, a: RootModel) -> Option<
    (RootModel, Seq<u8>),
>
    decreases n,
{
    if n == 0 {
        Some((a, s))
    } else {
        match dex::dex_at(s) {
            Some((d, t)) => dex_items(
                t,
                (di + 1) as usize,
                (n - 1) as nat,
                RootModel {
                    dexes: a.dexes.push(d),
                    coins: coins_entered(a.coins, di, d, d.universe.len() as int),
                    ..a
                },
            ),
            None => None,
        }
    }
}

/// The list of dexes.
pub open spec fn dexes_at(s: Seq<u8>, a: RootModel) -> Option<(RootModel, Seq<u8>)> {
    match crate::msgpack::array_length(s) {
        crate::msgpack::Out::Good(n, t) => dex_items(t, 0, n, a),
        _ => None,
    }
}

/// The collateral tokens of the dexes.
pub open spec fn collateral_tokens(dexes: Seq<DexModel>) -> Set<u32> {
    dexes.map_values(|d: DexModel| d.collateral_token).to_set()
}

/// The fields of the ledger.
pub open spec fn locus_field(k: Seq<char>, a: RootModel, s: Seq<u8>) -> Option<
    (RootModel, Seq<u8>),
> {
    if k == "cls"@ {
        dexes_at(s, a)
    } else if k == "ust"@ {
        match walk::modes_at(s) {
            Some((v, t)) => Some(
                (RootModel { modes: v.modes, portfolio_margin: v.portfolio_margin, ..a }, t),
            ),
            None => None,
        }
    } else if k == "scl"@ {
        match walk::spot_at(collateral_tokens(a.dexes), s) {
            Some((v, t)) => Some((RootModel { spot: v, ..a }, t)),
            None => None,
        }
    } else if k == "blp"@ {
        match locus::pool_at(s) {
            Some((v, t)) => Some((RootModel { borrows: v, ..a }, t)),
            None => None,
        }
    } else if k == "vlt"@ {
        match locus::vaults_at(s) {
            Some((v, t)) => Some((RootModel { vaults: v, ..a }, t)),
            None => None,
        }
    } else {
        walk::skip_then(s, a)
    }
}

/// The fields of the exchange.
pub open spec fn exchange_field(k: Seq<char>, a: RootModel, s: Seq<u8>) -> Option<
    (RootModel, Seq<u8>),
> {
    if k == "locus"@ {
        walk::in_map(s, a, |k, a, s| locus_field(k, a, s))
    } else if k == "perp_dexs"@ {
        match locus::perp_dexs_at(s) {
            Some((v, t)) => Some((RootModel { settings: v, ..a }, t)),
            None => None,
        }
    } else {
        walk::skip_then(s, a)
    }
}

/// A snapshot of which nothing has been read.
pub open spec fn no_root() -> RootModel {
    RootModel {
        dexes: Seq::empty(),
        coins: Map::empty(),
        modes: Map::empty(),
        portfolio_margin: Map::empty(),
        spot: Map::empty(),
        borrows: Map::empty(),
        vaults: Map::empty(),
        settings: Seq::empty(),
    }
}

/// What stands in the snapshot, under "exchange".
pub open spec fn root_at(s: Seq<u8>) -> Option<RootModel> {
    match crate::msgpack::seek_map(s, "exchange"@) {
        Some(t) => match walk::in_map(t, no_root(), |k, a, s| exchange_field(k, a, s)) {
            Some((a, _)) => Some(a),
            None => None,
        },
        None => None,
    }
}

// ── The state that is made of it ─────────────────────────────────────────

/// Whether a dex knows the user, with or without positions.
pub open spec fn knows(d: DexModel, u: Seq<char>) -> bool {
    d.users.contains_key(u) || d.partials.contains_key(u)
}

/// Whether any dex knows the user.
pub open spec fn known(dexes: Seq<DexModel>, u: Seq<char>) -> bool {
    exists|i: int| 0 <= i < dexes.len() && #[trigger] knows(dexes[i], u)
}

/// A user of whom only the mode is known.
pub open spec fn of_mode(m: AccountMode) -> PartialModel {
    PartialModel { account_mode: m, ..PartialModel::fresh() }
}

/// The dexes, with every user that has a mode but is known to no dex entered on the first.
pub open spec fn with_moded(dexes: Seq<DexModel>, modes: Map<Seq<char>, AccountMode>) -> Seq<
    DexModel,
> {
    if dexes.len() == 0 {
        dexes
    } else {
        dexes.update(
            0,
            DexModel {
                partials: Map::new(
                    |u: Seq<char>|
                        dexes[0].partials.contains_key(u) || modes.contains_key(u)
                            && !(modes[u] is Standard) && !known(dexes, u),
                    |u: Seq<char>|
                        if dexes[0].partials.contains_key(u) {
                            dexes[0].partials[u]
                        } else {
                            of_mode(modes[u])
                        },
                ),
                ..dexes[0]
            },
        )
    }
}

/// The mode of a user; standard where none is given.
pub open spec fn mode_for(modes: Map<Seq<char>, AccountMode>, u: Seq<char>) -> AccountMode {
    if modes.contains_key(u) {
        modes[u]
    } else {
        AccountMode::Standard
    }
}

/// The spot balance of a user in a token; zero where none is given.
pub open spec fn spot_for(
    spot: Map<Seq<char>, Map<u32, i64>>,
    u: Seq<char>,
    token: u32,
) -> i64 {
    if spot.contains_key(u) && spot[u].contains_key(token) {
        spot[u][token]
    } else {
        0
    }
}

/// A dex whose users have their modes and spot balances.
pub open spec fn with_accounts(
    d: DexModel,
    modes: Map<Seq<char>, AccountMode>,
    spot: Map<Seq<char>, Map<u32, i64>>,
) -> DexModel {
    DexModel {
        users: Map::new(
            |u: Seq<char>| d.users.contains_key(u),
            |u: Seq<char>|
                UserModel {
                    account_mode: mode_for(modes, u),
                    spot_collateral_decimals: 8,
                    spot_collateral: spot_for(spot, u, d.collateral_token),
                    ..d.users[u]
                },
        ),
        partials: Map::new(
            |u: Seq<char>| d.partials.contains_key(u),
            |u: Seq<char>|
                PartialModel {
                    account_mode: mode_for(modes, u),
                    spot_collateral_decimals: 8,
                    spot_collateral: spot_for(spot, u, d.collateral_token),
                    ..d.partials[u]
                },
        ),
        ..d
    }
}

/// Whether a dex with this collateral knows the user.
pub open spec fn known_with(dexes: Seq<DexModel>, token: u32, u: Seq<char>) -> bool {
    exists|i: int|
        0 <= i < dexes.len() && dexes[i].collateral_token == token && #[trigger] knows(dexes[i], u)
}

/// Whether no earlier dex has the same collateral.
pub open spec fn first_with_its_token(dexes: Seq<DexModel>, i: int) -> bool {
    forall|j: int|
        0 <= j < i ==> (#[trigger] dexes[j]).collateral_token != dexes[i].collateral_token
}

/// Whether a user is entered on dex `i` for the balance they hold in its collateral: the dex is the
/// first with that collateral, and no dex with it knows the user.
pub open spec fn enters(
    dexes: Seq<DexModel>,
    spot: Map<Seq<char>, Map<u32, i64>>,
    i: int,
    u: Seq<char>,
) -> bool {
    first_with_its_token(dexes, i) && spot_for(spot, u, dexes[i].collateral_token) != 0
        && !known_with(dexes, dexes[i].collateral_token, u)
}

/// Dex `i`, with those users entered on it who hold its collateral and are known nowhere.
pub open spec fn with_holders(
    dexes: Seq<DexModel>,
    modes: Map<Seq<char>, AccountMode>,
    spot: Map<Seq<char>, Map<u32, i64>>,
    i: int,
) -> DexModel {
    DexModel {
        partials: Map::new(
            |u: Seq<char>| dexes[i].partials.contains_key(u) || enters(dexes, spot, i, u),
            |u: Seq<char>|
                if dexes[i].partials.contains_key(u) {
                    dexes[i].partials[u]
                } else {
                    PartialModel {
                        spot_collateral: spot_for(spot, u, dexes[i].collateral_token),
                        ..of_mode(mode_for(modes, u))
                    }
                },
        ),
        ..dexes[i]
    }
}

/// The settings of a user, with a cross leverage from the order books for assets that have none.
pub open spec fn with_defaults(m: Map<u32, Leverage>, levs: Map<u32, u32>) -> Map<u32, Leverage> {
    Map::new(
        |a: u32| m.contains_key(a) || levs.contains_key(a),
        |a: u32|
            if m.contains_key(a) {
                m[a]
            } else {
                Leverage::Cross(levs[a])
            },
    )
}

/// A dex whose users have the settings from the order books.
pub open spec fn with_settings(d: DexModel, levs: Map<Seq<char>, Map<u32, u32>>) -> DexModel {
    DexModel {
        users: Map::new(
            |u: Seq<char>| d.users.contains_key(u),
            |u: Seq<char>|
                if levs.contains_key(u) {
                    UserModel {
                        leverage_settings: with_defaults(d.users[u].leverage_settings, levs[u]),
                        ..d.users[u]
                    }
                } else {
                    d.users[u]
                },
        ),
        partials: Map::new(
            |u: Seq<char>| d.partials.contains_key(u),
            |u: Seq<char>|
                if levs.contains_key(u) {
                    PartialModel {
                        leverage_settings: with_defaults(d.partials[u].leverage_settings, levs[u]),
                        ..d.partials[u]
                    }
                } else {
                    d.partials[u]
                },
        ),
        ..d
    }
}

/// The names of the first `n` dexes: the empty name for the main dex, and for others what stands
/// before the colon in the name of their first coin.
pub open spec fn names_of(dexes: Seq<DexModel>, n: int) -> Map<Seq<char>, u32>
    decreases n,
{
    if n <= 0 {
        Map::empty().insert(Seq::empty(), 0u32)
    } else {
        let d = dexes[n - 1];
        if d.universe.len() > 0 && d.universe[0].name.contains(':') {
            names_of(dexes, n - 1).insert(
                crate::text::before_first(d.universe[0].name, ':'),
                d.pdi,
            )
        } else {
            names_of(dexes, n - 1)
        }
    }
}

/// The dexes with their users' modes and spot balances.
pub open spec fn account_dexes(a: RootModel) -> Seq<DexModel> {
    with_moded(a.dexes, a.modes).map_values(|d: DexModel| with_accounts(d, a.modes, a.spot))
}

/// The dexes with every user of whom the snapshot knows a balance in their collateral.
pub open spec fn holder_dexes(a: RootModel) -> Seq<DexModel> {
    Seq::new(a.dexes.len(), |i: int| with_holders(account_dexes(a), a.modes, a.spot, i))
}

/// The dexes of the state.
pub open spec fn finished_dexes(a: RootModel) -> Seq<DexModel> {
    Seq::new(
        a.dexes.len(),
        |i: int|
            if i < a.settings.len() {
                with_settings(holder_dexes(a)[i], a.settings[i])
            } else {
                holder_dexes(a)[i]
            },
    )
}

/// The state that is made of what stands in a snapshot.
pub open spec fn finished(a: RootModel) -> StateModel {
    StateModel {
        dexes: finished_dexes(a),
        coins: a.coins,
        nonces: Set::empty(),
        vault_withdrawals: Map::empty(),
        leverage_fixes: Seq::empty(),
        event_log: None,
        unified: a.spot,
        action_counts: Map::empty(),
        borrows: a.borrows,
        portfolio_margin: a.portfolio_margin,
        vaults: a.vaults,
        marks: Map::empty(),
        dex_names: names_of(a.dexes, a.dexes.len() as int),
    }
}

// ── Reading it ───────────────────────────────────────────────────────────

/// What has been read of a snapshot.
struct Root {
    dexes: Vec<DexState>,
    coins: StrMap<(usize, usize)>,
    modes: StrMap<AccountMode>,
    portfolio_margin: StrMap<()>,
    spot: StrMap<AssetMap<i64>>,
    borrows: StrMap<AssetMap<BorrowLendState>>,
    vaults: StrMap<VaultState>,
    settings: Vec<StrMap<AssetMap<u32>>>,
}

/// What the dexes hold.
pub open spec fn dex_views(v: Seq<DexState>) -> Seq<DexModel> {
    v.map_values(|d: DexState| d@)
}

impl View for Root {
    type V = RootModel;

    closed spec fn view(&self) -> RootModel {
        RootModel {
            dexes: dex_views(self.dexes@),
            coins: self.coins@,
            modes: self.modes@,
            portfolio_margin: self.portfolio_margin@,
            spot: self.spot@,
            borrows: self.borrows@,
            vaults: self.vaults@,
            settings: locus::setting_views(self.settings@),
        }
    }
}

fn enter_coins(coins: &mut StrMap<(usize, usize)>, di: usize, d: &DexState)
    ensures
        final(coins)@ == coins_entered(old(coins)@, di, d@, d@.universe.len() as int),
{
    let ghost start = coins@;
    let mut i: usize = 0;
    while i < d.universe.len()
        invariant
            i <= d.universe@.len(),
            coins@ == coins_entered(start, di, d@, i as int),
        decreases d.universe@.len() - i,
    {
        assert(d@.universe[i as int] == d.universe@[i as int]@);
        coins.insert(d.universe[i].name.clone(), (di, i));
        i = i + 1;
    }
}

fn parse_dexes(cur: &mut Reader, acc: &mut Root) -> (r: Result<(), MsgpackError>)
    ensures
        match dexes_at(old(cur)@, old(acc)@) {
            Some((v, t)) => r is Ok && final(acc)@ == v && final(cur)@ == t,
            None => r is Err,
        },
{
    let ghost whole = dexes_at(cur@, acc@);
    let n: u32 = cur.read_array_len()?;
    let mut i: u32 = 0;
    #[verifier::loop_isolation(false)]
    while i < n
        invariant
            i <= n,
            whole == dex_items(cur@, i as usize, (n - i) as nat, acc@),
        decreases n - i,
    {
        let ghost before = acc@;
        let ghost list = acc.dexes@;
        let d = dex::parse_clearinghouse(cur)?;
        enter_coins(&mut acc.coins, i as usize, &d);
        acc.dexes.push(d);
        proof {
            assert(dex_views(acc.dexes@) =~= dex_views(list).push(d@));
            assert(acc@ =~= (RootModel {
                dexes: before.dexes.push(d@),
                coins: coins_entered(before.coins, i as usize, d@, d@.universe.len() as int),
                ..before
            }));
        }
        i = i + 1;
    }
    Ok(())
}

fn collaterals(dexes: &Vec<DexState>) -> (r: Vec<u32>)
    ensures
        r@.to_set() == collateral_tokens(dex_views(dexes@)),
{
    let mut r: Vec<u32> = Vec::new();
    let mut i: usize = 0;
    while i < dexes.len()
        invariant
            i <= dexes@.len(),
            r@.len() == i,
            forall|j: int| 0 <= j < i ==> r@[j] == dexes@[j].collateral_token,
        decreases dexes@.len() - i,
    {
        r.push(dexes[i].collateral_token);
        i = i + 1;
    }
    assert(r@ =~= dex_views(dexes@).map_values(|d: DexModel| d.collateral_token));
    r
}

#[verifier::loop_isolation(false)]
fn parse_locus(cur: &mut Reader, acc: &mut Root) -> (r: Result<(), MsgpackError>)
    ensures
        match walk::in_map(old(cur)@, old(acc)@, |k, a, s| locus_field(k, a, s)) {
            Some((v, t)) => r is Ok && final(acc)@ == v && final(cur)@ == t,
            None => r is Err,
        },
{
    let ghost f: spec_fn(Seq<char>, RootModel, Seq<u8>) -> Option<(RootModel, Seq<u8>)> = |k, a, s|
        locus_field(k, a, s);
    let ghost whole = walk::in_map(cur@, acc@, f);
    let n: u32 = cur.read_map_len()?;
    let mut i: u32 = 0;
    while i < n
        invariant
            i <= n,
            whole == walk::fields(cur@, (n - i) as nat, acc@, f),
        decreases n - i,
    {
        let k = cur.read_str_ref()?;
        if str_eq(k, "cls") {
            parse_dexes(cur, acc)?;
        } else if str_eq(k, "ust") {
            let (modes, pm) = walk::parse_ust(cur)?;
            acc.modes = modes;
            acc.portfolio_margin = pm;
        } else if str_eq(k, "scl") {
            let wanted = collaterals(&acc.dexes);
            acc.spot = walk::parse_scl_balances(cur, &wanted)?;
        } else if str_eq(k, "blp") {
            acc.borrows = locus::parse_blp_users(cur)?;
        } else if str_eq(k, "vlt") {
            acc.vaults = locus::parse_vlt(cur)?;
        } else {
            cur.skip_value()?;
        }
        i = i + 1;
    }
    Ok(())
}

#[verifier::loop_isolation(false)]
fn parse_exchange(cur: &mut Reader) -> (r: Result<Root, MsgpackError>)
    ensures
        match walk::in_map(old(cur)@, no_root(), |k, a, s| exchange_field(k, a, s)) {
            Some((v, t)) => r is Ok && r->Ok_0@ == v,
            None => r is Err,
        },
{
    let ghost f: spec_fn(Seq<char>, RootModel, Seq<u8>) -> Option<(RootModel, Seq<u8>)> = |k, a, s|
        exchange_field(k, a, s);
    let ghost whole = walk::in_map(cur@, no_root(), f);
    let n: u32 = cur.read_map_len()?;
    let mut acc = Root {
        dexes: Vec::new(),
        coins: StrMap::new(),
        modes: StrMap::new(),
        portfolio_margin: StrMap::new(),
        spot: StrMap::new(),
        borrows: StrMap::new(),
        vaults: StrMap::new(),
        settings: Vec::new(),
    };
    assert(acc@ =~= no_root());
    let mut i: u32 = 0;
    while i < n
        invariant
            i <= n,
            whole == walk::fields(cur@, (n - i) as nat, acc@, f),
        decreases n - i,
    {
        let k = cur.read_str_ref()?;
        if str_eq(k, "locus") {
            parse_locus(cur, &mut acc)?;
        } else if str_eq(k, "perp_dexs") {
            acc.settings = locus::parse_perp_dexs_leverage(cur)?;
        } else {
            cur.skip_value()?;
        }
        i = i + 1;
    }
    Ok(acc)
}

// ── Making the state ─────────────────────────────────────────────────────

impl DexState {
    /// Whether the dex knows the user.
    fn has_user(&self, u: &str) -> (r: bool)
        ensures
            r == knows(self@, u@),
    {
        self.users.contains_key(u) || self.users_without_positions.contains_key(u)
    }
}

fn is_known(dexes: &Vec<DexState>, u: &str) -> (r: bool)
    ensures
        r == known(dex_views(dexes@), u@),
{
    let ghost v = dex_views(dexes@);
    let mut i: usize = 0;
    while i < dexes.len()
        invariant
            i <= dexes@.len(),
            v == dex_views(dexes@),
            forall|j: int| 0 <= j < i ==> !knows(#[trigger] v[j], u@),
        decreases dexes@.len() - i,
    {
        assert(v[i as int] == dexes@[i as int]@);
        if dexes[i].has_user(u) {
            return true;
        }
        i = i + 1;
    }
    false
}

/// Enters on the first dex those users that have a mode but are known to no dex.
fn enter_moded(dexes: &mut Vec<DexState>, modes: &StrMap<AccountMode>)
    ensures
        dex_views(final(dexes)@) == with_moded(dex_views(old(dexes)@), modes@),
{
    if dexes.len() == 0 {
        return ;
    }
    let ghost start = dex_views(dexes@);
    let ghost d0 = start[0];
    let n: usize = modes.len();
    let ghost ks = modes.keys();
    let mut i: usize = 0;
    proof {
        crate::strmap::lemma_take_all(ks);
    }
    while i < n
        invariant
            i <= n == ks.len(),
            ks == modes.keys(),
            ks.no_duplicates(),
            modes@.dom() == ks.to_set(),
            dexes@.len() == start.len() > 0,
            start[0] == d0,
            forall|j: int| 1 <= j < start.len() ==> #[trigger] dex_views(dexes@)[j] == start[j],
            dexes@[0]@ == (DexModel { partials: dexes@[0]@.partials, ..d0 }),
            forall|u: Seq<char>| #[trigger]
                dexes@[0]@.partials.contains_key(u) <==> d0.partials.contains_key(u)
                    || ks.take(i as int).contains(u) && !(modes@[u] is Standard) && !known(
                    start,
                    u,
                ),
            forall|u: Seq<char>| #[trigger]
                dexes@[0]@.partials.contains_key(u) ==> dexes@[0]@.partials[u] == (
                if d0.partials.contains_key(u) {
                    d0.partials[u]
                } else {
                    of_mode(modes@[u])
                }),
        decreases n - i,
    {
        let u = modes.key_at(i);
        let m = *modes.val_at(i);
        proof {
            crate::strmap::lemma_take_one(ks, i as int);
            let now = dex_views(dexes@);
            assert(now[0] == dexes@[0]@);
            assert(known(now, u@) == known(start, u@)) by {
                if known(now, u@) {
                    let j = choose|j: int| 0 <= j < now.len() && #[trigger] knows(now[j], u@);
                    assert(knows(start[j], u@));
                }
                if known(start, u@) {
                    let j = choose|j: int| 0 <= j < start.len() && #[trigger] knows(start[j], u@);
                    assert(knows(now[j], u@));
                }
            }
            if d0.partials.contains_key(u@) {
                assert(knows(start[0], u@));
            }
        }
        let standard = match m {
            AccountMode::Standard => true,
            _ => false,
        };
        if !standard && !is_known(dexes, u.as_str()) {
            let ghost was = dexes@;
            let mut p = UserStatePartial::fresh();
            p.account_mode = m;
            assert(p@ =~= of_mode(m));
            dexes[0].users_without_positions.insert(u.clone(), p);
            proof {
                assert(dexes@[0]@ =~= (DexModel {
                    partials: was[0]@.partials.insert(u@, of_mode(m)),
                    ..d0
                }));
                assert forall|j: int| 1 <= j < start.len() implies #[trigger] dex_views(dexes@)[j]
                    == start[j] by {
                    assert(dex_views(was)[j] == start[j]);
                }
            }
        }
        i = i + 1;
    }
    proof {
        crate::strmap::lemma_take_all(ks);
        let goal = with_moded(start, modes@);
        assert forall|u: Seq<char>| modes@.contains_key(u) <==> #[trigger] ks.contains(u) by {
            assert(ks.to_set().contains(u) <==> ks.contains(u));
        }
        assert(dexes@[0]@.partials =~= goal[0].partials);
        assert forall|j: int| 0 <= j < start.len() implies #[trigger] dex_views(dexes@)[j]
            == goal[j] by {
            if j == 0 {
                assert(dex_views(dexes@)[0] == dexes@[0]@);
            }
        }
        assert(dex_views(dexes@) =~= goal);
    }
}

fn mode_or_standard(modes: &StrMap<AccountMode>, u: &str) -> (r: AccountMode)
    ensures
        r == mode_for(modes@, u@),
{
    match modes.get(u) {
        Some(m) => *m,
        None => AccountMode::Standard,
    }
}

fn spot_or_zero(spot: &StrMap<AssetMap<i64>>, u: &str, token: u32) -> (r: i64)
    ensures
        r == spot_for(spot@, u@, token),
{
    match spot.get(u) {
        Some(m) => match m.get(token) {
            Some(v) => *v,
            None => 0,
        },
        None => 0,
    }
}

impl DexState {
    fn give_users_accounts(
        &mut self,
        modes: &StrMap<AccountMode>,
        spot: &StrMap<AssetMap<i64>>,
    )
        ensures
            final(self)@ == (DexModel {
                users: with_accounts(old(self)@, modes@, spot@).users,
                ..old(self)@
            }),
    {
        let ghost before = self@;
        let ghost goal = with_accounts(before, modes@, spot@).users;
        let token: u32 = self.collateral_token;
        let n: usize = self.users.len();
        let ghost ks = self.users.keys();
        let mut i: usize = 0;
        while i < n
            invariant
                i <= n == ks.len(),
                ks == self.users.keys(),
                ks.no_duplicates(),
                before.users.dom() == ks.to_set(),
                token == before.collateral_token,
                self@ == (DexModel { users: self.users@, ..before }),
                self.users@.dom() =~= before.users.dom(),
                goal == with_accounts(before, modes@, spot@).users,
                forall|j: int| 0 <= j < i ==> self.users@[#[trigger] ks[j]] == goal[ks[j]],
                forall|j: int| i <= j < n ==> self.users@[#[trigger] ks[j]] == before.users[ks[j]],
            decreases n - i,
        {
            let u = self.users.key_at(i).clone();
            let mode = mode_or_standard(modes, u.as_str());
            let held: i64 = spot_or_zero(spot, u.as_str(), token);
            let us = self.users.val_at_mut(i);
            us.account_mode = mode;
            us.spot_collateral_decimals = 8;
            us.spot_collateral = held;
            assert(ks.contains(ks[i as int]));
            i = i + 1;
        }
        proof {
            assert forall|u: Seq<char>| before.users.contains_key(u) implies self.users@[u]
                == goal[u] by {
                assert(ks.contains(u));
                assert(ks[ks.index_of(u)] == u);
            }
            assert(self.users@ =~= goal);
        }
    }

    fn give_partials_accounts(
        &mut self,
        modes: &StrMap<AccountMode>,
        spot: &StrMap<AssetMap<i64>>,
    )
        ensures
            final(self)@ == (DexModel {
                partials: with_accounts(old(self)@, modes@, spot@).partials,
                ..old(self)@
            }),
    {
        let ghost before = self@;
        let ghost goal = with_accounts(before, modes@, spot@).partials;
        let token: u32 = self.collateral_token;
        let n: usize = self.users_without_positions.len();
        let ghost ks = self.users_without_positions.keys();
        let mut i: usize = 0;
        while i < n
            invariant
                i <= n == ks.len(),
                ks == self.users_without_positions.keys(),
                ks.no_duplicates(),
                before.partials.dom() == ks.to_set(),
                token == before.collateral_token,
                self@ == (DexModel { partials: self.users_without_positions@, ..before }),
                self.users_without_positions@.dom() =~= before.partials.dom(),
                goal == with_accounts(before, modes@, spot@).partials,
                forall|j: int|
                    0 <= j < i ==> self.users_without_positions@[#[trigger] ks[j]] == goal[ks[j]],
                forall|j: int|
                    i <= j < n ==> self.users_without_positions@[#[trigger] ks[j]]
                        == before.partials[ks[j]],
            decreases n - i,
        {
            let u = self.users_without_positions.key_at(i).clone();
            let mode = mode_or_standard(modes, u.as_str());
            let held: i64 = spot_or_zero(spot, u.as_str(), token);
            let p = self.users_without_positions.val_at_mut(i);
            p.account_mode = mode;
            p.spot_collateral_decimals = 8;
            p.spot_collateral = held;
            assert(ks.contains(ks[i as int]));
            i = i + 1;
        }
        proof {
            assert forall|u: Seq<char>|
                before.partials.contains_key(u) implies self.users_without_positions@[u]
                == goal[u] by {
                assert(ks.contains(u));
                assert(ks[ks.index_of(u)] == u);
            }
            assert(self.users_without_positions@ =~= goal);
        }
    }
}

/// Gives every user of every dex their mode and their spot balance.
fn give_accounts(
    dexes: &mut Vec<DexState>,
    modes: &StrMap<AccountMode>,
    spot: &StrMap<AssetMap<i64>>,
)
    ensures
        dex_views(final(dexes)@) == dex_views(old(dexes)@).map_values(
            |d: DexModel| with_accounts(d, modes@, spot@),
        ),
{
    let ghost start = dex_views(dexes@);
    let mut i: usize = 0;
    while i < dexes.len()
        invariant
            i <= dexes@.len() == start.len(),
            forall|j: int|
                0 <= j < start.len() ==> (#[trigger] dexes@[j])@ == (if j < i {
                    with_accounts(start[j], modes@, spot@)
                } else {
                    start[j]
                }),
        decreases dexes@.len() - i,
    {
        let ghost was = dexes@;
        let d = &mut dexes[i];
        d.give_users_accounts(modes, spot);
        d.give_partials_accounts(modes, spot);
        proof {
            assert(dexes@[i as int]@ =~= with_accounts(start[i as int], modes@, spot@));
            assert forall|j: int| 0 <= j < start.len() && j != i implies #[trigger] dexes@[j]
                == was[j] by {}
        }
        i = i + 1;
    }
    assert(dex_views(dexes@) =~= start.map_values(
        |d: DexModel| with_accounts(d, modes@, spot@),
    ));
}

fn is_known_with(dexes: &Vec<DexState>, token: u32, u: &str) -> (r: bool)
    ensures
        r == known_with(dex_views(dexes@), token, u@),
{
    let ghost v = dex_views(dexes@);
    let mut i: usize = 0;
    while i < dexes.len()
        invariant
            i <= dexes@.len(),
            v == dex_views(dexes@),
            forall|j: int|
                0 <= j < i ==> !(v[j].collateral_token == token && knows(#[trigger] v[j], u@)),
        decreases dexes@.len() - i,
    {
        assert(v[i as int] == dexes@[i as int]@);
        if dexes[i].collateral_token == token && dexes[i].has_user(u) {
            return true;
        }
        i = i + 1;
    }
    false
}

fn is_first_with_its_token(dexes: &Vec<DexState>, i: usize) -> (r: bool)
    requires
        i < dexes@.len(),
    ensures
        r == first_with_its_token(dex_views(dexes@), i as int),
{
    let ghost v = dex_views(dexes@);
    let token: u32 = dexes[i].collateral_token;
    let mut k: usize = 0;
    while k < i
        invariant
            k <= i < dexes@.len(),
            v == dex_views(dexes@),
            token == v[i as int].collateral_token,
            forall|j: int| 0 <= j < k ==> (#[trigger] v[j]).collateral_token != token,
        decreases i - k,
    {
        assert(v[k as int] == dexes@[k as int]@);
        if dexes[k].collateral_token == token {
            return false;
        }
        k = k + 1;
    }
    true
}

/// Enters on the dex those users that hold its collateral and are known to no dex with it. The dex
/// is the first with its collateral.
fn enter_holders_on(
    dexes: &mut Vec<DexState>,
    di: usize,
    modes: &StrMap<AccountMode>,
    spot: &StrMap<AssetMap<i64>>,
)
    requires
        di < old(dexes)@.len(),
        first_with_its_token(dex_views(old(dexes)@), di as int),
    ensures
        dex_views(final(dexes)@) == dex_views(old(dexes)@).update(
            di as int,
            with_holders(dex_views(old(dexes)@), modes@, spot@, di as int),
        ),
{
    let ghost start = dex_views(dexes@);
    let ghost d0 = start[di as int];
    let token: u32 = dexes[di].collateral_token;
    let n: usize = spot.len();
    let ghost ks = spot.keys();
    let mut i: usize = 0;
    proof {
        crate::strmap::lemma_take_all(ks);
    }
    while i < n
        invariant
            i <= n == ks.len(),
            ks == spot.keys(),
            ks.no_duplicates(),
            spot@.dom() == ks.to_set(),
            di < dexes@.len() == start.len(),
            start[di as int] == d0,
            token == d0.collateral_token,
            first_with_its_token(start, di as int),
            forall|j: int|
                0 <= j < start.len() && j != di ==> #[trigger] dex_views(dexes@)[j] == start[j],
            dexes@[di as int]@ == (DexModel { partials: dexes@[di as int]@.partials, ..d0 }),
            forall|u: Seq<char>| #[trigger]
                dexes@[di as int]@.partials.contains_key(u) <==> d0.partials.contains_key(u)
                    || ks.take(i as int).contains(u) && enters(start, spot@, di as int, u),
            forall|u: Seq<char>| #[trigger]
                dexes@[di as int]@.partials.contains_key(u) ==> dexes@[di as int]@.partials[u] == (
                if d0.partials.contains_key(u) {
                    d0.partials[u]
                } else {
                    PartialModel {
                        spot_collateral: spot_for(spot@, u, token),
                        ..of_mode(mode_for(modes@, u))
                    }
                }),
        decreases n - i,
    {
        let u = spot.key_at(i);
        let held: i64 = spot_or_zero(spot, u.as_str(), token);
        proof {
            crate::strmap::lemma_take_one(ks, i as int);
            let now = dex_views(dexes@);
            assert(now[di as int] == dexes@[di as int]@);
            assert(known_with(now, token, u@) == known_with(start, token, u@)) by {
                if known_with(now, token, u@) {
                    let j = choose|j: int|
                        0 <= j < now.len() && now[j].collateral_token == token && #[trigger] knows(
                            now[j],
                            u@,
                        );
                    assert(knows(start[j], u@));
                }
                if known_with(start, token, u@) {
                    let j = choose|j: int|
                        0 <= j < start.len() && start[j].collateral_token == token
                            && #[trigger] knows(start[j], u@);
                    assert(knows(now[j], u@));
                }
            }
            if d0.partials.contains_key(u@) {
                assert(knows(start[di as int], u@));
            }
        }
        if held != 0 && !is_known_with(dexes, token, u.as_str()) {
            let ghost was = dexes@;
            let mut p = UserStatePartial::fresh();
            p.account_mode = mode_or_standard(modes, u.as_str());
            p.spot_collateral = held;
            dexes[di].users_without_positions.insert(u.clone(), p);
            proof {
                assert(dexes@[di as int]@ =~= (DexModel {
                    partials: was[di as int]@.partials.insert(u@, p@),
                    ..d0
                }));
                assert forall|j: int| 0 <= j < start.len() && j != di implies #[trigger] dex_views(
                    dexes@,
                )[j] == start[j] by {
                    assert(dex_views(was)[j] == start[j]);
                }
            }
        }
        i = i + 1;
    }
    proof {
        crate::strmap::lemma_take_all(ks);
        let goal = with_holders(start, modes@, spot@, di as int);
        assert forall|u: Seq<char>| spot@.contains_key(u) <==> #[trigger] ks.contains(u) by {
            assert(ks.to_set().contains(u) <==> ks.contains(u));
        }
        assert forall|u: Seq<char>|
            enters(start, spot@, di as int, u) implies ks.contains(u) by {
            assert(spot@.contains_key(u));
        }
        assert(dexes@[di as int]@.partials =~= goal.partials);
        assert forall|j: int| 0 <= j < start.len() implies #[trigger] dex_views(dexes@)[j]
            == start.update(di as int, goal)[j] by {
            if j == di {
                assert(dex_views(dexes@)[j] == dexes@[j]@);
            }
        }
        assert(dex_views(dexes@) =~= start.update(di as int, goal));
    }
}

/// Entering users on earlier dexes does not change who enters on dex `i`.
proof fn lemma_holders_apart(
    now: Seq<DexModel>,
    start: Seq<DexModel>,
    modes: Map<Seq<char>, AccountMode>,
    spot: Map<Seq<char>, Map<u32, i64>>,
    i: int,
)
    requires
        0 <= i < start.len() == now.len(),
        forall|j: int|
            0 <= j < start.len() ==> #[trigger] now[j] == (if j < i {
                with_holders(start, modes, spot, j)
            } else {
                start[j]
            }),
    ensures
        first_with_its_token(now, i) == first_with_its_token(start, i),
        with_holders(now, modes, spot, i) == with_holders(start, modes, spot, i),
{
    assert(forall|j: int|
        0 <= j < start.len() ==> (#[trigger] now[j]).collateral_token
            == start[j].collateral_token);
    assert(now[i] == start[i]);
    let token = start[i].collateral_token;
    if first_with_its_token(now, i) {
        assert forall|j: int| 0 <= j < i implies (#[trigger] start[j]).collateral_token
            != start[i].collateral_token by {
            assert(now[j].collateral_token != now[i].collateral_token);
        }
    }
    if first_with_its_token(start, i) {
        assert forall|j: int| 0 <= j < i implies (#[trigger] now[j]).collateral_token
            != now[i].collateral_token by {
            assert(start[j].collateral_token != start[i].collateral_token);
        }
        assert forall|u: Seq<char>| enters(now, spot, i, u) == enters(start, spot, i, u) by {
            if known_with(now, token, u) {
                let j = choose|j: int|
                    0 <= j < now.len() && now[j].collateral_token == token && #[trigger] knows(
                        now[j],
                        u,
                    );
                assert(j >= i);
                assert(knows(start[j], u));
            }
            if known_with(start, token, u) {
                let j = choose|j: int|
                    0 <= j < start.len() && start[j].collateral_token == token && #[trigger] knows(
                        start[j],
                        u,
                    );
                assert(start[j].collateral_token == token);
                assert(j >= i);
                assert(knows(now[j], u));
            }
        }
    }
    assert(with_holders(now, modes, spot, i).partials =~= with_holders(
        start,
        modes,
        spot,
        i,
    ).partials);
}

/// Enters every user who holds the collateral of a dex on the first dex with it, unless a dex with it
/// knows them.
fn enter_holders(
    dexes: &mut Vec<DexState>,
    modes: &StrMap<AccountMode>,
    spot: &StrMap<AssetMap<i64>>,
)
    ensures
        dex_views(final(dexes)@) == Seq::new(
            old(dexes)@.len(),
            |i: int| with_holders(dex_views(old(dexes)@), modes@, spot@, i),
        ),
{
    let ghost start = dex_views(dexes@);
    let mut i: usize = 0;
    while i < dexes.len()
        invariant
            i <= dexes@.len() == start.len(),
            forall|j: int|
                0 <= j < start.len() ==> #[trigger] dex_views(dexes@)[j] == (if j < i {
                    with_holders(start, modes@, spot@, j)
                } else {
                    start[j]
                }),
        decreases dexes@.len() - i,
    {
        proof {
            lemma_holders_apart(dex_views(dexes@), start, modes@, spot@, i as int);
        }
        if is_first_with_its_token(dexes, i) {
            enter_holders_on(dexes, i, modes, spot);
            assert(dex_views(dexes@).len() == dexes@.len());
        } else {
            assert(with_holders(start, modes@, spot@, i as int) =~= start[i as int]);
        }
        i = i + 1;
    }
    assert(dex_views(dexes@) =~= Seq::new(
        start.len(),
        |i: int| with_holders(start, modes@, spot@, i),
    ));
}

/// Gives a cross leverage from the order books to assets without a setting.
fn put_defaults(m: &mut AssetMap<Leverage>, levs: &AssetMap<u32>)
    ensures
        final(m)@ == with_defaults(old(m)@, levs@),
{
    let ghost start = m@;
    let n: usize = levs.len();
    let ghost ks = levs.keys();
    let mut i: usize = 0;
    proof {
        crate::strmap::lemma_take_all(ks);
    }
    while i < n
        invariant
            i <= n == ks.len(),
            ks == levs.keys(),
            levs@.dom() == ks.to_set(),
            forall|a: u32| #[trigger]
                m@.contains_key(a) <==> start.contains_key(a) || ks.take(i as int).contains(a),
            forall|a: u32| #[trigger]
                m@.contains_key(a) ==> m@[a] == (if start.contains_key(a) {
                    start[a]
                } else {
                    Leverage::Cross(levs@[a])
                }),
        decreases n - i,
    {
        let a: u32 = levs.key_at(i);
        let v: u32 = *levs.val_at(i);
        proof {
            crate::strmap::lemma_take_one(ks, i as int);
        }
        if !m.contains_key(a) {
            m.insert(a, Leverage::Cross(v));
        }
        i = i + 1;
    }
    proof {
        crate::strmap::lemma_take_all(ks);
        assert forall|a: u32| levs@.contains_key(a) <==> #[trigger] ks.contains(a) by {
            assert(ks.to_set().contains(a) <==> ks.contains(a));
        }
        assert(m@ =~= with_defaults(start, levs@));
    }
}

impl DexState {
    /// Gives the users of the dex the settings from its order books.
    fn give_settings(&mut self, levs: &StrMap<AssetMap<u32>>)
        ensures
            final(self)@ == with_settings(old(self)@, levs@),
    {
        let ghost before = self@;
        let ghost goal = with_settings(before, levs@);
        let n: usize = levs.len();
        let ghost ks = levs.keys();
        let mut i: usize = 0;
        proof {
            crate::strmap::lemma_take_all(ks);
        }
        while i < n
            invariant
                i <= n == ks.len(),
                ks == levs.keys(),
                ks.no_duplicates(),
                levs@.dom() == ks.to_set(),
                goal == with_settings(before, levs@),
                self@ == (DexModel {
                    users: self.users@,
                    partials: self.users_without_positions@,
                    ..before
                }),
                self.users@.dom() =~= before.users.dom(),
                self.users_without_positions@.dom() =~= before.partials.dom(),
                forall|u: Seq<char>| #[trigger]
                    before.users.contains_key(u) ==> self.users@[u] == (if ks.take(
                        i as int,
                    ).contains(u) {
                        goal.users[u]
                    } else {
                        before.users[u]
                    }),
                forall|u: Seq<char>| #[trigger]
                    before.partials.contains_key(u) ==> self.users_without_positions@[u] == (
                    if ks.take(i as int).contains(u) {
                        goal.partials[u]
                    } else {
                        before.partials[u]
                    }),
            decreases n - i,
        {
            let u = levs.key_at(i);
            let own = levs.val_at(i);
            proof {
                crate::strmap::lemma_take_one(ks, i as int);
            }
            if let Some(us) = self.users.get_mut(u.as_str()) {
                put_defaults(&mut us.leverage_settings, own);
            }
            if let Some(p) = self.users_without_positions.get_mut(u.as_str()) {
                put_defaults(&mut p.leverage_settings, own);
            }
            i = i + 1;
        }
        proof {
            crate::strmap::lemma_take_all(ks);
            assert forall|u: Seq<char>| levs@.contains_key(u) <==> #[trigger] ks.contains(u) by {
                assert(ks.to_set().contains(u) <==> ks.contains(u));
            }
            assert(self.users@ =~= goal.users);
            assert(self.users_without_positions@ =~= goal.partials);
        }
    }
}

/// Gives the users of every dex the settings from its order books.
fn give_all_settings(dexes: &mut Vec<DexState>, settings: &Vec<StrMap<AssetMap<u32>>>)
    ensures
        dex_views(final(dexes)@) == Seq::new(
            old(dexes)@.len(),
            |i: int|
                if i < settings@.len() {
                    with_settings(dex_views(old(dexes)@)[i], settings@[i]@)
                } else {
                    dex_views(old(dexes)@)[i]
                },
        ),
{
    let ghost start = dex_views(dexes@);
    let mut i: usize = 0;
    while i < dexes.len() && i < settings.len()
        invariant
            i <= dexes@.len() == start.len(),
            i <= settings@.len(),
            forall|j: int|
                0 <= j < start.len() ==> (#[trigger] dexes@[j])@ == (if j < i {
                    with_settings(start[j], settings@[j]@)
                } else {
                    start[j]
                }),
        decreases dexes@.len() - i,
    {
        let ghost was = dexes@;
        dexes[i].give_settings(&settings[i]);
        proof {
            assert forall|j: int| 0 <= j < start.len() && j != i implies #[trigger] dexes@[j]
                == was[j] by {}
        }
        i = i + 1;
    }
    assert(dex_views(dexes@) =~= Seq::new(
        start.len(),
        |i: int|
            if i < settings@.len() {
                with_settings(start[i], settings@[i]@)
            } else {
                start[i]
            },
    ));
}

fn dex_names(dexes: &Vec<DexState>) -> (r: StrMap<u32>)
    ensures
        r@ == names_of(dex_views(dexes@), dexes@.len() as int),
{
    let ghost v = dex_views(dexes@);
    let mut r: StrMap<u32> = StrMap::new();
    let empty = String::new();
    assert(empty@ =~= Seq::<char>::empty());
    r.insert(empty, 0);
    let mut i: usize = 0;
    while i < dexes.len()
        invariant
            i <= dexes@.len(),
            v == dex_views(dexes@),
            r@ == names_of(v, i as int),
        decreases dexes@.len() - i,
    {
        assert(v[i as int] == dexes@[i as int]@);
        if dexes[i].universe.len() > 0 {
            assert(v[i as int].universe[0] == dexes@[i as int].universe@[0]@);
            let name = &dexes[i].universe[0].name;
            if contains_char(name.as_str(), ':') {
                r.insert(text_before(name.as_str(), ':'), dexes[i].pdi);
            }
        }
        i = i + 1;
    }
    r
}

/// Why a snapshot could not be read: it is not of the expected form.
#[derive(Debug, Clone, Copy, PartialEq, Eq, Structural)]
pub struct SnapshotError;

/// The state that a snapshot holds.
fn parse_root(cur: &mut Reader) -> (r: Result<LiquidationState, MsgpackError>)
    ensures
        match root_at(old(cur)@) {
            Some(a) => r is Ok && r->Ok_0@ == finished(a),
            None => r is Err,
        },
{
    cur.map_seek("exchange")?;
    let root = parse_exchange(cur)?;
    let ghost a = root@;
    let Root { dexes, coins, modes, portfolio_margin, spot, borrows, vaults, settings } = root;
    let mut dexes = dexes;
    let names = dex_names(&dexes);
    enter_moded(&mut dexes, &modes);
    give_accounts(&mut dexes, &modes, &spot);
    assert(dex_views(dexes@) =~= account_dexes(a));
    enter_holders(&mut dexes, &modes, &spot);
    assert(dex_views(dexes@) =~= holder_dexes(a));
    give_all_settings(&mut dexes, &settings);
    assert(dex_views(dexes@) =~= finished_dexes(a));
    let state = LiquidationState {
        dex_states: dexes,
        coin_to_dex_asset: coins,
        processed_withdrawal_nonces: HashSet::new(),
        processed_vault_withdrawals: StrMap::new(),
        positions_needing_leverage_fix: Vec::new(),
        event_log: None,
        unified_balances: spot,
        user_action_counts: StrMap::new(),
        borrow_lend_states: borrows,
        portfolio_margin_users: portfolio_margin,
        vault_states: vaults,
        mark_prices: AssetMap::new(),
        dex_name_to_pdi: names,
    };
    assert(state@ =~= finished(a));
    Ok(state)
}

/// Reads the state from the bytes of a snapshot. The mark prices are left empty: what they start
/// from is listed by `initial_marks`.
pub fn load_from_rmp(data: &[u8]) -> (r: Result<LiquidationState, SnapshotError>)
    ensures
        match root_at(data@) {
            Some(a) => r is Ok && r->Ok_0@ == finished(a),
            None => r == Err::<LiquidationState, SnapshotError>(SnapshotError),
        },
{
    let mut cur = Reader::new(data);
    match parse_root(&mut cur) {
        Ok(state) => Ok(state),
        Err(_) => Err(SnapshotError),
    }
}

// ── What the mark prices start from ──────────────────────────────────────

/// An oracle price that a mark price starts from. The price in USD is `raw` divided by ten to the
/// power of six less the decimals.
#[derive(Debug, Clone, Copy, PartialEq, Eq, Structural)]
pub struct OracleMark {
    pub dex: usize,
    pub asset: u32,
    pub raw: i64,
    pub sz_decimals: u32,
}

/// The first `n` oracle prices of a dex that are not zero.
pub open spec fn dex_marks(d: DexModel, di: usize, n: int) -> Seq<OracleMark>
    decreases n,
{
    if n <= 0 {
        Seq::empty()
    } else if d.oracle_prices[n - 1] == 0 {
        dex_marks(d, di, n - 1)
    } else {
        dex_marks(d, di, n - 1).push(
            OracleMark {
                dex: di,
                asset: (n - 1) as u32,
                raw: d.oracle_prices[n - 1],
                sz_decimals: if n - 1 < d.universe.len() {
                    d.universe[n - 1].sz_decimals
                } else {
                    0
                },
            },
        )
    }
}

/// The oracle prices of the first `n` dexes that are not zero.
pub open spec fn all_marks(dexes: Seq<DexModel>, n: int) -> Seq<OracleMark>
    decreases n,
{
    if n <= 0 {
        Seq::empty()
    } else {
        all_marks(dexes, n - 1) + dex_marks(
            dexes[n - 1],
            (n - 1) as usize,
            dexes[n - 1].oracle_prices.len() as int,
        )
    }
}

impl LiquidationState {
    /// The oracle prices that the mark prices start from, so that isolated margin is computed with
    /// the right price from the very first fill.
    pub fn initial_marks(&self) -> (r: Vec<OracleMark>)
        ensures
            r@ == all_marks(self@.dexes, self@.dexes.len() as int),
    {
        let mut r: Vec<OracleMark> = Vec::new();
        let mut i: usize = 0;
        while i < self.dex_states.len()
            invariant
                i <= self.dex_states@.len(),
                r@ == all_marks(self@.dexes, i as int),
            decreases self.dex_states@.len() - i,
        {
            let d = &self.dex_states[i];
            let ghost seen = r@;
            let mut k: usize = 0;
            assert(r@ =~= seen + dex_marks(d@, i, 0));
            while k < d.oracle_prices.len()
                invariant
                    k <= d.oracle_prices@.len(),
                    r@ == seen + dex_marks(d@, i, k as int),
                decreases d.oracle_prices@.len() - k,
            {
                let raw: i64 = d.oracle_prices[k];
                if raw != 0 {
                    let sz_decimals: u32 = if k < d.universe.len() {
                        assert(d@.universe[k as int] == d.universe@[k as int]@);
                        d.universe[k].sz_decimals
                    } else {
                        0
                    };
                    #[verifier::truncate]
                    let asset: u32 = k as u32;
                    r.push(OracleMark { dex: i, asset, raw, sz_decimals });
                }
                assert(r@ =~= seen + dex_marks(d@, i, k + 1));
                k = k + 1;
            }
            assert(self@.dexes[i as int] == d@);
            i = i + 1;
        }
        r
    }

    /// Whether every known coin points at an asset that its dex lists. So it is in a snapshot that
    /// gives the list of its dexes once.
    pub fn has_valid_coins(&self) -> (r: bool)
        ensures
            r == self@.coins_valid(),
    {
        let n: usize = self.coin_to_dex_asset.len();
        let ghost ks = self.coin_to_dex_asset.keys();
        let mut i: usize = 0;
        while i < n
            invariant
                i <= n == ks.len(),
                ks == self.coin_to_dex_asset.keys(),
                self@.coins == self.coin_to_dex_asset@,
                forall|j: int|
                    0 <= j < i ==> {
                        let at = self@.coins[#[trigger] ks[j]];
                        at.0 < self@.dexes.len() && at.1 < self@.dexes[at.0 as int].universe.len()
                    },
            decreases n - i,
        {
            let at: (usize, usize) = *self.coin_to_dex_asset.val_at(i);
            if at.0 >= self.dex_states.len() {
                return false;
            }
            assert(self@.dexes[at.0 as int] == self.dex_states@[at.0 as int]@);
            if at.1 >= self.dex_states[at.0].universe.len() {
                return false;
            }
            i = i + 1;
        }
        proof {
            assert forall|c: Seq<char>| #[trigger] self@.coins.contains_key(c) implies self@.coins[c].0
                < self@.dexes.len() && self@.coins[c].1 < self@.dexes[self@.coins[c].0 as int].universe.len() by {
                assert(ks.to_set().contains(c));
                assert(ks[ks.index_of(c)] == c);
            }
        }
        true
    }
}

// ── Coins of a snapshot ──────────────────────────────────────────────────

/// Whether every coin points at the asset of its name that one of the dexes lists.
pub open spec fn coins_listed(coins: Map<Seq<char>, (usize, usize)>, dexes: Seq<DexModel>) -> bool {
    forall|c: Seq<char>| #[trigger]
        coins.contains_key(c) ==> coins[c].0 < dexes.len() && coins[c].1
            < dexes[coins[c].0 as int].universe.len() && dexes[coins[c].0 as int].universe[coins[c].1 as int].name
            == c
}

/// Whether the name of every asset that one of the dexes lists is a coin.
pub open spec fn assets_entered(coins: Map<Seq<char>, (usize, usize)>, dexes: Seq<DexModel>) -> bool {
    forall|di: int, ai: int|
        0 <= di < dexes.len() && 0 <= ai < dexes[di].universe.len() ==> coins.contains_key(
            (#[trigger] dexes[di].universe[ai]).name,
        )
}

proof fn lemma_coins_entered(
    coins: Map<Seq<char>, (usize, usize)>,
    dexes: Seq<DexModel>,
    di: usize,
    n: int,
)
    requires
        coins_listed(coins, dexes),
        di < dexes.len(),
        n <= dexes[di as int].universe.len(),
        n <= usize::MAX,
    ensures
        coins_listed(coins_entered(coins, di, dexes[di as int], n), dexes),
        coins.dom().subset_of(coins_entered(coins, di, dexes[di as int], n).dom()),
        forall|ai: int|
            0 <= ai < n ==> coins_entered(coins, di, dexes[di as int], n).contains_key(
                (#[trigger] dexes[di as int].universe[ai]).name,
            ),
    decreases n,
{
    if n > 0 {
        lemma_coins_entered(coins, dexes, di, n - 1);
    }
}

/// The length of an array fits in 32 bits.
proof fn lemma_array_length(s: Seq<u8>)
    ensures
        match crate::msgpack::array_length(s) {
            crate::msgpack::Out::Good(n, _) => n <= u32::MAX,
            _ => true,
        },
{
    reveal_with_fuel(crate::msgpack::be, 5);
}

/// The number of assets that a list of assets grows to.
proof fn lemma_universe_fits(s: Seq<u8>, n: nat, acc: Seq<crate::clearing_house::AssetModel>)
    ensures
        match walk::items(s, n, acc, |a, s| walk::one_asset(a, s)) {
            Some((v, _)) => v.len() == acc.len() + n,
            None => true,
        },
    decreases n,
{
    if n > 0 {
        let f: spec_fn(Seq<crate::clearing_house::AssetModel>, Seq<u8>) -> Option<
            (Seq<crate::clearing_house::AssetModel>, Seq<u8>),
        > = |a, s| walk::one_asset(a, s);
        if let Some((a, t)) = walk::one_asset(acc, s) {
            assert(f(acc, s) == Some((a, t)));
            lemma_universe_fits(t, (n - 1) as nat, a);
        }
    }
}

proof fn lemma_meta_fits(s: Seq<u8>, n: nat, acc: DexModel)
    requires
        acc.universe.len() <= u32::MAX,
    ensures
        match walk::fields(s, n, acc, |k, a, s| dex::meta_field(k, a, s)) {
            Some((d, _)) => d.universe.len() <= u32::MAX,
            None => true,
        },
    decreases n,
{
    if n > 0 {
        let f: spec_fn(Seq<char>, DexModel, Seq<u8>) -> Option<(DexModel, Seq<u8>)> = |k, a, s|
            dex::meta_field(k, a, s);
        if let crate::msgpack::Out::Good(k, t) = crate::msgpack::text(s) {
            if let Some((d, u)) = f(k, acc, t) {
                lemma_array_length(t);
                if let crate::msgpack::Out::Good(m, v) = crate::msgpack::array_length(t) {
                    lemma_universe_fits(v, m, Seq::empty());
                }
                lemma_meta_fits(u, (n - 1) as nat, d);
            }
        }
    }
}

proof fn lemma_oracle_fits(s: Seq<u8>, n: nat, acc: DexModel)
    ensures
        match walk::fields(s, n, acc, |k, a, s| dex::oracle_field(k, a, s)) {
            Some((d, _)) => d.universe == acc.universe,
            None => true,
        },
    decreases n,
{
    if n > 0 {
        let f: spec_fn(Seq<char>, DexModel, Seq<u8>) -> Option<(DexModel, Seq<u8>)> = |k, a, s|
            dex::oracle_field(k, a, s);
        if let crate::msgpack::Out::Good(k, t) = crate::msgpack::text(s) {
            if let Some((d, u)) = f(k, acc, t) {
                lemma_oracle_fits(u, (n - 1) as nat, d);
            }
        }
    }
}

/// A dex of a snapshot lists no more assets than an array can hold.
proof fn lemma_dex_fits(s: Seq<u8>, n: nat, acc: DexModel)
    requires
        acc.universe.len() <= u32::MAX,
    ensures
        match walk::fields(s, n, acc, |k, a, s| dex::dex_field(k, a, s)) {
            Some((d, _)) => d.universe.len() <= u32::MAX,
            None => true,
        },
    decreases n,
{
    if n > 0 {
        let f: spec_fn(Seq<char>, DexModel, Seq<u8>) -> Option<(DexModel, Seq<u8>)> = |k, a, s|
            dex::dex_field(k, a, s);
        if let crate::msgpack::Out::Good(k, t) = crate::msgpack::text(s) {
            if let Some((d, u)) = f(k, acc, t) {
                if let crate::msgpack::Out::Good(m, v) = crate::msgpack::map_length(t) {
                    lemma_meta_fits(v, m, acc);
                    lemma_oracle_fits(v, m, acc);
                }
                lemma_dex_fits(u, (n - 1) as nat, d);
            }
        }
    }
}

proof fn lemma_dex_items(s: Seq<u8>, di: usize, n: nat, a: RootModel)
    requires
        di == a.dexes.len(),
        di + n <= u32::MAX,
        coins_listed(a.coins, a.dexes),
        assets_entered(a.coins, a.dexes),
    ensures
        match dex_items(s, di, n, a) {
            Some((b, _)) => coins_listed(b.coins, b.dexes) && assets_entered(b.coins, b.dexes),
            None => true,
        },
    decreases n,
{
    if n > 0 {
        if let Some((d, t)) = dex::dex_at(s) {
            let more = a.dexes.push(d);
            let coins = coins_entered(a.coins, di, d, d.universe.len() as int);
            assert(coins_listed(a.coins, more)) by {
                assert forall|c: Seq<char>| #[trigger] a.coins.contains_key(c) implies a.coins[c].0
                    < more.len() && a.coins[c].1 < more[a.coins[c].0 as int].universe.len()
                    && more[a.coins[c].0 as int].universe[a.coins[c].1 as int].name == c by {
                    assert(more[a.coins[c].0 as int] == a.dexes[a.coins[c].0 as int]);
                }
            }
            if let crate::msgpack::Out::Good(m, v) = crate::msgpack::map_length(s) {
                lemma_dex_fits(v, m, dex::no_dex());
            }
            lemma_coins_entered(a.coins, more, di, d.universe.len() as int);
            assert(assets_entered(coins, more)) by {
                assert forall|i: int, ai: int|
                    0 <= i < more.len() && 0 <= ai < more[i].universe.len() implies coins.contains_key(
                    (#[trigger] more[i].universe[ai]).name,
                ) by {
                    if i < di {
                        assert(more[i] == a.dexes[i]);
                        assert(a.coins.contains_key(a.dexes[i].universe[ai].name));
                    } else {
                        assert(more[di as int].universe[ai].name == more[i].universe[ai].name);
                    }
                }
            }
            lemma_dex_items(
                t,
                (di + 1) as usize,
                (n - 1) as nat,
                RootModel { dexes: more, coins, ..a },
            );
        }
    }
}

/// How often the list of dexes is given among the next `n` fields of the ledger.
pub open spec fn lists_in_locus(s: Seq<u8>, n: nat, a: RootModel) -> nat
    decreases n,
{
    if n == 0 {
        0
    } else {
        match crate::msgpack::text(s) {
            crate::msgpack::Out::Good(k, t) => match locus_field(k, a, t) {
                Some((b, u)) => lists_in_locus(u, (n - 1) as nat, b) + if k == "cls"@ {
                    1nat
                } else {
                    0nat
                },
                None => 0,
            },
            _ => 0,
        }
    }
}

/// How often the list of dexes is given among the next `n` fields of the exchange.
pub open spec fn lists_in_exchange(s: Seq<u8>, n: nat, a: RootModel) -> nat
    decreases n,
{
    if n == 0 {
        0
    } else {
        match crate::msgpack::text(s) {
            crate::msgpack::Out::Good(k, t) => match exchange_field(k, a, t) {
                Some((b, u)) => lists_in_exchange(u, (n - 1) as nat, b) + match crate::msgpack::map_length(
                    t,
                ) {
                    crate::msgpack::Out::Good(m, v) if k == "locus"@ => lists_in_locus(v, m, a),
                    _ => 0,
                },
                None => 0,
            },
            _ => 0,
        }
    }
}

/// How often a snapshot gives the list of its dexes.
pub open spec fn dex_lists(data: Seq<u8>) -> nat {
    match crate::msgpack::seek_map(data, "exchange"@) {
        Some(t) => match crate::msgpack::map_length(t) {
            crate::msgpack::Out::Good(n, u) => lists_in_exchange(u, n, no_root()),
            _ => 0,
        },
        None => 0,
    }
}

/// Whether the coins and the dexes that have been read fit together, with so many lists of dexes still
/// to come.
spec fn coins_fit(a: RootModel, lists: nat) -> bool {
    &&& coins_listed(a.coins, a.dexes)
    &&& assets_entered(a.coins, a.dexes)
    &&& lists > 0 ==> lists == 1 && a.dexes.len() == 0 && a.coins == Map::<
        Seq<char>,
        (usize, usize),
    >::empty()
}

proof fn lemma_locus_coins(s: Seq<u8>, n: nat, a: RootModel, later: nat)
    requires
        coins_fit(a, lists_in_locus(s, n, a) + later),
    ensures
        match walk::fields(s, n, a, |k, a, s| locus_field(k, a, s)) {
            Some((b, _)) => coins_fit(b, later),
            None => true,
        },
    decreases n,
{
    if n > 0 {
        let f: spec_fn(Seq<char>, RootModel, Seq<u8>) -> Option<(RootModel, Seq<u8>)> = |k, a, s|
            locus_field(k, a, s);
        if let crate::msgpack::Out::Good(k, t) = crate::msgpack::text(s) {
            if let Some((b, u)) = f(k, a, t) {
                if k == "cls"@ {
                    lemma_array_length(t);
                    if let crate::msgpack::Out::Good(m, v) = crate::msgpack::array_length(t) {
                        lemma_dex_items(v, 0, m, a);
                    }
                } else {
                    assert(b.dexes == a.dexes && b.coins == a.coins);
                }
                lemma_locus_coins(u, (n - 1) as nat, b, later);
            }
        }
    }
}

proof fn lemma_exchange_coins(s: Seq<u8>, n: nat, a: RootModel)
    requires
        coins_fit(a, lists_in_exchange(s, n, a)),
    ensures
        match walk::fields(s, n, a, |k, a, s| exchange_field(k, a, s)) {
            Some((b, _)) => coins_fit(b, 0),
            None => true,
        },
    decreases n,
{
    if n > 0 {
        let f: spec_fn(Seq<char>, RootModel, Seq<u8>) -> Option<(RootModel, Seq<u8>)> = |k, a, s|
            exchange_field(k, a, s);
        if let crate::msgpack::Out::Good(k, t) = crate::msgpack::text(s) {
            if let Some((b, u)) = f(k, a, t) {
                let later = lists_in_exchange(u, (n - 1) as nat, b);
                if k == "locus"@ {
                    if let crate::msgpack::Out::Good(m, v) = crate::msgpack::map_length(t) {
                        lemma_locus_coins(v, m, a, later);
                    }
                } else {
                    assert(b.dexes == a.dexes && b.coins == a.coins);
                }
                lemma_exchange_coins(u, (n - 1) as nat, b);
            }
        }
    }
}

/// In the state that is loaded from a snapshot that gives the list of its dexes once, every known coin
/// points at the asset of its name, and the name of every asset is a known coin.
pub proof fn law_listed_coins_are_valid(data: Seq<u8>)
    requires
        dex_lists(data) <= 1,
    ensures
        match root_at(data) {
            Some(a) => {
                let end = finished(a);
                &&& end.coins_valid()
                &&& coins_listed(end.coins, end.dexes)
                &&& assets_entered(end.coins, end.dexes)
            },
            None => true,
        },
{
    if let Some(t) = crate::msgpack::seek_map(data, "exchange"@) {
        if let crate::msgpack::Out::Good(n, u) = crate::msgpack::map_length(t) {
            lemma_exchange_coins(u, n, no_root());
        }
    }
    if let Some(a) = root_at(data) {
        let end = finished(a);
        assert(coins_fit(a, 0));
        assert forall|i: int| 0 <= i < end.dexes.len() implies (#[trigger] end.dexes[i]).universe
            == a.dexes[i].universe by {}
        assert forall|c: Seq<char>| #[trigger] end.coins.contains_key(c) implies end.coins[c].0
            < end.dexes.len() && end.coins[c].1 < end.dexes[end.coins[c].0 as int].universe.len()
            && end.dexes[end.coins[c].0 as int].universe[end.coins[c].1 as int].name == c by {
            let i = end.coins[c].0 as int;
            assert(end.dexes[i].universe == a.dexes[i].universe);
        }
        assert forall|i: int, ai: int|
            0 <= i < end.dexes.len() && 0 <= ai < end.dexes[i].universe.len() implies end.coins.contains_key(
            (#[trigger] end.dexes[i].universe[ai]).name,
        ) by {
            assert(a.dexes[i].universe[ai].name == end.dexes[i].universe[ai].name);
        }
    }
}

} // verus!

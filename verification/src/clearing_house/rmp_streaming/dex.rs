//! One dex of a snapshot: its market, its oracle prices and its users.
use crate::assetmap::AssetMap;
use crate::clearing_house::rmp_streaming as walk;
use crate::clearing_house::{
    AssetMeta, AssetModel, DexModel, DexState, Leverage, MarginMode, MarginTier, Position,
    UserModel, UserState,
};
use crate::msgpack::{MsgpackError, Reader};
use crate::strmap::StrMap;
use crate::text::str_eq;
use vstd::prelude::*;

verus! {

// ── Default leverage ─────────────────────────────────────────────────────

/// A leverage, at most 20.
pub open spec fn capped(lev: u32) -> u32 {
    if lev < 20 {
        lev
    } else {
        20
    }
}

/// The margin table id of an asset; 20 for one that the universe lacks.
pub open spec fn table_of(universe: Seq<AssetModel>, asset: u32) -> u32 {
    if asset < universe.len() {
        universe[asset as int].margin_table_id
    } else {
        20
    }
}

/// The largest leverage of a market. On the main dex that is the first tier of the asset's margin
/// table, or the table's id where there is no such table. On other dexes it is the position's own
/// table id, or else the asset's.
pub open spec fn market_max(
    universe: Seq<AssetModel>,
    tables: Map<u32, Seq<MarginTier>>,
    pdi: u32,
    asset: u32,
    own: u32,
) -> u32 {
    let id = table_of(universe, asset);
    if pdi > 0 {
        if own > 0 {
            capped(own)
        } else {
            capped(id)
        }
    } else if asset < universe.len() && tables.contains_key(id) && tables[id].len() > 0 {
        capped(tables[id][0].max_leverage)
    } else {
        capped(id)
    }
}

/// The leverage of a market where none is given: isolated where the market allows nothing else.
pub open spec fn market_default(
    universe: Seq<AssetModel>,
    tables: Map<u32, Seq<MarginTier>>,
    pdi: u32,
    asset: u32,
    own: u32,
) -> Leverage {
    let max = market_max(universe, tables, pdi, asset, own);
    let isolated = if asset < universe.len() {
        !(universe[asset as int].margin_mode is Normal)
    } else {
        pdi > 0
    };
    if isolated {
        Leverage::Isolated { leverage: max, raw_usd: 0 }
    } else {
        Leverage::Cross(max)
    }
}

/// The positions, with the market's leverage in place of a cross leverage of zero.
pub open spec fn resolved_positions(
    universe: Seq<AssetModel>,
    tables: Map<u32, Seq<MarginTier>>,
    pdi: u32,
    m: Map<u32, Position>,
) -> Map<u32, Position> {
    Map::new(
        |a: u32| m.contains_key(a),
        |a: u32|
            if m[a].leverage == Leverage::Cross(0) {
                Position {
                    leverage: market_default(universe, tables, pdi, a, m[a].margin_table_id),
                    ..m[a]
                }
            } else {
                m[a]
            },
    )
}

/// The settings, with the market's leverage in place of a cross leverage of zero.
pub open spec fn resolved_settings(
    universe: Seq<AssetModel>,
    tables: Map<u32, Seq<MarginTier>>,
    pdi: u32,
    m: Map<u32, Leverage>,
) -> Map<u32, Leverage> {
    Map::new(
        |a: u32| m.contains_key(a),
        |a: u32|
            if m[a] == Leverage::Cross(0) {
                market_default(universe, tables, pdi, a, 0)
            } else {
                m[a]
            },
    )
}

/// A user, with the market's leverage in place of every cross leverage of zero.
pub open spec fn resolved_user(
    universe: Seq<AssetModel>,
    tables: Map<u32, Seq<MarginTier>>,
    pdi: u32,
    u: UserModel,
) -> UserModel {
    UserModel {
        positions: resolved_positions(universe, tables, pdi, u.positions),
        leverage_settings: resolved_settings(universe, tables, pdi, u.leverage_settings),
        ..u
    }
}

/// A dex whose users have the market's leverage in place of every cross leverage of zero.
pub open spec fn resolved_dex(d: DexModel) -> DexModel {
    DexModel {
        users: Map::new(
            |u: Seq<char>| d.users.contains_key(u),
            |u: Seq<char>| resolved_user(d.universe, d.margin_tables, d.pdi, d.users[u]),
        ),
        ..d
    }
}

fn cap(lev: u32) -> (r: u32)
    ensures
        r == capped(lev),
{
    if lev < 20 {
        lev
    } else {
        20
    }
}

fn default_leverage(
    universe: &Vec<AssetMeta>,
    tables: &AssetMap<Vec<MarginTier>>,
    pdi: u32,
    asset: u32,
    own: u32,
) -> (r: Leverage)
    ensures
        r == market_default(walk::asset_views(universe@), tables@, pdi, asset, own),
{
    let ghost views = walk::asset_views(universe@);
    let known = (asset as u64) < universe.len() as u64;
    let id: u32 = if known {
        universe[asset as usize].margin_table_id
    } else {
        20
    };
    let mut max: u32 = cap(id);
    if pdi > 0 {
        if own > 0 {
            max = cap(own);
        }
    } else if known {
        if let Some(tiers) = tables.get(id) {
            if tiers.len() > 0 {
                max = cap(tiers[0].max_leverage);
            }
        }
    }
    let isolated = if known {
        match universe[asset as usize].margin_mode {
            MarginMode::Normal => false,
            _ => true,
        }
    } else {
        pdi > 0
    };
    assert(known ==> views[asset as int] == universe@[asset as int]@);
    if isolated {
        Leverage::Isolated { leverage: max, raw_usd: 0 }
    } else {
        Leverage::Cross(max)
    }
}

fn is_cross_zero(l: Leverage) -> (r: bool)
    ensures
        r == (l == Leverage::Cross(0)),
{
    match l {
        Leverage::Cross(v) => v == 0,
        _ => false,
    }
}

fn resolve_positions(
    m: &mut AssetMap<Position>,
    universe: &Vec<AssetMeta>,
    tables: &AssetMap<Vec<MarginTier>>,
    pdi: u32,
)
    ensures
        final(m)@ == resolved_positions(walk::asset_views(universe@), tables@, pdi, old(m)@),
{
    let ghost start = m@;
    let ghost goal = resolved_positions(walk::asset_views(universe@), tables@, pdi, start);
    let n: usize = m.len();
    let ghost ks = m.keys();
    let mut i: usize = 0;
    while i < n
        invariant
            i <= n == ks.len(),
            ks == m.keys(),
            crate::assetmap::ascending(ks),
            start.dom() == ks.to_set(),
            m@.dom() =~= start.dom(),
            goal == resolved_positions(walk::asset_views(universe@), tables@, pdi, start),
            forall|j: int| 0 <= j < i ==> m@[#[trigger] ks[j]] == goal[ks[j]],
            forall|j: int| i <= j < n ==> m@[#[trigger] ks[j]] == start[ks[j]],
        decreases n - i,
    {
        let a: u32 = m.key_at(i);
        let p = *m.val_at(i);
        if is_cross_zero(p.leverage) {
            let q = m.val_at_mut(i);
            q.leverage = default_leverage(universe, tables, pdi, a, p.margin_table_id);
        }
        i = i + 1;
    }
    proof {
        assert forall|a: u32| start.contains_key(a) implies m@[a] == goal[a] by {
            assert(ks.contains(a));
            assert(ks[ks.index_of(a)] == a);
        }
        assert(m@ =~= goal);
    }
}

fn resolve_settings(
    m: &mut AssetMap<Leverage>,
    universe: &Vec<AssetMeta>,
    tables: &AssetMap<Vec<MarginTier>>,
    pdi: u32,
)
    ensures
        final(m)@ == resolved_settings(walk::asset_views(universe@), tables@, pdi, old(m)@),
{
    let ghost start = m@;
    let ghost goal = resolved_settings(walk::asset_views(universe@), tables@, pdi, start);
    let n: usize = m.len();
    let ghost ks = m.keys();
    let mut i: usize = 0;
    while i < n
        invariant
            i <= n == ks.len(),
            ks == m.keys(),
            crate::assetmap::ascending(ks),
            start.dom() == ks.to_set(),
            m@.dom() =~= start.dom(),
            goal == resolved_settings(walk::asset_views(universe@), tables@, pdi, start),
            forall|j: int| 0 <= j < i ==> m@[#[trigger] ks[j]] == goal[ks[j]],
            forall|j: int| i <= j < n ==> m@[#[trigger] ks[j]] == start[ks[j]],
        decreases n - i,
    {
        let a: u32 = m.key_at(i);
        let l = *m.val_at(i);
        if is_cross_zero(l) {
            let q = m.val_at_mut(i);
            *q = default_leverage(universe, tables, pdi, a, 0);
        }
        i = i + 1;
    }
    proof {
        assert forall|a: u32| start.contains_key(a) implies m@[a] == goal[a] by {
            assert(ks.contains(a));
            assert(ks[ks.index_of(a)] == a);
        }
        assert(m@ =~= goal);
    }
}

/// Gives every position and setting that was read without a leverage the default of its market.
fn fixup_default_leverage(
    users: &mut StrMap<UserState>,
    universe: &Vec<AssetMeta>,
    tables: &AssetMap<Vec<MarginTier>>,
    pdi: u32,
)
    ensures
        final(users)@ == Map::new(
            |u: Seq<char>| old(users)@.contains_key(u),
            |u: Seq<char>|
                resolved_user(walk::asset_views(universe@), tables@, pdi, old(users)@[u]),
        ),
{
    let ghost start = users@;
    let ghost goal = Map::new(
        |u: Seq<char>| start.contains_key(u),
        |u: Seq<char>| resolved_user(walk::asset_views(universe@), tables@, pdi, start[u]),
    );
    let n: usize = users.len();
    let ghost ks = users.keys();
    let mut i: usize = 0;
    while i < n
        invariant
            i <= n == ks.len(),
            ks == users.keys(),
            ks.no_duplicates(),
            start.dom() == ks.to_set(),
            users@.dom() =~= start.dom(),
            goal == Map::new(
                |u: Seq<char>| start.contains_key(u),
                |u: Seq<char>| resolved_user(walk::asset_views(universe@), tables@, pdi, start[u]),
            ),
            forall|j: int| 0 <= j < i ==> users@[#[trigger] ks[j]] == goal[ks[j]],
            forall|j: int| i <= j < n ==> users@[#[trigger] ks[j]] == start[ks[j]],
        decreases n - i,
    {
        let u = users.val_at_mut(i);
        resolve_positions(&mut u.positions, universe, tables, pdi);
        resolve_settings(&mut u.leverage_settings, universe, tables, pdi);
        assert(ks.contains(ks[i as int]));
        i = i + 1;
    }
    proof {
        assert forall|u: Seq<char>| start.contains_key(u) implies users@[u] == goal[u] by {
            assert(ks.contains(u));
            assert(ks[ks.index_of(u)] == u);
        }
        assert(users@ =~= goal);
    }
}

// ── The dex ──────────────────────────────────────────────────────────────

/// The fields of a dex's market.
pub open spec fn meta_field(k: Seq<char>, a: DexModel, s: Seq<u8>) -> Option<(DexModel, Seq<u8>)> {
    if k == "universe"@ {
        match walk::universe_at(s) {
            Some((v, t)) => Some((DexModel { universe: v, ..a }, t)),
            None => None,
        }
    } else if k == "pdi"@ {
        match walk::an_int(s) {
            Some((v, t)) => Some((DexModel { pdi: v as u32, ..a }, t)),
            None => None,
        }
    } else if k == "marginTableIdToMarginTable"@ {
        match walk::tables_at(s) {
            Some((v, t)) => Some((DexModel { margin_tables: v, ..a }, t)),
            None => None,
        }
    } else if k == "collateralToken"@ {
        match walk::an_int(s) {
            Some((v, t)) => Some((DexModel { collateral_token: v as u32, ..a }, t)),
            None => None,
        }
    } else {
        walk::skip_then(s, a)
    }
}

/// The fields of a dex's oracle.
pub open spec fn oracle_field(k: Seq<char>, a: DexModel, s: Seq<u8>) -> Option<
    (DexModel, Seq<u8>),
> {
    if k == "pxs"@ {
        match walk::prices_at(s) {
            Some((v, t)) => Some((DexModel { oracle_prices: v, ..a }, t)),
            None => None,
        }
    } else {
        walk::skip_then(s, a)
    }
}

/// The fields of a dex.
pub open spec fn dex_field(k: Seq<char>, a: DexModel, s: Seq<u8>) -> Option<(DexModel, Seq<u8>)> {
    if k == "meta"@ {
        walk::in_map(s, a, |k, a, s| meta_field(k, a, s))
    } else if k == "oracle"@ {
        walk::in_map(s, a, |k, a, s| oracle_field(k, a, s))
    } else if k == "user_states"@ {
        match walk::user_states_at(s) {
            Some((v, t)) => Some((DexModel { users: v.users, partials: v.partials, ..a }, t)),
            None => None,
        }
    } else {
        walk::skip_then(s, a)
    }
}

/// A dex of which nothing has been read.
pub open spec fn no_dex() -> DexModel {
    DexModel {
        pdi: 0,
        universe: Seq::empty(),
        margin_tables: Map::empty(),
        oracle_prices: Seq::empty(),
        users: Map::empty(),
        collateral_token: 0,
        partials: Map::empty(),
    }
}

/// The dex that stands first.
pub open spec fn dex_at(s: Seq<u8>) -> Option<(DexModel, Seq<u8>)> {
    match walk::in_map(s, no_dex(), |k, a, s| dex_field(k, a, s)) {
        Some((d, t)) => Some((resolved_dex(d), t)),
        None => None,
    }
}

#[verifier::loop_isolation(false)]
fn parse_meta(cur: &mut Reader, dex: &mut DexState) -> (r: Result<(), MsgpackError>)
    ensures
        match walk::in_map(old(cur)@, old(dex)@, |k, a, s| meta_field(k, a, s)) {
            Some((v, t)) => r is Ok && final(dex)@ == v && final(cur)@ == t,
            None => r is Err,
        },
{
    let ghost f: spec_fn(Seq<char>, DexModel, Seq<u8>) -> Option<(DexModel, Seq<u8>)> = |k, a, s|
        meta_field(k, a, s);
    let ghost whole = walk::in_map(cur@, dex@, f);
    let n: u32 = cur.read_map_len()?;
    let mut i: u32 = 0;
    while i < n
        invariant
            i <= n,
            whole == walk::fields(cur@, (n - i) as nat, dex@, f),
        decreases n - i,
    {
        let ghost before = dex@;
        let k = cur.read_str_ref()?;
        if str_eq(k, "universe") {
            let u = walk::parse_universe(cur)?;
            dex.universe = u;
            assert(dex@ =~= (DexModel { universe: walk::asset_views(u@), ..before }));
        } else if str_eq(k, "pdi") {
            dex.pdi = walk::low32(cur.read_int()?);
        } else if str_eq(k, "marginTableIdToMarginTable") {
            dex.margin_tables = walk::parse_margin_tables(cur)?;
        } else if str_eq(k, "collateralToken") {
            dex.collateral_token = walk::low32(cur.read_int()?);
        } else {
            cur.skip_value()?;
        }
        i = i + 1;
    }
    Ok(())
}

#[verifier::loop_isolation(false)]
fn parse_oracle(cur: &mut Reader, dex: &mut DexState) -> (r: Result<(), MsgpackError>)
    ensures
        match walk::in_map(old(cur)@, old(dex)@, |k, a, s| oracle_field(k, a, s)) {
            Some((v, t)) => r is Ok && final(dex)@ == v && final(cur)@ == t,
            None => r is Err,
        },
{
    let ghost f: spec_fn(Seq<char>, DexModel, Seq<u8>) -> Option<(DexModel, Seq<u8>)> = |k, a, s|
        oracle_field(k, a, s);
    let ghost whole = walk::in_map(cur@, dex@, f);
    let n: u32 = cur.read_map_len()?;
    let mut i: u32 = 0;
    while i < n
        invariant
            i <= n,
            whole == walk::fields(cur@, (n - i) as nat, dex@, f),
        decreases n - i,
    {
        let k = cur.read_str_ref()?;
        if str_eq(k, "pxs") {
            dex.oracle_prices = walk::parse_oracle_prices(cur)?;
        } else {
            cur.skip_value()?;
        }
        i = i + 1;
    }
    Ok(())
}

#[verifier::loop_isolation(false)]
pub(crate) fn parse_clearinghouse(cur: &mut Reader) -> (r: Result<DexState, MsgpackError>)
    ensures
        walk::parsed(dex_at(old(cur)@), r, final(cur)@),
{
    let ghost f: spec_fn(Seq<char>, DexModel, Seq<u8>) -> Option<(DexModel, Seq<u8>)> = |k, a, s|
        dex_field(k, a, s);
    let ghost whole = walk::in_map(cur@, no_dex(), f);
    let n: u32 = cur.read_map_len()?;
    let mut dex = DexState {
        pdi: 0,
        universe: Vec::new(),
        margin_tables: AssetMap::new(),
        oracle_prices: Vec::new(),
        users: StrMap::new(),
        collateral_token: 0,
        users_without_positions: StrMap::new(),
    };
    assert(dex@ =~= no_dex());
    let mut i: u32 = 0;
    while i < n
        invariant
            i <= n,
            whole == walk::fields(cur@, (n - i) as nat, dex@, f),
        decreases n - i,
    {
        let k = cur.read_str_ref()?;
        if str_eq(k, "meta") {
            parse_meta(cur, &mut dex)?;
        } else if str_eq(k, "oracle") {
            parse_oracle(cur, &mut dex)?;
        } else if str_eq(k, "user_states") {
            let (users, partials) = walk::parse_user_states(cur)?;
            dex.users = users;
            dex.users_without_positions = partials;
        } else {
            cur.skip_value()?;
        }
        i = i + 1;
    }
    let ghost read = dex@;
    fixup_default_leverage(&mut dex.users, &dex.universe, &dex.margin_tables, dex.pdi);
    proof {
        assert(walk::asset_views(dex.universe@) =~= read.universe);
        assert(dex@ =~= resolved_dex(read));
    }
    Ok(dex)
}

} // verus!

//! What a state that was loaded from a snapshot knows of its users, told by what stands in the snapshot.
use crate::clearing_house::rmp_streaming as walk;
use crate::clearing_house::rmp_streaming::dex;
use crate::clearing_house::rmp_streaming::locus;
use crate::clearing_house::rmp_streaming::root::{
    exchange_field,
    finished,
    locus_field,
    no_root,
    root_at,
    RootModel,
};
use crate::clearing_house::snapshot_laws::{
    field_reads,
    lemma_five_fields,
    lemma_short,
    lemma_two_fields,
};
use crate::clearing_house::snapshot_root_laws::{
    dex_bytes,
    dex_is_sound,
    dex_of,
    law_dexes_are_read_back,
    WrittenDex,
};
use crate::clearing_house::{AccountMode, BorrowLendState, DexModel, Fraction, Leverage};
use crate::msgpack_laws::{
    array_bytes,
    array_head,
    is_value,
    is_writable,
    joined,
    law_heads_are_read_back,
    law_keys_lead_to_their_values,
    lemma_grouped,
    map_bytes,
};
use vstd::prelude::*;

verus! {

// ── Words ────────────────────────────────────────────────────────────────

/// The mode that a snapshot gives a user.
pub open spec fn given_mode(a: RootModel, u: Seq<char>) -> AccountMode {
    if a.modes.contains_key(u) {
        a.modes[u]
    } else {
        AccountMode::Standard
    }
}

/// What a user has of a token on the spot exchange.
pub open spec fn given_spot(a: RootModel, u: Seq<char>, token: u32) -> i64 {
    if a.spot.contains_key(u) && a.spot[u].contains_key(token) {
        a.spot[u][token]
    } else {
        0
    }
}

/// The leverage that a user has set in the books of a dex, where they have.
pub open spec fn set_in_books(a: RootModel, i: int, u: Seq<char>, x: u32) -> Option<u32> {
    if i < a.settings.len() && a.settings[i].contains_key(u) && a.settings[i][u].contains_key(x) {
        Some(a.settings[i][u][x])
    } else {
        None
    }
}

/// Whether the settings are those that were read, and those from the books for the assets that have
/// none.
pub open spec fn settings_filled(
    a: RootModel,
    i: int,
    u: Seq<char>,
    was: Map<u32, Leverage>,
    now: Map<u32, Leverage>,
) -> bool {
    forall|x: u32|
        #![trigger now.contains_key(x)]
        (now.contains_key(x) <==> was.contains_key(x) || set_in_books(a, i, u, x) is Some) && (
        was.contains_key(x) ==> now[x] == was[x]) && (!was.contains_key(x) && set_in_books(
            a,
            i,
            u,
            x,
        ) is Some ==> now[x] == Leverage::Cross(set_in_books(a, i, u, x)->0))
}

/// Whether some dex of the snapshot knows the user.
pub open spec fn is_anywhere(a: RootModel, u: Seq<char>) -> bool {
    exists|i: int|
        0 <= i < a.dexes.len() && ((#[trigger] a.dexes[i]).users.contains_key(u)
            || a.dexes[i].partials.contains_key(u))
}

// ── Users that a dex of the snapshot knows ───────────────────────────────

/// A user whom a dex of the snapshot knows in full has there what stands in the snapshot: positions and
/// balance, the mode, the spot balance in the collateral of the dex, and the settings, to which the
/// order books add those that are missing.
pub proof fn law_loaded_users(a: RootModel, i: int, u: Seq<char>)
    requires
        0 <= i < a.dexes.len(),
    ensures
        ({
            let t = finished(a);
            let (d, e) = (a.dexes[i], t.dexes[i]);
            let (was, now) = (d.users[u], e.users[u]);
            &&& t.dexes.len() == a.dexes.len()
            &&& crate::clearing_house::action_laws::same_market(d, e)
            &&& e.users.contains_key(u) == d.users.contains_key(u)
            &&& d.users.contains_key(u) ==> {
                &&& now.positions == was.positions
                &&& now.usdc_balance == was.usdc_balance
                &&& now.account_mode == given_mode(a, u)
                &&& now.spot_collateral == given_spot(a, u, d.collateral_token)
                &&& now.spot_collateral_decimals == 8
                &&& settings_filled(a, i, u, was.leverage_settings, now.leverage_settings)
            }
        }),
{
    lemma_loaded(a, i);
}

proof fn lemma_loaded(a: RootModel, i: int)
    requires
        0 <= i < a.dexes.len(),
    ensures
        ({
            let d = crate::clearing_house::rmp_streaming::root::holder_dexes(a)[i];
            let b = crate::clearing_house::rmp_streaming::root::account_dexes(a)[i];
            &&& d.users == b.users
            &&& crate::clearing_house::rmp_streaming::root::account_dexes(a).len() == a.dexes.len()
            &&& b == crate::clearing_house::rmp_streaming::root::with_accounts(
                crate::clearing_house::rmp_streaming::root::with_moded(a.dexes, a.modes)[i],
                a.modes,
                a.spot,
            )
            &&& crate::clearing_house::rmp_streaming::root::with_moded(a.dexes, a.modes)[i].users
                == a.dexes[i].users
        }),
{
}

/// A user whom a dex of the snapshot knows without positions has there what stands in the snapshot, in
/// the same way.
pub proof fn law_loaded_users_without_positions(a: RootModel, i: int, u: Seq<char>)
    requires
        0 <= i < a.dexes.len(),
        a.dexes[i].partials.contains_key(u),
    ensures
        ({
            let e = finished(a).dexes[i];
            let (was, now) = (a.dexes[i].partials[u], e.partials[u]);
            &&& e.partials.contains_key(u)
            &&& now.usdc_balance == was.usdc_balance
            &&& now.account_mode == given_mode(a, u)
            &&& now.spot_collateral == given_spot(a, u, a.dexes[i].collateral_token)
            &&& now.spot_collateral_decimals == 8
            &&& settings_filled(a, i, u, was.leverage_settings, now.leverage_settings)
        }),
{
    lemma_loaded(a, i);
}

// ── Users that no dex of the snapshot knows ──────────────────────────────

/// Whether no dex before this one is backed by the same token.
pub open spec fn is_first_of_token(a: RootModel, i: int) -> bool {
    forall|j: int|
        0 <= j < i ==> (#[trigger] a.dexes[j]).collateral_token != a.dexes[i].collateral_token
}

/// Whether a dex that is backed by the token knows the user in the snapshot.
pub open spec fn is_known_for(a: RootModel, token: u32, u: Seq<char>) -> bool {
    exists|j: int|
        0 <= j < a.dexes.len() && (#[trigger] a.dexes[j]).collateral_token == token && (
        a.dexes[j].users.contains_key(u) || a.dexes[j].partials.contains_key(u))
}

/// Whether a user has a mode of their own and is known to no dex.
pub open spec fn is_moded_only(a: RootModel, u: Seq<char>) -> bool {
    given_mode(a, u) != AccountMode::Standard && !is_anywhere(a, u)
}

/// A user whom a dex of the snapshot does not know is entered there without positions in two cases: on
/// the first dex, if they have a mode of their own and no dex knows them; and on the first dex of a
/// token, if they have some of it and no dex of the token knows them. They have no balance there but
/// the one on the spot exchange, and their mode.
pub proof fn law_holders_are_entered(a: RootModel, i: int, u: Seq<char>)
    requires
        0 <= i < a.dexes.len(),
        !a.dexes[i].partials.contains_key(u),
    ensures
        ({
            let e = finished(a).dexes[i];
            let token = a.dexes[i].collateral_token;
            let by_mode = i == 0 && is_moded_only(a, u);
            let by_balance = is_first_of_token(a, i) && given_spot(a, u, token) != 0 && !is_known_for(
                a,
                token,
                u,
            ) && !(is_moded_only(a, u) && a.dexes[0].collateral_token == token);
            &&& e.partials.contains_key(u) <==> by_mode || by_balance
            &&& e.partials.contains_key(u) ==> {
                &&& e.partials[u].usdc_balance == 0
                &&& e.partials[u].account_mode == given_mode(a, u)
                &&& e.partials[u].spot_collateral == given_spot(a, u, token)
                &&& e.partials[u].spot_collateral_decimals == 8
                &&& settings_filled(a, i, u, Map::empty(), e.partials[u].leverage_settings)
            }
        }),
{
    lemma_loaded(a, i);
    let m = crate::clearing_house::rmp_streaming::root::with_moded(a.dexes, a.modes);
    let b = crate::clearing_house::rmp_streaming::root::account_dexes(a);
    let token = a.dexes[i].collateral_token;
    assert(crate::clearing_house::rmp_streaming::root::known(a.dexes, u) == is_anywhere(a, u)) by {
        if is_anywhere(a, u) {
            let k = choose|k: int|
                0 <= k < a.dexes.len() && ((#[trigger] a.dexes[k]).users.contains_key(u)
                    || a.dexes[k].partials.contains_key(u));
            assert(crate::clearing_house::rmp_streaming::root::knows(a.dexes[k], u));
        }
    }
    assert forall|j: int| 0 <= j < a.dexes.len() implies (#[trigger] b[j]).collateral_token
        == a.dexes[j].collateral_token && crate::clearing_house::rmp_streaming::root::knows(b[j], u)
        == (a.dexes[j].users.contains_key(u) || a.dexes[j].partials.contains_key(u) || j == 0
        && is_moded_only(a, u)) by {
        lemma_loaded(a, j);
    }
    assert(crate::clearing_house::rmp_streaming::root::first_with_its_token(b, i)
        == is_first_of_token(a, i)) by {
        if is_first_of_token(a, i) {
            assert forall|j: int| 0 <= j < i implies (#[trigger] b[j]).collateral_token
                != b[i].collateral_token by {
                assert(a.dexes[j].collateral_token != a.dexes[i].collateral_token);
            }
        }
        if crate::clearing_house::rmp_streaming::root::first_with_its_token(b, i) {
            assert forall|j: int| 0 <= j < i implies (#[trigger] a.dexes[j]).collateral_token
                != a.dexes[i].collateral_token by {
                assert(b[j].collateral_token != b[i].collateral_token);
            }
        }
    }
    let moded_here = is_moded_only(a, u) && a.dexes[0].collateral_token == token;
    assert(crate::clearing_house::rmp_streaming::root::known_with(b, token, u) == (is_known_for(
        a,
        token,
        u,
    ) || moded_here)) by {
        if is_known_for(a, token, u) {
            let k = choose|k: int|
                0 <= k < a.dexes.len() && (#[trigger] a.dexes[k]).collateral_token == token && (
                a.dexes[k].users.contains_key(u) || a.dexes[k].partials.contains_key(u));
            assert(b[k].collateral_token == token
                && crate::clearing_house::rmp_streaming::root::knows(b[k], u));
        }
        if moded_here {
            assert(b[0].collateral_token == token
                && crate::clearing_house::rmp_streaming::root::knows(b[0], u));
        }
        if crate::clearing_house::rmp_streaming::root::known_with(b, token, u) {
            let k = choose|k: int|
                0 <= k < b.len() && b[k].collateral_token == token
                    && #[trigger] crate::clearing_house::rmp_streaming::root::knows(b[k], u);
            assert(b[k].collateral_token == a.dexes[k].collateral_token);
        }
    }
    assert(b[i].collateral_token == token);
}

// ── Everything else ──────────────────────────────────────────────────────

/// What a snapshot says beside its dexes stands in the state as it is; what only a replay brings is
/// empty.
pub proof fn law_loaded_rest(a: RootModel)
    ensures
        ({
            let t = finished(a);
            &&& t.coins == a.coins
            &&& t.unified == a.spot
            &&& t.borrows == a.borrows
            &&& t.portfolio_margin == a.portfolio_margin
            &&& t.vaults == a.vaults
            &&& t.nonces == Set::<i64>::empty()
            &&& t.leverage_fixes.len() == 0
            &&& t.event_log is None
            &&& t.action_counts == Map::<Seq<char>, u32>::empty()
            &&& t.marks == Map::<u32, Map<u32, u64>>::empty()
            &&& t.vault_withdrawals == Map::<Seq<char>, Map<Seq<char>, ()>>::empty()
        }),
{
}

/// Whether a dex has a name: what stands before the colon in its first coin.
pub open spec fn is_name_of(d: DexModel, name: Seq<char>, rest: Seq<char>) -> bool {
    d.universe.len() > 0 && !name.contains(':') && d.universe[0].name == name.push(':') + rest
}

/// A dex is found by its name, the last one where several have it; the main dex by the empty name,
/// unless another has that.
pub proof fn law_dexes_are_found_by_name(
    a: RootModel,
    i: int,
    name: Seq<char>,
    rest: Seq<char>,
)
    requires
        0 <= i < a.dexes.len(),
        is_name_of(a.dexes[i], name, rest),
        forall|j: int, r: Seq<char>|
            i < j < a.dexes.len() ==> !#[trigger] is_name_of(a.dexes[j], name, r),
    ensures
        finished(a).dex_names.contains_key(name),
        finished(a).dex_names[name] == a.dexes[i].pdi,
        finished(a).dex_names.contains_key(Seq::empty()),
{
    lemma_names(a, i, name, rest, a.dexes.len() as int);
    lemma_empty_name(a, a.dexes.len() as int);
}

proof fn lemma_empty_name(a: RootModel, n: int)
    ensures
        crate::clearing_house::rmp_streaming::root::names_of(a.dexes, n).contains_key(Seq::empty()),
    decreases n,
{
    if n > 0 {
        lemma_empty_name(a, n - 1);
    }
}

proof fn lemma_names(a: RootModel, i: int, name: Seq<char>, rest: Seq<char>, n: int)
    requires
        0 <= i < n <= a.dexes.len(),
        is_name_of(a.dexes[i], name, rest),
        forall|j: int, r: Seq<char>|
            i < j < a.dexes.len() ==> !#[trigger] is_name_of(a.dexes[j], name, r),
    ensures
        crate::clearing_house::rmp_streaming::root::names_of(a.dexes, n).contains_key(name),
        crate::clearing_house::rmp_streaming::root::names_of(a.dexes, n)[name] == a.dexes[i].pdi,
    decreases n,
{
    let d = a.dexes[n - 1];
    let first = d.universe[0].name;
    if i == n - 1 {
        assert(first[name.len() as int] == ':');
        assert(first.contains(':'));
        first.index_of_first_ensures(':');
        let k = first.index_of_first(':')->0;
        if k < name.len() {
            assert(name[k] == ':');
        }
        assert(crate::text::before_first(first, ':') =~= name);
    } else {
        lemma_names(a, i, name, rest, n - 1);
        if d.universe.len() > 0 && first.contains(':') {
            first.index_of_first_ensures(':');
            let k = first.index_of_first(':')->0;
            let other = crate::text::before_first(first, ':');
            let r = first.skip(k + 1);
            assert(first =~= other.push(':') + r);
            assert(!other.contains(':'));
            assert(!is_name_of(a.dexes[n - 1], name, r));
        }
    }
}

// ── A whole snapshot ─────────────────────────────────────────────────────

/// The dexes of a snapshot as it lists them.
pub open spec fn dexes_bytes(ds: Seq<WrittenDex>) -> Seq<u8> {
    array_bytes(ds.map_values(|d: WrittenDex| dex_bytes(d)))
}

/// The dexes that were written, with leverage that was not given filled in.
pub open spec fn dexes_of(ds: Seq<WrittenDex>) -> Seq<DexModel> {
    ds.map_values(|d: WrittenDex| dex::resolved_dex(dex_of(d)))
}

/// The coins with the first `n` assets of a dex.
pub open spec fn coins_of_dex(
    coins: Map<Seq<char>, (usize, usize)>,
    i: int,
    d: WrittenDex,
    n: int,
) -> Map<Seq<char>, (usize, usize)>
    decreases n,
{
    if n <= 0 {
        coins
    } else {
        coins_of_dex(coins, i, d, n - 1).insert(
            d.universe[n - 1].name,
            (i as usize, (n - 1) as usize),
        )
    }
}

/// The coins of the first `n` dexes: each stands for the place of its dex and its place there.
pub open spec fn coins_of(ds: Seq<WrittenDex>, n: int) -> Map<Seq<char>, (usize, usize)>
    decreases n,
{
    if n <= 0 {
        Map::empty()
    } else {
        coins_of_dex(
            coins_of(ds, n - 1),
            n - 1,
            ds[n - 1],
            ds[n - 1].universe.len() as int,
        )
    }
}

proof fn lemma_coins(coins: Map<Seq<char>, (usize, usize)>, i: int, d: WrittenDex, n: int)
    ensures
        crate::clearing_house::rmp_streaming::root::coins_entered(
            coins,
            i as usize,
            dex::resolved_dex(dex_of(d)),
            n,
        ) == coins_of_dex(coins, i, d, n),
    decreases n,
{
    if n > 0 {
        lemma_coins(coins, i, d, n - 1);
    }
}

proof fn lemma_dex_items(ds: Seq<WrittenDex>, i: int, a: RootModel, rest: Seq<u8>)
    requires
        0 <= i <= ds.len() < 0x1_0000_0000,
        forall|j: int| 0 <= j < ds.len() ==> dex_is_sound(#[trigger] ds[j]),
        a.dexes == dexes_of(ds).take(i),
        a.coins == coins_of(ds, i),
    ensures
        crate::clearing_house::rmp_streaming::root::dex_items(
            joined(ds.map_values(|d: WrittenDex| dex_bytes(d)), i) + rest,
            i as usize,
            (ds.len() - i) as nat,
            a,
        ) == Some(
            (
                RootModel {
                    dexes: dexes_of(ds),
                    coins: coins_of(ds, ds.len() as int),
                    ..a
                },
                rest,
            ),
        ),
    decreases ds.len() - i,
{
    let es = ds.map_values(|d: WrittenDex| dex_bytes(d));
    if i < ds.len() {
        let d = ds[i];
        let m = dex::resolved_dex(dex_of(d));
        let tail = joined(es, i + 1) + rest;
        assert(es[i] == dex_bytes(d));
        assert(joined(es, i) == es[i] + joined(es, i + 1));
        lemma_grouped(es[i], joined(es, i + 1), rest, rest);
        assert(dex_is_sound(ds[i]));
        law_dexes_are_read_back(d, tail);
        lemma_coins(a.coins, i, d, d.universe.len() as int);
        let b = RootModel {
            dexes: a.dexes.push(m),
            coins: crate::clearing_house::rmp_streaming::root::coins_entered(
                a.coins,
                i as usize,
                m,
                m.universe.len() as int,
            ),
            ..a
        };
        assert(b.dexes =~= dexes_of(ds).take(i + 1));
        assert((i as usize + 1) as usize == (i + 1) as usize);
        lemma_dex_items(ds, i + 1, b, rest);
    } else {
        assert(joined(es, i) + rest =~= rest);
        assert(dexes_of(ds).take(i) =~= dexes_of(ds));
    }
}

/// The dexes of a snapshot are read back in order, and every coin leads to its dex and its place
/// there.
pub proof fn law_all_dexes_are_read_back(ds: Seq<WrittenDex>, rest: Seq<u8>)
    requires
        ds.len() < 0x1_0000_0000,
        forall|j: int| 0 <= j < ds.len() ==> dex_is_sound(#[trigger] ds[j]),
    ensures
        crate::clearing_house::rmp_streaming::root::dexes_at(dexes_bytes(ds) + rest, no_root()) == Some(
            (
                RootModel {
                    dexes: dexes_of(ds),
                    coins: coins_of(ds, ds.len() as int),
                    ..no_root()
                },
                rest,
            ),
        ),
{
    reveal(array_bytes);
    let es = ds.map_values(|d: WrittenDex| dex_bytes(d));
    lemma_grouped(array_head(es.len()), joined(es, 0), rest, rest);
    law_heads_are_read_back(es.len(), joined(es, 0) + rest);
    assert(dexes_of(ds).take(0) =~= Seq::<DexModel>::empty());
    lemma_dex_items(ds, 0, no_root(), rest);
}

/// The parts of a snapshot, as they are written and as they are read.
pub struct Parts {
    pub dexes: Seq<WrittenDex>,
    pub modes: (Seq<u8>, walk::ModesModel),
    pub spot: (Seq<u8>, Map<Seq<char>, Map<u32, i64>>),
    pub loans: (Seq<u8>, Map<Seq<char>, Map<u32, BorrowLendState>>),
    pub vaults: (Seq<u8>, Map<Seq<char>, Map<Seq<char>, Fraction>>),
    pub books: (Seq<u8>, Seq<Map<Seq<char>, Map<u32, u32>>>),
}

/// Whether each part is read as it says, whatever stands behind it; of the spot balances those in the
/// collateral of a dex.
#[verifier::opaque]
pub open spec fn parts_read(p: Parts) -> bool {
    let wanted = p.dexes.map_values(|d: WrittenDex| d.token).to_set();
    &&& p.dexes.len() < 0x1_0000_0000
    &&& forall|j: int| 0 <= j < p.dexes.len() ==> dex_is_sound(#[trigger] p.dexes[j])
    &&& forall|r: Seq<u8>| walk::modes_at(#[trigger] (p.modes.0 + r)) == Some((p.modes.1, r))
    &&& forall|r: Seq<u8>| walk::spot_at(wanted, #[trigger] (p.spot.0 + r)) == Some((p.spot.1, r))
    &&& forall|r: Seq<u8>| locus::pool_at(#[trigger] (p.loans.0 + r)) == Some((p.loans.1, r))
    &&& forall|r: Seq<u8>| locus::vaults_at(#[trigger] (p.vaults.0 + r)) == Some((p.vaults.1, r))
    &&& forall|r: Seq<u8>| locus::perp_dexs_at(#[trigger] (p.books.0 + r)) == Some((p.books.1, r))
}

/// The ledger of a snapshot as it is written.
pub open spec fn ledger_bytes(p: Parts) -> Seq<u8> {
    map_bytes(
        seq![
            ("cls"@, dexes_bytes(p.dexes)),
            ("ust"@, p.modes.0),
            ("scl"@, p.spot.0),
            ("blp"@, p.loans.0),
            ("vlt"@, p.vaults.0),
        ],
    )
}

/// The exchange of a snapshot as it is written.
pub open spec fn exchange_bytes(p: Parts) -> Seq<u8> {
    map_bytes(seq![("locus"@, ledger_bytes(p)), ("perp_dexs"@, p.books.0)])
}

/// What stands in a snapshot of these parts.
pub open spec fn root_of(p: Parts) -> RootModel {
    RootModel {
        dexes: dexes_of(p.dexes),
        coins: coins_of(p.dexes, p.dexes.len() as int),
        modes: p.modes.1.modes,
        portfolio_margin: p.modes.1.portfolio_margin,
        spot: p.spot.1,
        borrows: p.loans.1,
        vaults: p.vaults.1,
        settings: p.books.1,
    }
}

proof fn lemma_root_keys()
    ensures
        is_writable("cls"@) && is_writable("ust"@) && is_writable("scl"@) && is_writable("blp"@)
            && is_writable("vlt"@) && is_writable("locus"@) && is_writable("perp_dexs"@)
            && is_writable("exchange"@),
        "cls"@ != "ust"@ && "cls"@ != "scl"@ && "cls"@ != "blp"@ && "cls"@ != "vlt"@,
        "ust"@ != "scl"@ && "ust"@ != "blp"@ && "ust"@ != "vlt"@,
        "scl"@ != "blp"@ && "scl"@ != "vlt"@ && "blp"@ != "vlt"@,
        "locus"@ != "perp_dexs"@,
{
    reveal_strlit("cls");
    reveal_strlit("ust");
    reveal_strlit("scl");
    reveal_strlit("blp");
    reveal_strlit("vlt");
    reveal_strlit("locus");
    reveal_strlit("perp_dexs");
    reveal_strlit("exchange");
    lemma_short("cls"@);
    lemma_short("ust"@);
    lemma_short("scl"@);
    lemma_short("blp"@);
    lemma_short("vlt"@);
    lemma_short("locus"@);
    lemma_short("perp_dexs"@);
    lemma_short("exchange"@);
    assert("cls"@[0] == 'c' && "ust"@[0] == 'u' && "scl"@[0] == 's' && "blp"@[0] == 'b' && "vlt"@[0]
        == 'v');
    assert("locus"@.len() == 5 && "perp_dexs"@.len() == 9);
}

proof fn lemma_cls(p: Parts)
    requires
        parts_read(p),
    ensures
        field_reads(
            |k: Seq<char>, a: RootModel, s: Seq<u8>| locus_field(k, a, s),
            "cls"@,
            no_root(),
            dexes_bytes(p.dexes),
            RootModel {
                dexes: dexes_of(p.dexes),
                coins: coins_of(p.dexes, p.dexes.len() as int),
                ..no_root()
            },
        ),
{
    reveal(parts_read);
    let f: spec_fn(Seq<char>, RootModel, Seq<u8>) -> Option<(RootModel, Seq<u8>)> = |k, a, s|
        locus_field(k, a, s);
    reveal(field_reads);
    assert forall|r: Seq<u8>| #[trigger]
        f("cls"@, no_root(), dexes_bytes(p.dexes) + r) == Some(
            (
                RootModel {
                    dexes: dexes_of(p.dexes),
                    coins: coins_of(p.dexes, p.dexes.len() as int),
                    ..no_root()
                },
                r,
            ),
        ) by {
        law_all_dexes_are_read_back(p.dexes, r);
    }
}

proof fn lemma_ust(p: Parts, a: RootModel)
    requires
        parts_read(p),
    ensures
        field_reads(
            |k: Seq<char>, a: RootModel, s: Seq<u8>| locus_field(k, a, s),
            "ust"@,
            a,
            p.modes.0,
            RootModel {
                modes: p.modes.1.modes,
                portfolio_margin: p.modes.1.portfolio_margin,
                ..a
            },
        ),
{
    reveal(parts_read);
    lemma_root_keys();
    reveal(field_reads);
}

proof fn lemma_scl(p: Parts, a: RootModel)
    requires
        parts_read(p),
        a.dexes == dexes_of(p.dexes),
    ensures
        field_reads(
            |k: Seq<char>, a: RootModel, s: Seq<u8>| locus_field(k, a, s),
            "scl"@,
            a,
            p.spot.0,
            RootModel { spot: p.spot.1, ..a },
        ),
{
    reveal(parts_read);
    lemma_root_keys();
    reveal(field_reads);
    let wanted = p.dexes.map_values(|d: WrittenDex| d.token);
    let tokens = a.dexes.map_values(|d: DexModel| d.collateral_token);
    assert(wanted =~= tokens);
}

proof fn lemma_blp(p: Parts, a: RootModel)
    requires
        parts_read(p),
    ensures
        field_reads(
            |k: Seq<char>, a: RootModel, s: Seq<u8>| locus_field(k, a, s),
            "blp"@,
            a,
            p.loans.0,
            RootModel { borrows: p.loans.1, ..a },
        ),
        field_reads(
            |k: Seq<char>, a: RootModel, s: Seq<u8>| locus_field(k, a, s),
            "vlt"@,
            a,
            p.vaults.0,
            RootModel { vaults: p.vaults.1, ..a },
        ),
{
    reveal(parts_read);
    lemma_root_keys();
    reveal(field_reads);
}

proof fn lemma_ledger(p: Parts, rest: Seq<u8>)
    requires
        parts_read(p),
    ensures
        walk::in_map(ledger_bytes(p) + rest, no_root(), |k, a, s| locus_field(k, a, s)) == Some(
            (RootModel { settings: Seq::empty(), ..root_of(p) }, rest),
        ),
{
    lemma_root_keys();
    let f: spec_fn(Seq<char>, RootModel, Seq<u8>) -> Option<(RootModel, Seq<u8>)> = |k, a, s|
        locus_field(k, a, s);
    let a0 = no_root();
    let a1 = RootModel {
        dexes: dexes_of(p.dexes),
        coins: coins_of(p.dexes, p.dexes.len() as int),
        ..a0
    };
    let a2 = RootModel {
        modes: p.modes.1.modes,
        portfolio_margin: p.modes.1.portfolio_margin,
        ..a1
    };
    let a3 = RootModel { spot: p.spot.1, ..a2 };
    let a4 = RootModel { borrows: p.loans.1, ..a3 };
    let a5 = RootModel { vaults: p.vaults.1, ..a4 };
    lemma_cls(p);
    lemma_ust(p, a1);
    lemma_scl(p, a2);
    lemma_blp(p, a3);
    lemma_blp(p, a4);
    lemma_five_fields(
        ("cls"@, dexes_bytes(p.dexes)),
        ("ust"@, p.modes.0),
        ("scl"@, p.spot.0),
        ("blp"@, p.loans.0),
        ("vlt"@, p.vaults.0),
        a0,
        a1,
        a2,
        a3,
        a4,
        a5,
        f,
        rest,
    );
}

/// A whole snapshot is read back: what stands under "exchange" is taken apart into its dexes, modes,
/// spot balances, loans, vaults and book settings, each in its place.
pub proof fn law_snapshots_are_read_back(p: Parts, rest: Seq<u8>)
    requires
        parts_read(p),
        is_value(exchange_bytes(p)),
    ensures
        root_at(map_bytes(seq![("exchange"@, exchange_bytes(p))]) + rest) == Some(root_of(p)),
{
    lemma_root_keys();
    let b = exchange_bytes(p);
    let tail = lemma_found("exchange"@, b, rest);
    lemma_exchange(p, tail);
}

proof fn lemma_found(key: Seq<char>, b: Seq<u8>, rest: Seq<u8>) -> (tail: Seq<u8>)
    requires
        is_writable(key),
        is_value(b),
    ensures
        crate::msgpack::seek_map(map_bytes(seq![(key, b)]) + rest, key) == Some(b + tail),
{
    let es = seq![(key, b)];
    law_keys_lead_to_their_values(es, 0, rest);
    let found = crate::msgpack::seek_map(map_bytes(es) + rest, key)->0;
    let tail = found.skip(b.len() as int);
    assert(found =~= b + tail);
    tail
}

proof fn lemma_exchange(p: Parts, rest: Seq<u8>)
    requires
        parts_read(p),
    ensures
        walk::in_map(exchange_bytes(p) + rest, no_root(), |k, a, s| exchange_field(k, a, s)) == Some(
            (root_of(p), rest),
        ),
{
    lemma_root_keys();
    let f: spec_fn(Seq<char>, RootModel, Seq<u8>) -> Option<(RootModel, Seq<u8>)> = |k, a, s|
        exchange_field(k, a, s);
    let a1 = RootModel { settings: Seq::empty(), ..root_of(p) };
    lemma_locus_field(p);
    lemma_books_field(p, a1);
    lemma_two_fields(
        ("locus"@, ledger_bytes(p)),
        ("perp_dexs"@, p.books.0),
        no_root(),
        a1,
        root_of(p),
        f,
        rest,
    );
}

proof fn lemma_locus_field(p: Parts)
    requires
        parts_read(p),
    ensures
        field_reads(
            |k: Seq<char>, a: RootModel, s: Seq<u8>| exchange_field(k, a, s),
            "locus"@,
            no_root(),
            ledger_bytes(p),
            RootModel { settings: Seq::empty(), ..root_of(p) },
        ),
{
    let f: spec_fn(Seq<char>, RootModel, Seq<u8>) -> Option<(RootModel, Seq<u8>)> = |k, a, s|
        exchange_field(k, a, s);
    let a1 = RootModel { settings: Seq::empty(), ..root_of(p) };
    reveal(field_reads);
    assert forall|r: Seq<u8>| #[trigger] f("locus"@, no_root(), ledger_bytes(p) + r) == Some(
        (a1, r),
    ) by {
        lemma_ledger(p, r);
    }
}

proof fn lemma_books_field(p: Parts, a: RootModel)
    requires
        parts_read(p),
    ensures
        field_reads(
            |k: Seq<char>, a: RootModel, s: Seq<u8>| exchange_field(k, a, s),
            "perp_dexs"@,
            a,
            p.books.0,
            RootModel { settings: p.books.1, ..a },
        ),
{
    reveal(parts_read);
    lemma_root_keys();
    reveal(field_reads);
}

} // verus!

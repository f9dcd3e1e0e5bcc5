//! The users and dexes of a snapshot are read back, and what the state makes of them.
use crate::clearing_house::rmp_streaming as walk;
use crate::clearing_house::rmp_streaming::dex;
use crate::clearing_house::rmp_streaming::root::{finished, knows, root_at, RootModel};
use crate::clearing_house::rmp_streaming::{UserStatesFields, UsersModel};
use crate::clearing_house::snapshot_laws::{
    all_kept_bytes,
    field_reads,
    item_reads,
    kept_bytes,
    law_users_are_read_back,
    lemma_kept_balance,
    lemma_four_fields,
    lemma_map_reads,
    lemma_pair_reads,
    lemma_short,
    lemma_three_fields,
    lemma_two_fields,
    leverage_bytes,
    nothing_kept,
    pair_bytes,
    position_bytes,
    user_bytes,
    with_kept,
    Kept,
};
use crate::clearing_house::snapshot_list_laws::{
    asset_bytes,
    first_price,
    folded,
    lemma_int_field,
    lemma_list_reads,
    samples_bytes,
    table_bytes,
};
use crate::clearing_house::{
    AccountMode,
    AssetModel,
    DexModel,
    Leverage,
    MarginMode,
    MarginTier,
    PartialModel,
    Position,
    UserModel,
};
use crate::msgpack::Out;
use crate::msgpack_laws::{
    array_bytes,
    int_bytes,
    is_value,
    is_writable,
    law_arrays_are_skipped,
    law_maps_are_skipped,
    law_texts_are_read_back,
    lemma_grouped,
    lemma_scalar_values,
    lemma_value,
    map_bytes,
    text_bytes,
};
use vstd::prelude::*;

verus! {

// ── Users of a dex ───────────────────────────────────────────────────────

/// A user of a dex as a snapshot has them: address, balance and what is kept by asset.
pub struct Written {
    pub address: Seq<char>,
    pub balance: i64,
    pub kept: Seq<(u32, Kept)>,
}

/// Whether a user can be written, and holds no position of size zero.
pub open spec fn is_sound(w: Written) -> bool {
    &&& is_writable(w.address)
    &&& w.kept.len() < 0x1_0000_0000
    &&& forall|i: int|
        0 <= i < w.kept.len() ==> ((#[trigger] w.kept[i]).1 matches Kept::Held(p) ==> p.szi != 0)
}

/// A user of a dex as a snapshot writes them.
pub open spec fn written_bytes(w: Written) -> Seq<u8> {
    pair_bytes(text_bytes(w.address), user_bytes(w.balance, w.kept))
}

/// The users of a dex with one more: in full where they hold something, else without positions.
pub open spec fn user_entered(a: UsersModel, w: Written) -> UsersModel {
    let u = with_kept(nothing_kept(w.balance), w.kept, w.kept.len() as int);
    if exists|x: u32| #[trigger] u.positions.contains_key(x) {
        UsersModel {
            users: a.users.insert(
                w.address,
                UserModel {
                    usdc_balance: w.balance,
                    spot_collateral: 0,
                    spot_collateral_decimals: 8,
                    account_mode: AccountMode::Standard,
                    positions: u.positions,
                    leverage_settings: u.preferences.union_prefer_right(
                        u.positions.map_values(|p: Position| p.leverage),
                    ),
                },
            ),
            partials: a.partials,
        }
    } else {
        UsersModel {
            users: a.users,
            partials: a.partials.insert(
                w.address,
                PartialModel {
                    usdc_balance: w.balance,
                    spot_collateral: 0,
                    spot_collateral_decimals: 8,
                    account_mode: AccountMode::Standard,
                    leverage_settings: u.preferences,
                },
            ),
        }
    }
}

/// All users of a list.
pub open spec fn users_of(ws: Seq<Written>) -> UsersModel {
    folded(
        UsersModel { users: Map::empty(), partials: Map::empty() },
        ws,
        |a: UsersModel, w: Written| user_entered(a, w),
        ws.len() as int,
    )
}

/// The users of a dex as a snapshot lists them.
pub open spec fn list_bytes(ws: Seq<Written>) -> Seq<u8> {
    array_bytes(ws.map_values(|w: Written| written_bytes(w)))
}

proof fn lemma_written(before: UsersModel, w: Written)
    requires
        is_sound(w),
    ensures
        item_reads(
            |a: UsersModel, s: Seq<u8>| walk::in_pair(s, a, |a, s| walk::one_user(a, s)),
            before,
            written_bytes(w),
            user_entered(before, w),
        ),
{
    let p: spec_fn(UsersModel, Seq<u8>) -> Option<(UsersModel, Seq<u8>)> = |a, s| walk::one_user(a, s);
    let h: spec_fn(UsersModel, Seq<u8>) -> Option<(UsersModel, Seq<u8>)> = |a, s|
        walk::in_pair(s, a, |a, s| walk::one_user(a, s));
    let x = text_bytes(w.address);
    let y = user_bytes(w.balance, w.kept);
    let after = user_entered(before, w);
    assert(item_reads(p, before, x + y, after)) by {
        reveal(item_reads);
        assert forall|r: Seq<u8>| #[trigger] p(before, x + y + r) == Some((after, r)) by {
            lemma_one_written(before, w, r);
        }
    }
    reveal(item_reads);
    assert forall|r: Seq<u8>| #[trigger] h(before, written_bytes(w) + r) == Some((after, r)) by {
        lemma_pair_reads(x, y, before, after, p, r);
    }
}

proof fn lemma_one_written(before: UsersModel, w: Written, rest: Seq<u8>)
    requires
        is_sound(w),
    ensures
        walk::one_user(before, text_bytes(w.address) + user_bytes(w.balance, w.kept) + rest) == Some(
            (user_entered(before, w), rest),
        ),
{
    let y = user_bytes(w.balance, w.kept);
    let u = with_kept(nothing_kept(w.balance), w.kept, w.kept.len() as int);
    lemma_grouped(text_bytes(w.address), y, rest, rest);
    law_texts_are_read_back(w.address, y + rest);
    law_users_are_read_back(w.balance, w.kept, rest);
    lemma_kept_balance(w.balance, w.kept, w.kept.len() as int);
    lemma_settings(u);
    if exists|x: u32| #[trigger] u.positions.contains_key(x) {
        let x = choose|x: u32| #[trigger] u.positions.contains_key(x);
        assert(u.positions.dom().contains(x));
        assert(u.positions.dom() != Set::<u32>::empty());
    } else {
        assert(u.positions.dom() =~= Set::<u32>::empty());
    }
}

proof fn lemma_settings(u: walk::UserFields)
    ensures
        walk::all_settings(u.positions, u.preferences) == u.preferences.union_prefer_right(
            u.positions.map_values(|p: Position| p.leverage),
        ),
{
    assert(walk::all_settings(u.positions, u.preferences) =~= u.preferences.union_prefer_right(
        u.positions.map_values(|p: Position| p.leverage),
    ));
}

/// The users of a dex are read back from their list.
pub proof fn law_user_lists_are_read_back(ws: Seq<Written>, rest: Seq<u8>)
    requires
        ws.len() < 0x1_0000_0000,
        forall|i: int| 0 <= i < ws.len() ==> is_sound(#[trigger] ws[i]),
    ensures
        walk::user_list_at(list_bytes(ws) + rest) == Some((users_of(ws), rest)),
{
    let none = UsersModel { users: Map::empty(), partials: Map::empty() };
    let g = |a: UsersModel, w: Written| user_entered(a, w);
    let h: spec_fn(UsersModel, Seq<u8>) -> Option<(UsersModel, Seq<u8>)> = |a, s|
        walk::in_pair(s, a, |a, s| walk::one_user(a, s));
    assert forall|b: UsersModel, i: int|
        #![trigger g(b, ws[i])]
        0 <= i < ws.len() implies item_reads(h, b, written_bytes(ws[i]), g(b, ws[i])) by {
        lemma_written(b, ws[i]);
    }
    lemma_list_reads(none, ws, |w: Written| written_bytes(w), g, h, rest);
}

proof fn lemma_state_keys()
    ensures
        is_writable("users_with_positions"@) && is_writable("user_to_state"@),
        "users_with_positions"@ != "user_to_state"@,
        is_writable("meta"@) && is_writable("oracle"@) && is_writable("user_states"@) && is_writable(
            "pxs"@,
        ) && is_writable("universe"@) && is_writable("pdi"@) && is_writable(
            "marginTableIdToMarginTable"@,
        ) && is_writable("collateralToken"@),
        "meta"@ != "oracle"@ && "meta"@ != "user_states"@ && "oracle"@ != "user_states"@,
        "universe"@ != "pdi"@ && "universe"@ != "marginTableIdToMarginTable"@ && "universe"@
            != "collateralToken"@,
        "pdi"@ != "marginTableIdToMarginTable"@ && "pdi"@ != "collateralToken"@
            && "marginTableIdToMarginTable"@ != "collateralToken"@,
{
    reveal_strlit("users_with_positions");
    reveal_strlit("user_to_state");
    reveal_strlit("meta");
    reveal_strlit("oracle");
    reveal_strlit("user_states");
    reveal_strlit("pxs");
    reveal_strlit("universe");
    reveal_strlit("pdi");
    reveal_strlit("marginTableIdToMarginTable");
    reveal_strlit("collateralToken");
    lemma_short("users_with_positions"@);
    lemma_short("user_to_state"@);
    lemma_short("meta"@);
    lemma_short("oracle"@);
    lemma_short("user_states"@);
    lemma_short("pxs"@);
    lemma_short("universe"@);
    lemma_short("pdi"@);
    lemma_short("marginTableIdToMarginTable"@);
    lemma_short("collateralToken"@);
    assert("users_with_positions"@.len() == 20 && "user_to_state"@.len() == 13);
    assert("meta"@.len() == 4 && "oracle"@.len() == 6 && "user_states"@.len() == 11);
    assert("universe"@.len() == 8 && "pdi"@.len() == 3 && "marginTableIdToMarginTable"@.len() == 26
        && "collateralToken"@.len() == 15);
}

// ── The users of a dex, in either order ──────────────────────────────────

/// The users with positions as a snapshot names them.
pub open spec fn named_bytes(names: Seq<Seq<char>>) -> Seq<u8> {
    array_bytes(names.map_values(|n: Seq<char>| text_bytes(n)))
}

proof fn lemma_named(names: Seq<Seq<char>>, start: bool, rest: Seq<u8>)
    requires
        names.len() < 0x1_0000_0000,
        forall|i: int| 0 <= i < names.len() ==> is_writable(#[trigger] names[i]),
    ensures
        walk::in_array(named_bytes(names) + rest, start, |a, s| walk::one_listed(a, s)) == Some(
            (start || names.len() > 0, rest),
        ),
{
    let g = |a: bool, n: Seq<char>| true;
    let h: spec_fn(bool, Seq<u8>) -> Option<(bool, Seq<u8>)> = |a, s| walk::one_listed(a, s);
    assert forall|b: bool, i: int|
        #![trigger g(b, names[i])]
        0 <= i < names.len() implies item_reads(h, b, text_bytes(names[i]), g(b, names[i])) by {
        reveal(item_reads);
        assert(is_writable(names[i]));
        assert forall|r: Seq<u8>| #[trigger] h(b, text_bytes(names[i]) + r) == Some((true, r)) by {
            law_texts_are_read_back(names[i], r);
        }
    }
    lemma_list_reads(start, names, |n: Seq<char>| text_bytes(n), g, h, rest);
}

proof fn lemma_short_keys()
    ensures
        is_writable("C"@) && is_writable("I"@) && is_writable("l"@) && is_writable("u"@)
            && is_writable("s"@) && is_writable("e"@) && is_writable("M"@) && is_writable("f"@)
            && is_writable("o"@) && is_writable("p"@),
{
    reveal_strlit("C");
    reveal_strlit("I");
    reveal_strlit("l");
    reveal_strlit("u");
    reveal_strlit("s");
    reveal_strlit("e");
    reveal_strlit("M");
    reveal_strlit("f");
    reveal_strlit("o");
    reveal_strlit("p");
    lemma_short("C"@);
    lemma_short("I"@);
    lemma_short("l"@);
    lemma_short("u"@);
    lemma_short("s"@);
    lemma_short("e"@);
    lemma_short("M"@);
    lemma_short("f"@);
    lemma_short("o"@);
    lemma_short("p"@);
}

proof fn lemma_leverage_value(l: Leverage)
    ensures
        is_value(leverage_bytes(l)),
{
    lemma_short_keys();
    match l {
        Leverage::Cross(v) => {
            lemma_scalar_values(v as i64, Seq::empty());
            law_maps_are_skipped(seq![("C"@, int_bytes(v as i64))]);
        },
        Leverage::Isolated { leverage, raw_usd } => {
            lemma_scalar_values(leverage as i64, Seq::empty());
            lemma_scalar_values(raw_usd, Seq::empty());
            let es = seq![("l"@, int_bytes(leverage as i64)), ("u"@, int_bytes(raw_usd))];
            law_maps_are_skipped(es);
            law_maps_are_skipped(seq![("I"@, map_bytes(es))]);
        },
    }
}

proof fn lemma_position_value(p: Position)
    ensures
        is_value(position_bytes(p)),
{
    lemma_short_keys();
    lemma_leverage_value(p.leverage);
    lemma_scalar_values(p.szi, Seq::empty());
    lemma_scalar_values(p.cost_basis, Seq::empty());
    lemma_scalar_values(p.margin_table_id as i64, Seq::empty());
    lemma_scalar_values(p.outstanding_funding, Seq::empty());
    let f = seq![("o"@, int_bytes(p.outstanding_funding))];
    law_maps_are_skipped(f);
    law_maps_are_skipped(
        seq![
            ("s"@, int_bytes(p.szi)),
            ("e"@, int_bytes(p.cost_basis)),
            ("l"@, leverage_bytes(p.leverage)),
            ("M"@, int_bytes(p.margin_table_id as i64)),
            ("f"@, map_bytes(f)),
        ],
    );
}

proof fn lemma_kept_value(asset: u32, k: Kept)
    ensures
        is_value(kept_bytes(asset, k)),
{
    lemma_short_keys();
    lemma_scalar_values(asset as i64, Seq::empty());
    match k {
        Kept::Held(p) => {
            lemma_position_value(p);
            law_arrays_are_skipped(seq![int_bytes(asset as i64), position_bytes(p)]);
        },
        Kept::Wanted(l) => {
            lemma_leverage_value(l);
            let m = seq![("l"@, leverage_bytes(l))];
            law_maps_are_skipped(m);
            law_arrays_are_skipped(seq![int_bytes(asset as i64), map_bytes(m)]);
        },
    }
}

proof fn lemma_written_value(w: Written)
    requires
        is_sound(w),
    ensures
        is_value(written_bytes(w)),
{
    lemma_short_keys();
    let ks = w.kept.map_values(|e: (u32, Kept)| kept_bytes(e.0, e.1));
    assert forall|j: int| 0 <= j < ks.len() implies is_value(#[trigger] ks[j]) by {
        lemma_kept_value(w.kept[j].0, w.kept[j].1);
    }
    law_arrays_are_skipped(ks);
    let inner = seq![("p"@, all_kept_bytes(w.kept))];
    law_maps_are_skipped(inner);
    lemma_scalar_values(w.balance, w.address);
    law_maps_are_skipped(seq![("u"@, int_bytes(w.balance)), ("p"@, map_bytes(inner))]);
    law_arrays_are_skipped(seq![text_bytes(w.address), user_bytes(w.balance, w.kept)]);
}

proof fn lemma_list_value(ws: Seq<Written>)
    requires
        ws.len() < 0x1_0000_0000,
        forall|i: int| 0 <= i < ws.len() ==> is_sound(#[trigger] ws[i]),
    ensures
        is_value(list_bytes(ws)),
{
    let es = ws.map_values(|w: Written| written_bytes(w));
    assert forall|j: int| 0 <= j < es.len() implies is_value(#[trigger] es[j]) by {
        lemma_written_value(ws[j]);
    }
    law_arrays_are_skipped(es);
}

/// The users of a dex as a snapshot writes them, with the names of those with positions before or
/// behind them.
pub open spec fn states_bytes(names: Seq<Seq<char>>, ws: Seq<Written>, names_first: bool) -> Seq<u8> {
    if names_first {
        map_bytes(
            seq![
                ("users_with_positions"@, named_bytes(names)),
                ("user_to_state"@, list_bytes(ws)),
            ],
        )
    } else {
        map_bytes(
            seq![
                ("user_to_state"@, list_bytes(ws)),
                ("users_with_positions"@, named_bytes(names)),
            ],
        )
    }
}

proof fn lemma_kept_for_later(ws: Seq<Written>, a: UserStatesFields)
    requires
        ws.len() < 0x1_0000_0000,
        forall|i: int| 0 <= i < ws.len() ==> is_sound(#[trigger] ws[i]),
        !a.some_listed,
    ensures
        field_reads(
            |k: Seq<char>, a: UserStatesFields, s: Seq<u8>| walk::user_states_field(k, a, s),
            "user_to_state"@,
            a,
            list_bytes(ws),
            UserStatesFields { deferred: Some(list_bytes(ws)), ..a },
        ),
{
    lemma_state_keys();
    lemma_list_value(ws);
    let f: spec_fn(Seq<char>, UserStatesFields, Seq<u8>) -> Option<(UserStatesFields, Seq<u8>)> =
        |k, a, s| walk::user_states_field(k, a, s);
    let later = UserStatesFields { deferred: Some(list_bytes(ws)), ..a };
    reveal(field_reads);
    assert forall|r: Seq<u8>| #[trigger] f("user_to_state"@, a, list_bytes(ws) + r) == Some(
        (later, r),
    ) by {
        lemma_value(list_bytes(ws), r);
        let s = list_bytes(ws) + r;
        assert(s.take(s.len() - r.len()) =~= list_bytes(ws));
    }
}

proof fn lemma_names_field(names: Seq<Seq<char>>, a: UserStatesFields)
    requires
        names.len() < 0x1_0000_0000,
        forall|i: int| 0 <= i < names.len() ==> is_writable(#[trigger] names[i]),
        !a.some_listed,
    ensures
        field_reads(
            |k: Seq<char>, a: UserStatesFields, s: Seq<u8>| walk::user_states_field(k, a, s),
            "users_with_positions"@,
            a,
            named_bytes(names),
            UserStatesFields { some_listed: names.len() > 0, ..a },
        ),
{
    let f: spec_fn(Seq<char>, UserStatesFields, Seq<u8>) -> Option<(UserStatesFields, Seq<u8>)> =
        |k, a, s| walk::user_states_field(k, a, s);
    let some = UserStatesFields { some_listed: names.len() > 0, ..a };
    reveal(field_reads);
    assert forall|r: Seq<u8>| #[trigger]
        f("users_with_positions"@, a, named_bytes(names) + r) == Some((some, r)) by {
        lemma_named(names, false, r);
    }
}

proof fn lemma_found_field(ws: Seq<Written>, a: UserStatesFields)
    requires
        ws.len() < 0x1_0000_0000,
        forall|i: int| 0 <= i < ws.len() ==> is_sound(#[trigger] ws[i]),
        a.some_listed,
    ensures
        field_reads(
            |k: Seq<char>, a: UserStatesFields, s: Seq<u8>| walk::user_states_field(k, a, s),
            "user_to_state"@,
            a,
            list_bytes(ws),
            UserStatesFields { found: users_of(ws), ..a },
        ),
{
    lemma_state_keys();
    let f: spec_fn(Seq<char>, UserStatesFields, Seq<u8>) -> Option<(UserStatesFields, Seq<u8>)> =
        |k, a, s| walk::user_states_field(k, a, s);
    let found = UserStatesFields { found: users_of(ws), ..a };
    reveal(field_reads);
    assert forall|r: Seq<u8>| #[trigger]
        f("user_to_state"@, a, list_bytes(ws) + r) == Some((found, r)) by {
        law_user_lists_are_read_back(ws, r);
    }
}

/// The users of a dex are read back whether the names of those with positions stand before or behind
/// them, and whether there are any such names or none.
pub proof fn law_user_states_are_read_back(
    names: Seq<Seq<char>>,
    ws: Seq<Written>,
    names_first: bool,
    rest: Seq<u8>,
)
    requires
        names.len() < 0x1_0000_0000,
        forall|i: int| 0 <= i < names.len() ==> is_writable(#[trigger] names[i]),
        ws.len() < 0x1_0000_0000,
        forall|i: int| 0 <= i < ws.len() ==> is_sound(#[trigger] ws[i]),
    ensures
        walk::user_states_at(states_bytes(names, ws, names_first) + rest) == Some(
            (users_of(ws), rest),
        ),
{
    lemma_state_keys();
    let f: spec_fn(Seq<char>, UserStatesFields, Seq<u8>) -> Option<(UserStatesFields, Seq<u8>)> =
        |k, a, s| walk::user_states_field(k, a, s);
    let start = UserStatesFields { some_listed: false, found: walk::no_users(), deferred: None };
    let some = UserStatesFields { some_listed: names.len() > 0, ..start };
    let later = UserStatesFields { deferred: Some(list_bytes(ws)), ..start };
    let both = UserStatesFields { some_listed: names.len() > 0, ..later };
    let last = if !names_first {
        both
    } else if names.len() > 0 {
        UserStatesFields { found: users_of(ws), ..some }
    } else {
        later
    };
    let (n, u) = (
        ("users_with_positions"@, named_bytes(names)),
        ("user_to_state"@, list_bytes(ws)),
    );
    if names_first {
        lemma_names_field(names, start);
        if names.len() > 0 {
            lemma_found_field(ws, some);
        } else {
            lemma_kept_for_later(ws, start);
        }
        lemma_two_fields(n, u, start, some, last, f, rest);
    } else {
        lemma_kept_for_later(ws, start);
        lemma_names_field(names, later);
        lemma_two_fields(u, n, start, later, last, f, rest);
    }
    law_user_lists_are_read_back(ws, Seq::empty());
    assert(list_bytes(ws) + Seq::<u8>::empty() =~= list_bytes(ws));
}

// ── A dex ────────────────────────────────────────────────────────────────

/// A dex as a snapshot has it.
pub struct WrittenDex {
    pub pdi: u32,
    pub token: u32,
    pub universe: Seq<AssetModel>,
    pub tables: Seq<(u32, Seq<MarginTier>)>,
    pub prices: Seq<Seq<i64>>,
    pub names: Seq<Seq<char>>,
    pub users: Seq<Written>,
}

/// Whether a dex can be written.
pub open spec fn dex_is_sound(d: WrittenDex) -> bool {
    &&& d.universe.len() < 0x1_0000_0000
    &&& forall|i: int| 0 <= i < d.universe.len() ==> is_writable((#[trigger] d.universe[i]).name)
    &&& d.tables.len() < 0x1_0000_0000
    &&& forall|i: int| 0 <= i < d.tables.len() ==> (#[trigger] d.tables[i]).1.len() < 0x1_0000_0000
    &&& d.prices.len() < 0x1_0000_0000
    &&& forall|i: int| 0 <= i < d.prices.len() ==> (#[trigger] d.prices[i]).len() < 0x1_0000_0000
    &&& d.names.len() < 0x1_0000_0000
    &&& forall|i: int| 0 <= i < d.names.len() ==> is_writable(#[trigger] d.names[i])
    &&& d.users.len() < 0x1_0000_0000
    &&& forall|i: int| 0 <= i < d.users.len() ==> is_sound(#[trigger] d.users[i])
}

/// The market of a dex as a snapshot writes it.
pub open spec fn meta_bytes(d: WrittenDex) -> Seq<u8> {
    map_bytes(
        seq![
            (
                "universe"@,
                array_bytes(d.universe.map_values(|x: AssetModel| asset_bytes(x))),
            ),
            (
                "marginTableIdToMarginTable"@,
                array_bytes(d.tables.map_values(|e: (u32, Seq<MarginTier>)| table_bytes(e))),
            ),
            ("collateralToken"@, int_bytes(d.token as i64)),
            ("pdi"@, int_bytes(d.pdi as i64)),
        ],
    )
}

/// The oracle of a dex as a snapshot writes it.
pub open spec fn oracle_bytes(d: WrittenDex) -> Seq<u8> {
    map_bytes(
        seq![("pxs"@, array_bytes(d.prices.map_values(|p: Seq<i64>| samples_bytes(p))))],
    )
}

/// A dex as a snapshot writes it.
pub open spec fn dex_bytes(d: WrittenDex) -> Seq<u8> {
    map_bytes(
        seq![
            ("meta"@, meta_bytes(d)),
            ("oracle"@, oracle_bytes(d)),
            ("user_states"@, states_bytes(d.names, d.users, true)),
        ],
    )
}

/// The dex that was written, before leverage that was not given is filled in.
pub open spec fn dex_of(d: WrittenDex) -> DexModel {
    DexModel {
        pdi: d.pdi,
        universe: d.universe,
        margin_tables: folded(
            Map::<u32, Seq<MarginTier>>::empty(),
            d.tables,
            |a: Map<u32, Seq<MarginTier>>, e: (u32, Seq<MarginTier>)| a.insert(e.0, e.1),
            d.tables.len() as int,
        ),
        oracle_prices: d.prices.map_values(|p: Seq<i64>| first_price(p)),
        users: users_of(d.users).users,
        collateral_token: d.token,
        partials: users_of(d.users).partials,
    }
}

proof fn lemma_universe_field(d: WrittenDex, a: DexModel)
    requires
        dex_is_sound(d),
    ensures
        field_reads(
            |k: Seq<char>, a: DexModel, s: Seq<u8>| dex::meta_field(k, a, s),
            "universe"@,
            a,
            array_bytes(d.universe.map_values(|x: AssetModel| asset_bytes(x))),
            DexModel { universe: d.universe, ..a },
        ),
{
    let f: spec_fn(Seq<char>, DexModel, Seq<u8>) -> Option<(DexModel, Seq<u8>)> = |k, a, s|
        dex::meta_field(k, a, s);
    let us = array_bytes(d.universe.map_values(|x: AssetModel| asset_bytes(x)));
    reveal(field_reads);
    assert forall|r: Seq<u8>| #[trigger]
        f("universe"@, a, us + r) == Some((DexModel { universe: d.universe, ..a }, r)) by {
        crate::clearing_house::snapshot_list_laws::law_universes_are_read_back(d.universe, r);
    }
}

proof fn lemma_tables_field(d: WrittenDex, a: DexModel)
    requires
        dex_is_sound(d),
    ensures
        field_reads(
            |k: Seq<char>, a: DexModel, s: Seq<u8>| dex::meta_field(k, a, s),
            "marginTableIdToMarginTable"@,
            a,
            array_bytes(d.tables.map_values(|e: (u32, Seq<MarginTier>)| table_bytes(e))),
            DexModel { margin_tables: dex_of(d).margin_tables, ..a },
        ),
{
    lemma_state_keys();
    let f: spec_fn(Seq<char>, DexModel, Seq<u8>) -> Option<(DexModel, Seq<u8>)> = |k, a, s|
        dex::meta_field(k, a, s);
    let ts = array_bytes(d.tables.map_values(|e: (u32, Seq<MarginTier>)| table_bytes(e)));
    let b = DexModel { margin_tables: dex_of(d).margin_tables, ..a };
    reveal(field_reads);
    assert forall|r: Seq<u8>| #[trigger]
        f("marginTableIdToMarginTable"@, a, ts + r) == Some((b, r)) by {
        crate::clearing_house::snapshot_list_laws::law_margin_tables_are_read_back(d.tables, r);
    }
}

proof fn lemma_number_fields(d: WrittenDex, a: DexModel, b: DexModel)
    ensures
        field_reads(
            |k: Seq<char>, a: DexModel, s: Seq<u8>| dex::meta_field(k, a, s),
            "collateralToken"@,
            a,
            int_bytes(d.token as i64),
            DexModel { collateral_token: d.token, ..a },
        ),
        field_reads(
            |k: Seq<char>, a: DexModel, s: Seq<u8>| dex::meta_field(k, a, s),
            "pdi"@,
            b,
            int_bytes(d.pdi as i64),
            DexModel { pdi: d.pdi, ..b },
        ),
{
    lemma_state_keys();
    let f: spec_fn(Seq<char>, DexModel, Seq<u8>) -> Option<(DexModel, Seq<u8>)> = |k, a, s|
        dex::meta_field(k, a, s);
    lemma_int_field(
        f,
        "collateralToken"@,
        a,
        d.token as i64,
        DexModel { collateral_token: d.token, ..a },
    );
    lemma_int_field(f, "pdi"@, b, d.pdi as i64, DexModel { pdi: d.pdi, ..b });
}

proof fn lemma_meta(d: WrittenDex, a: DexModel, rest: Seq<u8>)
    requires
        dex_is_sound(d),
    ensures
        walk::in_map(meta_bytes(d) + rest, a, |k, a, s| dex::meta_field(k, a, s)) == Some(
            (
                DexModel {
                    universe: dex_of(d).universe,
                    margin_tables: dex_of(d).margin_tables,
                    collateral_token: d.token,
                    pdi: d.pdi,
                    ..a
                },
                rest,
            ),
        ),
{
    lemma_state_keys();
    let f: spec_fn(Seq<char>, DexModel, Seq<u8>) -> Option<(DexModel, Seq<u8>)> = |k, a, s|
        dex::meta_field(k, a, s);
    let us = array_bytes(d.universe.map_values(|x: AssetModel| asset_bytes(x)));
    let ts = array_bytes(d.tables.map_values(|e: (u32, Seq<MarginTier>)| table_bytes(e)));
    let a1 = DexModel { universe: d.universe, ..a };
    let a2 = DexModel { margin_tables: dex_of(d).margin_tables, ..a1 };
    let a3 = DexModel { collateral_token: d.token, ..a2 };
    let a4 = DexModel { pdi: d.pdi, ..a3 };
    lemma_universe_field(d, a);
    lemma_tables_field(d, a1);
    lemma_number_fields(d, a2, a3);
    lemma_four_fields(
        ("universe"@, us),
        ("marginTableIdToMarginTable"@, ts),
        ("collateralToken"@, int_bytes(d.token as i64)),
        ("pdi"@, int_bytes(d.pdi as i64)),
        a,
        a1,
        a2,
        a3,
        a4,
        f,
        rest,
    );
}

proof fn lemma_oracle(d: WrittenDex, a: DexModel, rest: Seq<u8>)
    requires
        dex_is_sound(d),
    ensures
        walk::in_map(oracle_bytes(d) + rest, a, |k, a, s| dex::oracle_field(k, a, s)) == Some(
            (DexModel { oracle_prices: dex_of(d).oracle_prices, ..a }, rest),
        ),
{
    lemma_state_keys();
    let f: spec_fn(Seq<char>, DexModel, Seq<u8>) -> Option<(DexModel, Seq<u8>)> = |k, a, s|
        dex::oracle_field(k, a, s);
    let ps = array_bytes(d.prices.map_values(|p: Seq<i64>| samples_bytes(p)));
    let a1 = DexModel { oracle_prices: dex_of(d).oracle_prices, ..a };
    assert(field_reads(f, "pxs"@, a, ps, a1)) by {
        reveal(field_reads);
        assert forall|r: Seq<u8>| #[trigger] f("pxs"@, a, ps + r) == Some((a1, r)) by {
            crate::clearing_house::snapshot_list_laws::law_oracle_prices_are_read_back(d.prices, r);
        }
    }
    lemma_map_reads(seq![("pxs"@, ps)], seq![a, a1], f, rest);
}

proof fn lemma_meta_field(d: WrittenDex, a: DexModel)
    requires
        dex_is_sound(d),
    ensures
        field_reads(
            |k: Seq<char>, a: DexModel, s: Seq<u8>| dex::dex_field(k, a, s),
            "meta"@,
            a,
            meta_bytes(d),
            DexModel {
                universe: dex_of(d).universe,
                margin_tables: dex_of(d).margin_tables,
                collateral_token: d.token,
                pdi: d.pdi,
                ..a
            },
        ),
{
    let f: spec_fn(Seq<char>, DexModel, Seq<u8>) -> Option<(DexModel, Seq<u8>)> = |k, a, s|
        dex::dex_field(k, a, s);
    let b = DexModel {
        universe: dex_of(d).universe,
        margin_tables: dex_of(d).margin_tables,
        collateral_token: d.token,
        pdi: d.pdi,
        ..a
    };
    reveal(field_reads);
    assert forall|r: Seq<u8>| #[trigger] f("meta"@, a, meta_bytes(d) + r) == Some((b, r)) by {
        lemma_meta(d, a, r);
    }
}

proof fn lemma_oracle_field(d: WrittenDex, a: DexModel)
    requires
        dex_is_sound(d),
    ensures
        field_reads(
            |k: Seq<char>, a: DexModel, s: Seq<u8>| dex::dex_field(k, a, s),
            "oracle"@,
            a,
            oracle_bytes(d),
            DexModel { oracle_prices: dex_of(d).oracle_prices, ..a },
        ),
{
    lemma_state_keys();
    let f: spec_fn(Seq<char>, DexModel, Seq<u8>) -> Option<(DexModel, Seq<u8>)> = |k, a, s|
        dex::dex_field(k, a, s);
    let b = DexModel { oracle_prices: dex_of(d).oracle_prices, ..a };
    reveal(field_reads);
    assert forall|r: Seq<u8>| #[trigger] f("oracle"@, a, oracle_bytes(d) + r) == Some((b, r)) by {
        lemma_oracle(d, a, r);
    }
}

proof fn lemma_users_field(d: WrittenDex, a: DexModel)
    requires
        dex_is_sound(d),
    ensures
        field_reads(
            |k: Seq<char>, a: DexModel, s: Seq<u8>| dex::dex_field(k, a, s),
            "user_states"@,
            a,
            states_bytes(d.names, d.users, true),
            DexModel { users: dex_of(d).users, partials: dex_of(d).partials, ..a },
        ),
{
    lemma_state_keys();
    let f: spec_fn(Seq<char>, DexModel, Seq<u8>) -> Option<(DexModel, Seq<u8>)> = |k, a, s|
        dex::dex_field(k, a, s);
    let us = states_bytes(d.names, d.users, true);
    let b = DexModel { users: dex_of(d).users, partials: dex_of(d).partials, ..a };
    reveal(field_reads);
    assert forall|r: Seq<u8>| #[trigger] f("user_states"@, a, us + r) == Some((b, r)) by {
        law_user_states_are_read_back(d.names, d.users, true, r);
    }
}

/// A dex is read back with its market, its oracle prices and its users; only leverage that was not
/// given is filled in.
pub proof fn law_dexes_are_read_back(d: WrittenDex, rest: Seq<u8>)
    requires
        dex_is_sound(d),
    ensures
        dex::dex_at(dex_bytes(d) + rest) == Some((dex::resolved_dex(dex_of(d)), rest)),
{
    lemma_state_keys();
    let f: spec_fn(Seq<char>, DexModel, Seq<u8>) -> Option<(DexModel, Seq<u8>)> = |k, a, s|
        dex::dex_field(k, a, s);
    let a0 = dex::no_dex();
    let w = dex_of(d);
    let a1 = DexModel {
        universe: w.universe,
        margin_tables: w.margin_tables,
        collateral_token: d.token,
        pdi: d.pdi,
        ..a0
    };
    let a2 = DexModel { oracle_prices: w.oracle_prices, ..a1 };
    let a3 = DexModel { users: w.users, partials: w.partials, ..a2 };
    lemma_meta_field(d, a0);
    lemma_oracle_field(d, a1);
    lemma_users_field(d, a2);
    assert(a3 == w);
    lemma_three_fields(
        ("meta"@, meta_bytes(d)),
        ("oracle"@, oracle_bytes(d)),
        ("user_states"@, states_bytes(d.names, d.users, true)),
        a0,
        a1,
        a2,
        a3,
        f,
        rest,
    );
}

// ── Leverage that is not given ───────────────────────────────────────────

/// The greatest leverage that a market allows, twenty at most: on the main dex that of the first tier of
/// the asset's table, or the table's number where it has no tiers; elsewhere the position's own table
/// number, or else the asset's.
pub open spec fn allows(d: DexModel, a: u32, own: u32, max: u32) -> bool {
    let listed = a < d.universe.len();
    let table = if listed {
        d.universe[a as int].margin_table_id
    } else {
        20
    };
    let wish = if d.pdi > 0 {
        if own > 0 {
            own
        } else {
            table
        }
    } else if listed && d.margin_tables.contains_key(table) && d.margin_tables[table].len() > 0 {
        d.margin_tables[table][0].max_leverage
    } else {
        table
    };
    max <= 20 && max <= wish && (max == 20 || max == wish)
}

/// Whether a market has isolated positions only: where its asset says so, and where nothing is known
/// of the asset on any dex but the main one.
pub open spec fn isolates(d: DexModel, a: u32) -> bool {
    if a < d.universe.len() {
        d.universe[a as int].margin_mode != MarginMode::Normal
    } else {
        d.pdi > 0
    }
}

/// Leverage that a snapshot does not give is that of the market, cross where the market allows it.
/// Leverage that it gives, and everything else of a user, stays as it was read.
pub proof fn law_missing_leverage_is_the_market_s(d: DexModel, u: Seq<char>, a: u32)
    requires
        d.users.contains_key(u),
    ensures
        ({
            let e = dex::resolved_dex(d);
            let (was, now) = (d.users[u], e.users[u]);
            let (p, q) = (was.positions[a], now.positions[a]);
            &&& e.users.dom() == d.users.dom()
            &&& e.partials == d.partials
            &&& crate::clearing_house::action_laws::same_market(d, e)
            &&& now.positions.dom() == was.positions.dom()
            &&& now.leverage_settings.dom() == was.leverage_settings.dom()
            &&& (now.usdc_balance, now.spot_collateral, now.account_mode) == (
                was.usdc_balance,
                was.spot_collateral,
                was.account_mode,
            )
            &&& was.positions.contains_key(a) ==> (q.szi, q.cost_basis, q.outstanding_funding) == (
                p.szi,
                p.cost_basis,
                p.outstanding_funding,
            ) && q.margin_table_id == p.margin_table_id
            &&& was.positions.contains_key(a) && p.leverage != Leverage::Cross(0) ==> q.leverage
                == p.leverage
            &&& was.positions.contains_key(a) && p.leverage == Leverage::Cross(0) ==> if isolates(d, a) {
                q.leverage is Isolated && q.leverage->raw_usd == 0 && allows(
                    d,
                    a,
                    p.margin_table_id,
                    q.leverage->leverage,
                )
            } else {
                q.leverage matches Leverage::Cross(max) && allows(d, a, p.margin_table_id, max)
            }
            &&& was.leverage_settings.contains_key(a) && was.leverage_settings[a] != Leverage::Cross(0)
                ==> now.leverage_settings[a] == was.leverage_settings[a]
            &&& was.leverage_settings.contains_key(a) && was.leverage_settings[a] == Leverage::Cross(0)
                ==> if isolates(d, a) {
                now.leverage_settings[a] is Isolated && allows(
                    d,
                    a,
                    0,
                    now.leverage_settings[a]->leverage,
                )
            } else {
                now.leverage_settings[a] matches Leverage::Cross(max) && allows(d, a, 0, max)
            }
        }),
{
    let e = dex::resolved_dex(d);
    assert(e.users.dom() =~= d.users.dom());
    assert(e.users[u].positions.dom() =~= d.users[u].positions.dom());
    assert(e.users[u].leverage_settings.dom() =~= d.users[u].leverage_settings.dom());
}

} // verus!

//! The lists of a snapshot are read back: markets, prices, modes, balances, loans, vaults and settings.
use crate::clearing_house::rmp_streaming as walk;
use crate::clearing_house::rmp_streaming::locus;
use crate::clearing_house::rmp_streaming::ModesModel;
use crate::clearing_house::snapshot_laws::{
    field_reads,
    item_reads,
    lemma_array_reads,
    lemma_map_reads,
    lemma_pair_reads,
    lemma_short,
    pair_bytes,
};
use crate::clearing_house::{AccountMode, AssetModel, MarginMode, MarginTier};
use crate::msgpack::Out;
use crate::msgpack_laws::{
    array_bytes,
    array_head,
    int_bytes,
    is_value,
    is_writable,
    joined,
    law_heads_are_read_back,
    law_ints_are_read_back,
    law_texts_are_read_back,
    lemma_grouped,
    lemma_scalar_values,
    map_bytes,
    text_bytes,
};
use vstd::prelude::*;

verus! {

// ── Lists ────────────────────────────────────────────────────────────────

/// What has been read with the first `n` of the entries.
pub open spec fn folded<A, E>(a: A, es: Seq<E>, g: spec_fn(A, E) -> A, n: int) -> A
    decreases n,
{
    if n <= 0 {
        a
    } else {
        g(folded(a, es, g, n - 1), es[n - 1])
    }
}

/// A list whose items are each read is read.
pub proof fn lemma_list_reads<A, E>(
    a: A,
    es: Seq<E>,
    enc: spec_fn(E) -> Seq<u8>,
    g: spec_fn(A, E) -> A,
    f: spec_fn(A, Seq<u8>) -> Option<(A, Seq<u8>)>,
    rest: Seq<u8>,
)
    requires
        es.len() < 0x1_0000_0000,
        forall|b: A, i: int|
            #![trigger g(b, es[i])]
            0 <= i < es.len() ==> item_reads(f, b, enc(es[i]), g(b, es[i])),
    ensures
        walk::in_array(array_bytes(es.map_values(enc)) + rest, a, f) == Some(
            (folded(a, es, g, es.len() as int), rest),
        ),
{
    let bytes = es.map_values(enc);
    let accs = Seq::new((es.len() + 1) as nat, |i: int| folded(a, es, g, i));
    assert forall|j: int| 0 <= j < bytes.len() implies item_reads(
        f,
        accs[j],
        #[trigger] bytes[j],
        accs[j + 1],
    ) by {
        assert(accs[j + 1] == g(accs[j], es[j]));
    }
    lemma_array_reads(bytes, accs, f, rest);
}

/// A field that is an integer is read.
pub proof fn lemma_int_field<A>(
    f: spec_fn(Seq<char>, A, Seq<u8>) -> Option<(A, Seq<u8>)>,
    k: Seq<char>,
    a: A,
    v: i64,
    b: A,
)
    requires
        forall|s: Seq<u8>, r: Seq<u8>|
            crate::msgpack::int_value(s) == Out::Good(v, r) ==> #[trigger] f(k, a, s) == Some(
                (b, #[trigger] tail_of(s, r)),
            ),
    ensures
        field_reads(f, k, a, int_bytes(v), b),
{
    reveal(field_reads);
    assert forall|r: Seq<u8>| #[trigger] f(k, a, int_bytes(v) + r) == Some((b, r)) by {
        law_ints_are_read_back(v, r);
        assert(tail_of(int_bytes(v) + r, r) == r);
    }
}

/// What stands behind a value.
pub open spec fn tail_of(s: Seq<u8>, r: Seq<u8>) -> Seq<u8> {
    r
}

/// A field that is a text is read.
pub proof fn lemma_text_field<A>(
    f: spec_fn(Seq<char>, A, Seq<u8>) -> Option<(A, Seq<u8>)>,
    k: Seq<char>,
    a: A,
    v: Seq<char>,
    b: A,
)
    requires
        is_writable(v),
        forall|s: Seq<u8>, r: Seq<u8>|
            crate::msgpack::text(s) == Out::Good(v, r) ==> #[trigger] f(k, a, s) == Some(
                (b, #[trigger] tail_of(s, r)),
            ),
    ensures
        field_reads(f, k, a, text_bytes(v), b),
{
    reveal(field_reads);
    assert forall|r: Seq<u8>| #[trigger] f(k, a, text_bytes(v) + r) == Some((b, r)) by {
        law_texts_are_read_back(v, r);
        assert(tail_of(text_bytes(v) + r, r) == r);
    }
}

// ── Markets ──────────────────────────────────────────────────────────────

proof fn lemma_market_keys()
    ensures
        is_writable("name"@) && is_writable("szDecimals"@) && is_writable("marginTableId"@)
            && is_writable("marginMode"@) && is_writable("noCross"@) && is_writable(
            "strictIsolated"@,
        ),
        is_writable("lower_bound"@) && is_writable("max_leverage"@) && is_writable(
            "maintenance_deduction"@,
        ) && is_writable("margin_tiers"@) && is_writable("px"@),
        "name"@ != "szDecimals"@ && "name"@ != "marginTableId"@ && "name"@ != "marginMode"@,
        "szDecimals"@ != "marginTableId"@ && "szDecimals"@ != "marginMode"@,
        "marginTableId"@ != "marginMode"@,
        "lower_bound"@ != "max_leverage"@ && "lower_bound"@ != "maintenance_deduction"@,
        "max_leverage"@ != "maintenance_deduction"@,
        "noCross"@ != "strictIsolated"@,
{
    reveal_strlit("name");
    reveal_strlit("szDecimals");
    reveal_strlit("marginTableId");
    reveal_strlit("marginMode");
    reveal_strlit("noCross");
    reveal_strlit("strictIsolated");
    reveal_strlit("lower_bound");
    reveal_strlit("max_leverage");
    reveal_strlit("maintenance_deduction");
    reveal_strlit("margin_tiers");
    reveal_strlit("px");
    lemma_short("name"@);
    lemma_short("szDecimals"@);
    lemma_short("marginTableId"@);
    lemma_short("marginMode"@);
    lemma_short("noCross"@);
    lemma_short("strictIsolated"@);
    lemma_short("lower_bound"@);
    lemma_short("max_leverage"@);
    lemma_short("maintenance_deduction"@);
    lemma_short("margin_tiers"@);
    lemma_short("px"@);
    assert("name"@.len() == 4 && "szDecimals"@.len() == 10 && "marginTableId"@.len() == 13);
    assert("marginMode"@.len() == 10 && "marginMode"@[0] == 'm' && "szDecimals"@[0] == 's');
    assert("lower_bound"@.len() == 11 && "max_leverage"@.len() == 12 && "maintenance_deduction"@.len()
        == 21);
    assert("noCross"@.len() == 7 && "strictIsolated"@.len() == 14);
}

/// The name of a margin mode; the ordinary one has none.
pub open spec fn mode_name(m: MarginMode) -> Seq<char> {
    match m {
        MarginMode::NoCross => "noCross"@,
        MarginMode::StrictIsolated => "strictIsolated"@,
        MarginMode::Normal => Seq::empty(),
    }
}

/// An asset as a snapshot writes it. The margin mode is written where it is not the ordinary one.
pub open spec fn asset_bytes(x: AssetModel) -> Seq<u8> {
    let base = seq![
        ("szDecimals"@, int_bytes(x.sz_decimals as i64)),
        ("name"@, text_bytes(x.name)),
        ("marginTableId"@, int_bytes(x.margin_table_id as i64)),
    ];
    if x.margin_mode is Normal {
        map_bytes(base)
    } else {
        map_bytes(base.push(("marginMode"@, text_bytes(mode_name(x.margin_mode)))))
    }
}

proof fn lemma_asset(before: Seq<AssetModel>, x: AssetModel)
    requires
        is_writable(x.name),
    ensures
        item_reads(
            |a: Seq<AssetModel>, s: Seq<u8>| walk::one_asset(a, s),
            before,
            asset_bytes(x),
            before.push(x),
        ),
{
    lemma_market_keys();
    let f: spec_fn(Seq<char>, AssetModel, Seq<u8>) -> Option<(AssetModel, Seq<u8>)> = |k, a, s|
        walk::asset_field(k, a, s);
    let a0 = AssetModel {
        name: Seq::empty(),
        sz_decimals: 0,
        margin_table_id: 0,
        margin_mode: MarginMode::Normal,
    };
    let a1 = AssetModel { sz_decimals: x.sz_decimals, ..a0 };
    let a2 = AssetModel { name: x.name, ..a1 };
    let a3 = AssetModel { margin_table_id: x.margin_table_id, ..a2 };
    lemma_int_field(f, "szDecimals"@, a0, x.sz_decimals as i64, a1);
    lemma_text_field(f, "name"@, a1, x.name, a2);
    lemma_int_field(f, "marginTableId"@, a2, x.margin_table_id as i64, a3);
    let base = seq![
        ("szDecimals"@, int_bytes(x.sz_decimals as i64)),
        ("name"@, text_bytes(x.name)),
        ("marginTableId"@, int_bytes(x.margin_table_id as i64)),
    ];
    let g: spec_fn(Seq<AssetModel>, Seq<u8>) -> Option<(Seq<AssetModel>, Seq<u8>)> = |a, s|
        walk::one_asset(a, s);
    reveal(item_reads);
    assert forall|r: Seq<u8>| #[trigger] g(before, asset_bytes(x) + r) == Some((before.push(x), r)) by {
        if x.margin_mode is Normal {
            lemma_map_reads(base, seq![a0, a1, a2, a3], f, r);
            assert(a3 == x);
        } else {
            lemma_text_field(f, "marginMode"@, a3, mode_name(x.margin_mode), x);
            lemma_map_reads(
                base.push(("marginMode"@, text_bytes(mode_name(x.margin_mode)))),
                seq![a0, a1, a2, a3, x],
                f,
                r,
            );
        }
    }
}

/// The assets of a dex are read back, in order and with all that is said of them.
pub proof fn law_universes_are_read_back(xs: Seq<AssetModel>, rest: Seq<u8>)
    requires
        xs.len() < 0x1_0000_0000,
        forall|i: int| 0 <= i < xs.len() ==> is_writable((#[trigger] xs[i]).name),
    ensures
        walk::universe_at(array_bytes(xs.map_values(|x: AssetModel| asset_bytes(x))) + rest) == Some(
            (xs, rest),
        ),
{
    let g = |a: Seq<AssetModel>, x: AssetModel| a.push(x);
    let f = |a: Seq<AssetModel>, s: Seq<u8>| walk::one_asset(a, s);
    let none = Seq::<AssetModel>::empty();
    assert forall|b: Seq<AssetModel>, i: int|
        #![trigger g(b, xs[i])]
        0 <= i < xs.len() implies item_reads(f, b, asset_bytes(xs[i]), g(b, xs[i])) by {
        lemma_asset(b, xs[i]);
    }
    lemma_list_reads(none, xs, |x: AssetModel| asset_bytes(x), g, f, rest);
    lemma_pushed(xs, xs.len() as int);
}

proof fn lemma_pushed<E>(xs: Seq<E>, n: int)
    requires
        0 <= n <= xs.len(),
    ensures
        folded(Seq::<E>::empty(), xs, |a: Seq<E>, x: E| a.push(x), n) == xs.take(n),
        n == xs.len() ==> xs.take(n) == xs,
    decreases n,
{
    if n > 0 {
        lemma_pushed(xs, n - 1);
        assert(xs.take(n) =~= xs.take(n - 1).push(xs[n - 1]));
    } else {
        assert(xs.take(0) =~= Seq::<E>::empty());
    }
    if n == xs.len() {
        assert(xs.take(n) =~= xs);
    }
}

/// A margin tier as a snapshot writes it.
pub open spec fn tier_bytes(x: MarginTier) -> Seq<u8> {
    map_bytes(
        seq![
            ("lower_bound"@, int_bytes(x.lower_bound)),
            ("max_leverage"@, int_bytes(x.max_leverage as i64)),
            ("maintenance_deduction"@, int_bytes(x.maintenance_deduction)),
        ],
    )
}

proof fn lemma_tier(before: Seq<MarginTier>, x: MarginTier)
    ensures
        item_reads(
            |a: Seq<MarginTier>, s: Seq<u8>| walk::one_tier(a, s),
            before,
            tier_bytes(x),
            before.push(x),
        ),
{
    lemma_market_keys();
    let f: spec_fn(Seq<char>, MarginTier, Seq<u8>) -> Option<(MarginTier, Seq<u8>)> = |k, a, s|
        walk::tier_field(k, a, s);
    let a0 = MarginTier { lower_bound: 0, max_leverage: 0, maintenance_deduction: 0 };
    let a1 = MarginTier { lower_bound: x.lower_bound, ..a0 };
    let a2 = MarginTier { max_leverage: x.max_leverage, ..a1 };
    lemma_int_field(f, "lower_bound"@, a0, x.lower_bound, a1);
    lemma_int_field(f, "max_leverage"@, a1, x.max_leverage as i64, a2);
    lemma_int_field(f, "maintenance_deduction"@, a2, x.maintenance_deduction, x);
    let g: spec_fn(Seq<MarginTier>, Seq<u8>) -> Option<(Seq<MarginTier>, Seq<u8>)> = |a, s|
        walk::one_tier(a, s);
    reveal(item_reads);
    assert forall|r: Seq<u8>| #[trigger] g(before, tier_bytes(x) + r) == Some((before.push(x), r)) by {
        lemma_map_reads(
            seq![
                ("lower_bound"@, int_bytes(x.lower_bound)),
                ("max_leverage"@, int_bytes(x.max_leverage as i64)),
                ("maintenance_deduction"@, int_bytes(x.maintenance_deduction)),
            ],
            seq![a0, a1, a2, x],
            f,
            r,
        );
    }
}

/// The tiers of a margin table as a snapshot writes them.
pub open spec fn tiers_bytes(xs: Seq<MarginTier>) -> Seq<u8> {
    array_bytes(xs.map_values(|x: MarginTier| tier_bytes(x)))
}

/// A margin table as a snapshot writes it: its number, and its tiers.
pub open spec fn table_bytes(e: (u32, Seq<MarginTier>)) -> Seq<u8> {
    pair_bytes(int_bytes(e.0 as i64), map_bytes(seq![("margin_tiers"@, tiers_bytes(e.1))]))
}

proof fn lemma_tiers(xs: Seq<MarginTier>, rest: Seq<u8>)
    requires
        xs.len() < 0x1_0000_0000,
    ensures
        walk::in_map(
            map_bytes(seq![("margin_tiers"@, tiers_bytes(xs))]) + rest,
            Seq::<MarginTier>::empty(),
            |k, a, s| walk::table_field(k, a, s),
        ) == Some((xs, rest)),
{
    lemma_market_keys();
    let none = Seq::<MarginTier>::empty();
    let f: spec_fn(Seq<char>, Seq<MarginTier>, Seq<u8>) -> Option<(Seq<MarginTier>, Seq<u8>)> =
        |k, a, s| walk::table_field(k, a, s);
    let g = |a: Seq<MarginTier>, x: MarginTier| a.push(x);
    let h = |a: Seq<MarginTier>, s: Seq<u8>| walk::one_tier(a, s);
    assert forall|b: Seq<MarginTier>, i: int|
        #![trigger g(b, xs[i])]
        0 <= i < xs.len() implies item_reads(h, b, tier_bytes(xs[i]), g(b, xs[i])) by {
        lemma_tier(b, xs[i]);
    }
    assert(field_reads(f, "margin_tiers"@, none, tiers_bytes(xs), xs)) by {
        reveal(field_reads);
        assert forall|r: Seq<u8>| #[trigger]
            f("margin_tiers"@, none, tiers_bytes(xs) + r) == Some((xs, r)) by {
            lemma_list_reads(none, xs, |x: MarginTier| tier_bytes(x), g, h, r);
            lemma_pushed(xs, xs.len() as int);
        }
    }
    lemma_map_reads(seq![("margin_tiers"@, tiers_bytes(xs))], seq![none, xs], f, rest);
}

/// The margin tables of a dex are read back: each under its number, with all its tiers.
pub proof fn law_margin_tables_are_read_back(es: Seq<(u32, Seq<MarginTier>)>, rest: Seq<u8>)
    requires
        es.len() < 0x1_0000_0000,
        forall|i: int| 0 <= i < es.len() ==> (#[trigger] es[i]).1.len() < 0x1_0000_0000,
    ensures
        walk::tables_at(
            array_bytes(es.map_values(|e: (u32, Seq<MarginTier>)| table_bytes(e))) + rest,
        ) == Some(
            (
                folded(
                    Map::<u32, Seq<MarginTier>>::empty(),
                    es,
                    |a: Map<u32, Seq<MarginTier>>, e: (u32, Seq<MarginTier>)| a.insert(e.0, e.1),
                    es.len() as int,
                ),
                rest,
            ),
        ),
{
    let none = Map::<u32, Seq<MarginTier>>::empty();
    let g = |a: Map<u32, Seq<MarginTier>>, e: (u32, Seq<MarginTier>)| a.insert(e.0, e.1);
    let p: spec_fn(Map<u32, Seq<MarginTier>>, Seq<u8>) -> Option<(Map<u32, Seq<MarginTier>>, Seq<u8>)> =
        |a, s| walk::one_table(a, s);
    let h: spec_fn(Map<u32, Seq<MarginTier>>, Seq<u8>) -> Option<(Map<u32, Seq<MarginTier>>, Seq<u8>)> =
        |a, s| walk::in_pair(s, a, |a, s| walk::one_table(a, s));
    assert forall|b: Map<u32, Seq<MarginTier>>, i: int|
        #![trigger g(b, es[i])]
        0 <= i < es.len() implies item_reads(h, b, table_bytes(es[i]), g(b, es[i])) by {
        let e = es[i];
        let x = int_bytes(e.0 as i64);
        let y = map_bytes(seq![("margin_tiers"@, tiers_bytes(e.1))]);
        assert(item_reads(p, b, x + y, g(b, e))) by {
            reveal(item_reads);
            assert forall|r: Seq<u8>| #[trigger] p(b, x + y + r) == Some((g(b, e), r)) by {
                lemma_grouped(x, y, r, r);
                law_ints_are_read_back(e.0 as i64, y + r);
                lemma_tiers(e.1, r);
            }
        }
        reveal(item_reads);
        assert forall|r: Seq<u8>| #[trigger] h(b, table_bytes(e) + r) == Some((g(b, e), r)) by {
            lemma_pair_reads(x, y, b, g(b, e), p, r);
        }
    }
    lemma_list_reads(none, es, |e: (u32, Seq<MarginTier>)| table_bytes(e), g, h, rest);
}

// ── Prices ───────────────────────────────────────────────────────────────

/// The samples of an oracle price as a snapshot writes them.
pub open spec fn samples_bytes(pxs: Seq<i64>) -> Seq<u8> {
    array_bytes(pxs.map_values(|p: i64| sample_bytes(p)))
}

/// One sample.
pub open spec fn sample_bytes(p: i64) -> Seq<u8> {
    map_bytes(seq![("px"@, int_bytes(p))])
}

/// The price that counts: the first, or nothing where there is none.
pub open spec fn first_price(pxs: Seq<i64>) -> i64 {
    if pxs.len() == 0 {
        0
    } else {
        pxs[0]
    }
}

proof fn lemma_sample(p: i64, rest: Seq<u8>)
    ensures
        walk::in_map(sample_bytes(p) + rest, 0i64, |k, a, s| walk::price_field(k, a, s)) == Some(
            (p, rest),
        ),
        is_value(sample_bytes(p)),
{
    lemma_market_keys();
    let f: spec_fn(Seq<char>, i64, Seq<u8>) -> Option<(i64, Seq<u8>)> = |k, a, s|
        walk::price_field(k, a, s);
    lemma_int_field(f, "px"@, 0i64, p, p);
    lemma_map_reads(seq![("px"@, int_bytes(p))], seq![0i64, p], f, rest);
    lemma_scalar_values(p, Seq::empty());
    crate::msgpack_laws::law_maps_are_skipped(seq![("px"@, int_bytes(p))]);
}

proof fn lemma_samples(before: Seq<i64>, pxs: Seq<i64>)
    requires
        pxs.len() < 0x1_0000_0000,
    ensures
        item_reads(
            |a: Seq<i64>, s: Seq<u8>| walk::one_price(a, s),
            before,
            samples_bytes(pxs),
            before.push(first_price(pxs)),
        ),
{
    let g: spec_fn(Seq<i64>, Seq<u8>) -> Option<(Seq<i64>, Seq<u8>)> = |a, s| walk::one_price(a, s);
    let es = pxs.map_values(|p: i64| sample_bytes(p));
    let after = before.push(first_price(pxs));
    reveal(item_reads);
    assert forall|r: Seq<u8>| #[trigger] g(before, samples_bytes(pxs) + r) == Some((after, r)) by {
        reveal(array_bytes);
        let body = joined(es, 0) + r;
        lemma_grouped(array_head(es.len()), joined(es, 0), r, r);
        law_heads_are_read_back(es.len(), body);
        if pxs.len() == 0 {
            assert(body =~= r);
        } else {
            let tail = joined(es, 1) + r;
            assert(joined(es, 0) == es[0] + joined(es, 1));
            lemma_grouped(es[0], joined(es, 1), r, r);
            lemma_sample(pxs[0], tail);
            let others = es.skip(1);
            assert forall|j: int| 0 <= j < others.len() implies is_value(#[trigger] others[j]) by {
                lemma_sample(pxs[j + 1], Seq::empty());
            }
            lemma_rest_joined(es, 1);
            lemma_skipped_all(others, r);
        }
    }
}

proof fn lemma_rest_joined(es: Seq<Seq<u8>>, i: int)
    requires
        1 <= i <= es.len(),
    ensures
        joined(es, i) == joined(es.skip(1), i - 1),
    decreases es.len() - i,
{
    if i < es.len() {
        lemma_rest_joined(es, i + 1);
        assert(es.skip(1)[i - 1] == es[i]);
    }
}

proof fn lemma_skipped_all(es: Seq<Seq<u8>>, rest: Seq<u8>)
    requires
        forall|j: int| 0 <= j < es.len() ==> is_value(#[trigger] es[j]),
    ensures
        crate::msgpack::skipped_n(joined(es, 0) + rest, es.len()) == Out::Good((), rest),
{
    crate::msgpack_laws::lemma_skip_joined(es, 0, rest);
}

/// The oracle prices of a dex are read back: of each asset the first sample, and nothing where there is
/// none.
pub proof fn law_oracle_prices_are_read_back(es: Seq<Seq<i64>>, rest: Seq<u8>)
    requires
        es.len() < 0x1_0000_0000,
        forall|i: int| 0 <= i < es.len() ==> (#[trigger] es[i]).len() < 0x1_0000_0000,
    ensures
        walk::prices_at(array_bytes(es.map_values(|p: Seq<i64>| samples_bytes(p))) + rest) == Some(
            (es.map_values(|p: Seq<i64>| first_price(p)), rest),
        ),
{
    let g = |a: Seq<i64>, p: Seq<i64>| a.push(first_price(p));
    let f = |a: Seq<i64>, s: Seq<u8>| walk::one_price(a, s);
    let none = Seq::<i64>::empty();
    assert forall|b: Seq<i64>, i: int|
        #![trigger g(b, es[i])]
        0 <= i < es.len() implies item_reads(f, b, samples_bytes(es[i]), g(b, es[i])) by {
        lemma_samples(b, es[i]);
    }
    lemma_list_reads(none, es, |p: Seq<i64>| samples_bytes(p), g, f, rest);
    lemma_firsts(es, es.len() as int);
}

proof fn lemma_firsts(es: Seq<Seq<i64>>, n: int)
    requires
        0 <= n <= es.len(),
    ensures
        folded(Seq::<i64>::empty(), es, |a: Seq<i64>, p: Seq<i64>| a.push(first_price(p)), n)
            == es.map_values(|p: Seq<i64>| first_price(p)).take(n),
        n == es.len() ==> es.map_values(|p: Seq<i64>| first_price(p)).take(n) == es.map_values(
            |p: Seq<i64>| first_price(p),
        ),
    decreases n,
{
    let all = es.map_values(|p: Seq<i64>| first_price(p));
    if n > 0 {
        lemma_firsts(es, n - 1);
        assert(all.take(n) =~= all.take(n - 1).push(first_price(es[n - 1])));
    } else {
        assert(all.take(0) =~= Seq::<i64>::empty());
    }
    if n == es.len() {
        assert(all.take(n) =~= all);
    }
}

// ── Modes ────────────────────────────────────────────────────────────────

/// The letter of an account mode; the standard one may have any other.
pub open spec fn mode_letter(m: AccountMode) -> Seq<char> {
    match m {
        AccountMode::Unified => "u"@,
        AccountMode::DexAbstraction => "d"@,
        AccountMode::PortfolioMargin => "p"@,
        AccountMode::Standard => "s"@,
    }
}

/// A user's mode as a snapshot writes it.
pub open spec fn mode_bytes(e: (Seq<char>, AccountMode)) -> Seq<u8> {
    pair_bytes(text_bytes(e.0), map_bytes(seq![("a"@, text_bytes(mode_letter(e.1)))]))
}

/// The modes with one more: those that are not standard are kept, and who is on portfolio margin is
/// listed apart too.
pub open spec fn mode_kept(a: ModesModel, e: (Seq<char>, AccountMode)) -> ModesModel {
    if e.1 == AccountMode::Standard {
        a
    } else if e.1 == AccountMode::PortfolioMargin {
        ModesModel {
            modes: a.modes.insert(e.0, e.1),
            portfolio_margin: a.portfolio_margin.insert(e.0, ()),
        }
    } else {
        ModesModel { modes: a.modes.insert(e.0, e.1), portfolio_margin: a.portfolio_margin }
    }
}

proof fn lemma_mode_keys()
    ensures
        is_writable("a"@) && is_writable("u"@) && is_writable("d"@) && is_writable("p"@)
            && is_writable("s"@),
        "u"@ != "d"@ && "u"@ != "p"@ && "u"@ != "s"@ && "d"@ != "p"@ && "d"@ != "s"@ && "p"@ != "s"@,
{
    reveal_strlit("a");
    reveal_strlit("u");
    reveal_strlit("d");
    reveal_strlit("p");
    reveal_strlit("s");
    lemma_short("a"@);
    lemma_short("u"@);
    lemma_short("d"@);
    lemma_short("p"@);
    lemma_short("s"@);
    assert("u"@[0] == 'u' && "d"@[0] == 'd' && "p"@[0] == 'p' && "s"@[0] == 's');
}

proof fn lemma_mode(m: AccountMode, rest: Seq<u8>)
    ensures
        walk::in_map(
            map_bytes(seq![("a"@, text_bytes(mode_letter(m)))]) + rest,
            AccountMode::Standard,
            |k, a, s| walk::mode_field(k, a, s),
        ) == Some((m, rest)),
{
    lemma_mode_keys();
    let f: spec_fn(Seq<char>, AccountMode, Seq<u8>) -> Option<(AccountMode, Seq<u8>)> = |k, a, s|
        walk::mode_field(k, a, s);
    lemma_text_field(f, "a"@, AccountMode::Standard, mode_letter(m), m);
    lemma_map_reads(
        seq![("a"@, text_bytes(mode_letter(m)))],
        seq![AccountMode::Standard, m],
        f,
        rest,
    );
}

/// The account modes are read back.
pub proof fn law_modes_are_read_back(es: Seq<(Seq<char>, AccountMode)>, rest: Seq<u8>)
    requires
        es.len() < 0x1_0000_0000,
        forall|i: int| 0 <= i < es.len() ==> is_writable((#[trigger] es[i]).0),
    ensures
        walk::modes_at(
            array_bytes(es.map_values(|e: (Seq<char>, AccountMode)| mode_bytes(e))) + rest,
        ) == Some(
            (
                folded(
                    ModesModel { modes: Map::empty(), portfolio_margin: Map::empty() },
                    es,
                    |a: ModesModel, e: (Seq<char>, AccountMode)| mode_kept(a, e),
                    es.len() as int,
                ),
                rest,
            ),
        ),
{
    let none = ModesModel { modes: Map::empty(), portfolio_margin: Map::empty() };
    let g = |a: ModesModel, e: (Seq<char>, AccountMode)| mode_kept(a, e);
    let p: spec_fn(ModesModel, Seq<u8>) -> Option<(ModesModel, Seq<u8>)> = |a, s| walk::one_mode(a, s);
    let h: spec_fn(ModesModel, Seq<u8>) -> Option<(ModesModel, Seq<u8>)> = |a, s|
        walk::in_pair(s, a, |a, s| walk::one_mode(a, s));
    assert forall|b: ModesModel, i: int|
        #![trigger g(b, es[i])]
        0 <= i < es.len() implies item_reads(h, b, mode_bytes(es[i]), g(b, es[i])) by {
        let e = es[i];
        let x = text_bytes(e.0);
        let y = map_bytes(seq![("a"@, text_bytes(mode_letter(e.1)))]);
        assert(item_reads(p, b, x + y, g(b, e))) by {
            reveal(item_reads);
            assert forall|r: Seq<u8>| #[trigger] p(b, x + y + r) == Some((g(b, e), r)) by {
                lemma_grouped(x, y, r, r);
                law_texts_are_read_back(e.0, y + r);
                lemma_mode(e.1, r);
            }
        }
        reveal(item_reads);
        assert forall|r: Seq<u8>| #[trigger] h(b, mode_bytes(e) + r) == Some((g(b, e), r)) by {
            lemma_pair_reads(x, y, b, g(b, e), p, r);
        }
    }
    lemma_list_reads(none, es, |e: (Seq<char>, AccountMode)| mode_bytes(e), g, h, rest);
}

// ── Order books ──────────────────────────────────────────────────────────

/// The leverage that a user has set in a book, as a snapshot writes it.
pub open spec fn setting_bytes(e: (u32, u32)) -> Seq<u8> {
    pair_bytes(int_bytes(e.0 as i64), map_bytes(seq![("l"@, int_bytes(e.1 as i64))]))
}

/// A user in a book as a snapshot writes them.
pub open spec fn book_user_bytes(e: (Seq<char>, Seq<(u32, u32)>)) -> Seq<u8> {
    pair_bytes(
        text_bytes(e.0),
        map_bytes(seq![("a"@, array_bytes(e.1.map_values(|x: (u32, u32)| setting_bytes(x))))]),
    )
}

/// The settings with one more: one above zero is kept under the asset.
pub open spec fn setting_kept(a: Map<u32, u32>, e: (u32, u32)) -> Map<u32, u32> {
    if e.1 == 0 {
        a
    } else {
        a.insert(e.0 % 10_000, e.1)
    }
}

/// All settings of a user.
pub open spec fn settings_of(xs: Seq<(u32, u32)>) -> Map<u32, u32> {
    folded(
        Map::<u32, u32>::empty(),
        xs,
        |a: Map<u32, u32>, x: (u32, u32)| setting_kept(a, x),
        xs.len() as int,
    )
}

proof fn lemma_book_keys()
    ensures
        is_writable("a"@) && is_writable("l"@),
{
    reveal_strlit("a");
    reveal_strlit("l");
    lemma_short("a"@);
    lemma_short("l"@);
}

proof fn lemma_setting(before: Map<u32, u32>, e: (u32, u32))
    ensures
        item_reads(
            |a: Map<u32, u32>, s: Seq<u8>| walk::in_pair(s, a, |a, s| locus::one_setting(a, s)),
            before,
            setting_bytes(e),
            setting_kept(before, e),
        ),
{
    lemma_book_keys();
    let f: spec_fn(Seq<char>, Option<u32>, Seq<u8>) -> Option<(Option<u32>, Seq<u8>)> = |k, a, s|
        locus::setting_field(k, a, s);
    let p: spec_fn(Map<u32, u32>, Seq<u8>) -> Option<(Map<u32, u32>, Seq<u8>)> = |a, s|
        locus::one_setting(a, s);
    let h: spec_fn(Map<u32, u32>, Seq<u8>) -> Option<(Map<u32, u32>, Seq<u8>)> = |a, s|
        walk::in_pair(s, a, |a, s| locus::one_setting(a, s));
    let x = int_bytes(e.0 as i64);
    let y = map_bytes(seq![("l"@, int_bytes(e.1 as i64))]);
    let after = setting_kept(before, e);
    lemma_int_field(f, "l"@, None::<u32>, e.1 as i64, Some(e.1));
    assert(item_reads(p, before, x + y, after)) by {
        reveal(item_reads);
        assert forall|r: Seq<u8>| #[trigger] p(before, x + y + r) == Some((after, r)) by {
            lemma_grouped(x, y, r, r);
            law_ints_are_read_back(e.0 as i64, y + r);
            lemma_map_reads(
                seq![("l"@, int_bytes(e.1 as i64))],
                seq![None::<u32>, Some(e.1)],
                f,
                r,
            );
        }
    }
    reveal(item_reads);
    assert forall|r: Seq<u8>| #[trigger] h(before, setting_bytes(e) + r) == Some((after, r)) by {
        lemma_pair_reads(x, y, before, after, p, r);
    }
}

/// The settings of the users of a book are read back: of every user who has one above zero, by asset.
pub proof fn law_book_settings_are_read_back(
    es: Seq<(Seq<char>, Seq<(u32, u32)>)>,
    rest: Seq<u8>,
)
    requires
        es.len() < 0x1_0000_0000,
        forall|i: int|
            0 <= i < es.len() ==> is_writable((#[trigger] es[i]).0) && es[i].1.len() < 0x1_0000_0000,
    ensures
        locus::book_users_at(
            array_bytes(es.map_values(|e: (Seq<char>, Seq<(u32, u32)>)| book_user_bytes(e))) + rest,
        ) == Some(
            (
                folded(
                    Map::<Seq<char>, Map<u32, u32>>::empty(),
                    es,
                    |a: Map<Seq<char>, Map<u32, u32>>, e: (Seq<char>, Seq<(u32, u32)>)|
                        if settings_of(e.1).dom() == Set::<u32>::empty() {
                            a
                        } else {
                            a.insert(e.0, settings_of(e.1))
                        },
                    es.len() as int,
                ),
                rest,
            ),
        ),
{
    lemma_book_keys();
    let none = Map::<Seq<char>, Map<u32, u32>>::empty();
    let g = |a: Map<Seq<char>, Map<u32, u32>>, e: (Seq<char>, Seq<(u32, u32)>)|
        if settings_of(e.1).dom() == Set::<u32>::empty() {
            a
        } else {
            a.insert(e.0, settings_of(e.1))
        };
    let p: spec_fn(Map<Seq<char>, Map<u32, u32>>, Seq<u8>) -> Option<
        (Map<Seq<char>, Map<u32, u32>>, Seq<u8>),
    > = |a, s| locus::one_book_user(a, s);
    let h: spec_fn(Map<Seq<char>, Map<u32, u32>>, Seq<u8>) -> Option<
        (Map<Seq<char>, Map<u32, u32>>, Seq<u8>),
    > = |a, s| walk::in_pair(s, a, |a, s| locus::one_book_user(a, s));
    assert forall|b: Map<Seq<char>, Map<u32, u32>>, i: int|
        #![trigger g(b, es[i])]
        0 <= i < es.len() implies item_reads(h, b, book_user_bytes(es[i]), g(b, es[i])) by {
        let e = es[i];
        let x = text_bytes(e.0);
        let list = array_bytes(e.1.map_values(|x: (u32, u32)| setting_bytes(x)));
        let y = map_bytes(seq![("a"@, list)]);
        assert(item_reads(p, b, x + y, g(b, e))) by {
            reveal(item_reads);
            assert forall|r: Seq<u8>| #[trigger] p(b, x + y + r) == Some((g(b, e), r)) by {
                lemma_grouped(x, y, r, r);
                law_texts_are_read_back(e.0, y + r);
                lemma_book_user(e.1, r);
            }
        }
        reveal(item_reads);
        assert forall|r: Seq<u8>| #[trigger] h(b, book_user_bytes(e) + r) == Some((g(b, e), r)) by {
            lemma_pair_reads(x, y, b, g(b, e), p, r);
        }
    }
    lemma_list_reads(none, es, |e: (Seq<char>, Seq<(u32, u32)>)| book_user_bytes(e), g, h, rest);
}

proof fn lemma_book_user(xs: Seq<(u32, u32)>, rest: Seq<u8>)
    requires
        xs.len() < 0x1_0000_0000,
    ensures
        walk::in_map(
            map_bytes(
                seq![("a"@, array_bytes(xs.map_values(|x: (u32, u32)| setting_bytes(x))))],
            ) + rest,
            Map::<u32, u32>::empty(),
            |k, a, s| locus::book_user_field(k, a, s),
        ) == Some((settings_of(xs), rest)),
{
    lemma_book_keys();
    let none = Map::<u32, u32>::empty();
    let f: spec_fn(Seq<char>, Map<u32, u32>, Seq<u8>) -> Option<(Map<u32, u32>, Seq<u8>)> =
        |k, a, s| locus::book_user_field(k, a, s);
    let g = |a: Map<u32, u32>, x: (u32, u32)| setting_kept(a, x);
    let h: spec_fn(Map<u32, u32>, Seq<u8>) -> Option<(Map<u32, u32>, Seq<u8>)> = |a, s|
        walk::in_pair(s, a, |a, s| locus::one_setting(a, s));
    let list = array_bytes(xs.map_values(|x: (u32, u32)| setting_bytes(x)));
    assert forall|b: Map<u32, u32>, i: int|
        #![trigger g(b, xs[i])]
        0 <= i < xs.len() implies item_reads(h, b, setting_bytes(xs[i]), g(b, xs[i])) by {
        lemma_setting(b, xs[i]);
    }
    assert(field_reads(f, "a"@, none, list, settings_of(xs))) by {
        reveal(field_reads);
        assert forall|r: Seq<u8>| #[trigger] f("a"@, none, list + r) == Some((settings_of(xs), r)) by {
            lemma_list_reads(none, xs, |x: (u32, u32)| setting_bytes(x), g, h, r);
        }
    }
    lemma_map_reads(seq![("a"@, list)], seq![none, settings_of(xs)], f, rest);
}

} // verus!

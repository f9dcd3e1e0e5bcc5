//! What a snapshot writes is read back as itself.
//!
//! Each record of a snapshot is written here as MessagePack, field by field under the names that a
//! snapshot uses, and shown to be read back with the values that went into it.
use crate::clearing_house::rmp_streaming::{
    fields,
    funding_field,
    in_array,
    in_map,
    in_pair,
    isolated_field,
    items,
    leverage_at,
    leverage_field,
    one_position,
    one_user,
    position_at,
    position_field,
    positions_field,
    user_at,
    user_field,
    PositionFields,
    UserFields,
    UsersModel,
};
use crate::clearing_house::{AccountMode, Leverage, PartialModel, Position};
use crate::msgpack_laws::{
    array_bytes,
    array_head,
    entry_bytes,
    int_bytes,
    is_value,
    is_writable,
    joined,
    law_heads_are_read_back,
    law_ints_are_read_back,
    law_texts_are_read_back,
    lemma_grouped,
    lemma_value,
    map_bytes,
    map_head,
    text_bytes,
};
use vstd::prelude::*;

verus! {

// ── Maps, arrays and pairs ───────────────────────────────────────────────

/// Whether a field of a map is read: its value takes what was read from one thing to the next, whatever
/// stands behind it.
#[verifier::opaque]
pub open spec fn field_reads<A>(
    f: spec_fn(Seq<char>, A, Seq<u8>) -> Option<(A, Seq<u8>)>,
    k: Seq<char>,
    a: A,
    v: Seq<u8>,
    b: A,
) -> bool {
    forall|rest: Seq<u8>| #[trigger] f(k, a, v + rest) == Some((b, rest))
}

/// Whether an item of an array is read.
#[verifier::opaque]
pub open spec fn item_reads<A>(
    f: spec_fn(A, Seq<u8>) -> Option<(A, Seq<u8>)>,
    a: A,
    v: Seq<u8>,
    b: A,
) -> bool {
    forall|rest: Seq<u8>| #[trigger] f(a, v + rest) == Some((b, rest))
}

proof fn lemma_fields<A>(
    es: Seq<(Seq<char>, Seq<u8>)>,
    accs: Seq<A>,
    f: spec_fn(Seq<char>, A, Seq<u8>) -> Option<(A, Seq<u8>)>,
    i: int,
    rest: Seq<u8>,
)
    requires
        0 <= i <= es.len(),
        accs.len() == es.len() + 1,
        forall|j: int| 0 <= j < es.len() ==> is_writable((#[trigger] es[j]).0),
        forall|j: int|
            0 <= j < es.len() ==> field_reads(f, (#[trigger] es[j]).0, accs[j], es[j].1, accs[j + 1]),
    ensures
        fields(
            joined(es.map_values(|e: (Seq<char>, Seq<u8>)| entry_bytes(e)), i) + rest,
            (es.len() - i) as nat,
            accs[i],
            f,
        ) == Some((accs[es.len() as int], rest)),
    decreases es.len() - i,
{
    let whole = es.map_values(|e: (Seq<char>, Seq<u8>)| entry_bytes(e));
    if i < es.len() {
        lemma_fields(es, accs, f, i + 1, rest);
        let (key, value) = es[i];
        let tail = joined(whole, i + 1) + rest;
        assert(whole[i] == text_bytes(key) + value);
        assert(joined(whole, i) == whole[i] + joined(whole, i + 1));
        lemma_grouped(text_bytes(key), value, joined(whole, i + 1), rest);
        law_texts_are_read_back(key, value + tail);
        assert(field_reads(f, es[i].0, accs[i], es[i].1, accs[i + 1]));
        assert(f(key, accs[i], value + tail) == Some((accs[i + 1], tail))) by {
            reveal(field_reads);
        }
    } else {
        assert(joined(whole, i) + rest =~= rest);
    }
}

/// A map whose fields are read one after the other is read.
pub proof fn lemma_map_reads<A>(
    es: Seq<(Seq<char>, Seq<u8>)>,
    accs: Seq<A>,
    f: spec_fn(Seq<char>, A, Seq<u8>) -> Option<(A, Seq<u8>)>,
    rest: Seq<u8>,
)
    requires
        es.len() < 0x1_0000_0000,
        accs.len() == es.len() + 1,
        forall|j: int| 0 <= j < es.len() ==> is_writable((#[trigger] es[j]).0),
        forall|j: int|
            0 <= j < es.len() ==> field_reads(f, (#[trigger] es[j]).0, accs[j], es[j].1, accs[j + 1]),
    ensures
        in_map(map_bytes(es) + rest, accs[0], f) == Some((accs[es.len() as int], rest)),
{
    reveal(map_bytes);
    let whole = es.map_values(|e: (Seq<char>, Seq<u8>)| entry_bytes(e));
    lemma_grouped(map_head(es.len()), joined(whole, 0), rest, rest);
    law_heads_are_read_back(es.len(), joined(whole, 0) + rest);
    lemma_fields(es, accs, f, 0, rest);
}

/// A map of two fields that are read one after the other is read.
pub proof fn lemma_two_fields<A>(
    e1: (Seq<char>, Seq<u8>),
    e2: (Seq<char>, Seq<u8>),
    a0: A,
    a1: A,
    a2: A,
    f: spec_fn(Seq<char>, A, Seq<u8>) -> Option<(A, Seq<u8>)>,
    rest: Seq<u8>,
)
    requires
        is_writable(e1.0),
        field_reads(f, e1.0, a0, e1.1, a1),
        is_writable(e2.0),
        field_reads(f, e2.0, a1, e2.1, a2),
    ensures
        in_map(map_bytes(seq![e1, e2]) + rest, a0, f) == Some((a2, rest)),
{
    lemma_map_reads(seq![e1, e2], seq![a0, a1, a2], f, rest);
}

/// A map of three fields that are read one after the other is read.
pub proof fn lemma_three_fields<A>(
    e1: (Seq<char>, Seq<u8>),
    e2: (Seq<char>, Seq<u8>),
    e3: (Seq<char>, Seq<u8>),
    a0: A,
    a1: A,
    a2: A,
    a3: A,
    f: spec_fn(Seq<char>, A, Seq<u8>) -> Option<(A, Seq<u8>)>,
    rest: Seq<u8>,
)
    requires
        is_writable(e1.0),
        field_reads(f, e1.0, a0, e1.1, a1),
        is_writable(e2.0),
        field_reads(f, e2.0, a1, e2.1, a2),
        is_writable(e3.0),
        field_reads(f, e3.0, a2, e3.1, a3),
    ensures
        in_map(map_bytes(seq![e1, e2, e3]) + rest, a0, f) == Some((a3, rest)),
{
    lemma_map_reads(seq![e1, e2, e3], seq![a0, a1, a2, a3], f, rest);
}

/// A map of four fields that are read one after the other is read.
pub proof fn lemma_four_fields<A>(
    e1: (Seq<char>, Seq<u8>),
    e2: (Seq<char>, Seq<u8>),
    e3: (Seq<char>, Seq<u8>),
    e4: (Seq<char>, Seq<u8>),
    a0: A,
    a1: A,
    a2: A,
    a3: A,
    a4: A,
    f: spec_fn(Seq<char>, A, Seq<u8>) -> Option<(A, Seq<u8>)>,
    rest: Seq<u8>,
)
    requires
        is_writable(e1.0),
        field_reads(f, e1.0, a0, e1.1, a1),
        is_writable(e2.0),
        field_reads(f, e2.0, a1, e2.1, a2),
        is_writable(e3.0),
        field_reads(f, e3.0, a2, e3.1, a3),
        is_writable(e4.0),
        field_reads(f, e4.0, a3, e4.1, a4),
    ensures
        in_map(map_bytes(seq![e1, e2, e3, e4]) + rest, a0, f) == Some((a4, rest)),
{
    lemma_map_reads(seq![e1, e2, e3, e4], seq![a0, a1, a2, a3, a4], f, rest);
}

/// A map of five fields that are read one after the other is read.
pub proof fn lemma_five_fields<A>(
    e1: (Seq<char>, Seq<u8>),
    e2: (Seq<char>, Seq<u8>),
    e3: (Seq<char>, Seq<u8>),
    e4: (Seq<char>, Seq<u8>),
    e5: (Seq<char>, Seq<u8>),
    a0: A,
    a1: A,
    a2: A,
    a3: A,
    a4: A,
    a5: A,
    f: spec_fn(Seq<char>, A, Seq<u8>) -> Option<(A, Seq<u8>)>,
    rest: Seq<u8>,
)
    requires
        is_writable(e1.0),
        field_reads(f, e1.0, a0, e1.1, a1),
        is_writable(e2.0),
        field_reads(f, e2.0, a1, e2.1, a2),
        is_writable(e3.0),
        field_reads(f, e3.0, a2, e3.1, a3),
        is_writable(e4.0),
        field_reads(f, e4.0, a3, e4.1, a4),
        is_writable(e5.0),
        field_reads(f, e5.0, a4, e5.1, a5),
    ensures
        in_map(map_bytes(seq![e1, e2, e3, e4, e5]) + rest, a0, f) == Some((a5, rest)),
{
    lemma_map_reads(seq![e1, e2, e3, e4, e5], seq![a0, a1, a2, a3, a4, a5], f, rest);
}

proof fn lemma_items<A>(
    es: Seq<Seq<u8>>,
    accs: Seq<A>,
    f: spec_fn(A, Seq<u8>) -> Option<(A, Seq<u8>)>,
    i: int,
    rest: Seq<u8>,
)
    requires
        0 <= i <= es.len(),
        accs.len() == es.len() + 1,
        forall|j: int| 0 <= j < es.len() ==> item_reads(f, accs[j], #[trigger] es[j], accs[j + 1]),
    ensures
        items(joined(es, i) + rest, (es.len() - i) as nat, accs[i], f) == Some(
            (accs[es.len() as int], rest),
        ),
    decreases es.len() - i,
{
    if i < es.len() {
        lemma_items(es, accs, f, i + 1, rest);
        let tail = joined(es, i + 1) + rest;
        assert(joined(es, i) == es[i] + joined(es, i + 1));
        lemma_grouped(es[i], joined(es, i + 1), rest, rest);
        assert(item_reads(f, accs[i], es[i], accs[i + 1]));
        assert(f(accs[i], es[i] + tail) == Some((accs[i + 1], tail))) by {
            reveal(item_reads);
        }
    } else {
        assert(joined(es, i) + rest =~= rest);
    }
}

/// An array whose items are read one after the other is read.
pub proof fn lemma_array_reads<A>(
    es: Seq<Seq<u8>>,
    accs: Seq<A>,
    f: spec_fn(A, Seq<u8>) -> Option<(A, Seq<u8>)>,
    rest: Seq<u8>,
)
    requires
        es.len() < 0x1_0000_0000,
        accs.len() == es.len() + 1,
        forall|j: int| 0 <= j < es.len() ==> item_reads(f, accs[j], #[trigger] es[j], accs[j + 1]),
    ensures
        in_array(array_bytes(es) + rest, accs[0], f) == Some((accs[es.len() as int], rest)),
{
    reveal(array_bytes);
    lemma_grouped(array_head(es.len()), joined(es, 0), rest, rest);
    law_heads_are_read_back(es.len(), joined(es, 0) + rest);
    lemma_items(es, accs, f, 0, rest);
}

/// Two things behind one another, as an array of two.
pub open spec fn pair_bytes(a: Seq<u8>, b: Seq<u8>) -> Seq<u8> {
    array_bytes(seq![a, b])
}

/// What is read of two things is read of the pair of them.
pub proof fn lemma_pair_reads<A>(
    x: Seq<u8>,
    y: Seq<u8>,
    a: A,
    b: A,
    f: spec_fn(A, Seq<u8>) -> Option<(A, Seq<u8>)>,
    rest: Seq<u8>,
)
    requires
        item_reads(f, a, x + y, b),
    ensures
        in_pair(pair_bytes(x, y) + rest, a, f) == Some((b, rest)),
{
    reveal(array_bytes);
    let es = seq![x, y];
    assert(joined(es, 2) == Seq::<u8>::empty());
    assert(joined(es, 1) == y + joined(es, 2));
    assert(joined(es, 0) == x + joined(es, 1));
    assert(joined(es, 0) =~= x + y);
    lemma_grouped(array_head(2), x + y, rest, rest);
    law_heads_are_read_back(2, x + y + rest);
    reveal(item_reads);
    assert(f(a, x + y + rest) == Some((b, rest)));
}

proof fn lemma_keys()
    ensures
        is_writable("C"@) && is_writable("I"@) && is_writable("l"@) && is_writable("u"@),
        is_writable("s"@) && is_writable("e"@) && is_writable("M"@) && is_writable("f"@),
        is_writable("o"@) && is_writable("p"@) && is_writable("px"@),
        "C"@ != "I"@,
        "l"@ != "u"@,
        "p"@ != "u"@,
        "s"@ != "e"@ && "s"@ != "l"@ && "s"@ != "M"@ && "s"@ != "f"@,
        "e"@ != "l"@ && "e"@ != "M"@ && "e"@ != "f"@,
        "l"@ != "M"@ && "l"@ != "f"@ && "M"@ != "f"@,
{
    reveal_strlit("C");
    reveal_strlit("I");
    reveal_strlit("l");
    reveal_strlit("u");
    reveal_strlit("s");
    reveal_strlit("e");
    reveal_strlit("M");
    reveal_strlit("f");
    reveal_strlit("o");
    reveal_strlit("p");
    reveal_strlit("px");
    assert("C"@[0] == 'C' && "I"@[0] == 'I' && "l"@[0] == 'l' && "u"@[0] == 'u');
    assert("s"@[0] == 's' && "e"@[0] == 'e' && "M"@[0] == 'M' && "f"@[0] == 'f');
    assert("o"@[0] == 'o' && "p"@[0] == 'p');
    lemma_short("C"@);
    lemma_short("I"@);
    lemma_short("l"@);
    lemma_short("u"@);
    lemma_short("s"@);
    lemma_short("e"@);
    lemma_short("M"@);
    lemma_short("f"@);
    lemma_short("o"@);
    lemma_short("p"@);
    lemma_short("px"@);
}

/// A text of at most a thousand characters can be written.
pub proof fn lemma_short(s: Seq<char>)
    requires
        s.len() <= 1000,
    ensures
        is_writable(s),
{
    lemma_utf8_len(s);
}

proof fn lemma_utf8_len(s: Seq<char>)
    ensures
        vstd::utf8::encode_utf8(s).len() <= 4 * s.len(),
    decreases s.len(),
{
    if s.len() > 0 {
        lemma_utf8_len(s.drop_first());
    }
}

// ── Leverage ─────────────────────────────────────────────────────────────

/// A leverage as a snapshot writes it: {"C": multiple} or {"I": {"l": multiple, "u": margin}}.
pub open spec fn leverage_bytes(l: Leverage) -> Seq<u8> {
    match l {
        Leverage::Cross(v) => map_bytes(seq![("C"@, int_bytes(v as i64))]),
        Leverage::Isolated { leverage, raw_usd } => map_bytes(
            seq![
                (
                    "I"@,
                    map_bytes(
                        seq![("l"@, int_bytes(leverage as i64)), ("u"@, int_bytes(raw_usd))],
                    ),
                ),
            ],
        ),
    }
}

/// A leverage that the snapshot writes is read back as itself: {"C": v} as cross at v, and
/// {"I": {"l": v, "u": r}} as isolated at v with margin r.
pub proof fn law_leverage_is_read_back(l: Leverage, rest: Seq<u8>)
    ensures
        leverage_at(leverage_bytes(l) + rest) == Some((l, rest)),
{
    lemma_keys();
    let f: spec_fn(Seq<char>, Leverage, Seq<u8>) -> Option<(Leverage, Seq<u8>)> = |k, a, s|
        leverage_field(k, a, s);
    let start = Leverage::Cross(1);
    match l {
        Leverage::Cross(v) => {
            let es = seq![("C"@, int_bytes(v as i64))];
            assert(field_reads(f, "C"@, start, int_bytes(v as i64), l)) by {
                reveal(field_reads);
                assert forall|r: Seq<u8>| #[trigger]
                    f("C"@, start, int_bytes(v as i64) + r) == Some((l, r)) by {
                    law_ints_are_read_back(v as i64, r);
                }
            }
            lemma_map_reads(es, seq![start, l], f, rest);
        },
        Leverage::Isolated { leverage, raw_usd } => {
            let inner = map_bytes(
                seq![("l"@, int_bytes(leverage as i64)), ("u"@, int_bytes(raw_usd))],
            );
            assert(field_reads(f, "I"@, start, inner, l)) by {
                reveal(field_reads);
                assert forall|r: Seq<u8>| #[trigger] f("I"@, start, inner + r) == Some((l, r)) by {
                    lemma_isolated(leverage, raw_usd, r);
                }
            }
            lemma_map_reads(seq![("I"@, inner)], seq![start, l], f, rest);
        },
    }
}

proof fn lemma_isolated(v: u32, raw: i64, rest: Seq<u8>)
    ensures
        in_map(
            map_bytes(seq![("l"@, int_bytes(v as i64)), ("u"@, int_bytes(raw))]) + rest,
            (1u32, 0i64),
            |k, a, s| isolated_field(k, a, s),
        ) == Some(((v, raw), rest)),
        in_map(
            map_bytes(seq![("u"@, int_bytes(raw)), ("l"@, int_bytes(v as i64))]) + rest,
            (1u32, 0i64),
            |k, a, s| isolated_field(k, a, s),
        ) == Some(((v, raw), rest)),
{
    lemma_keys();
    let f: spec_fn(Seq<char>, (u32, i64), Seq<u8>) -> Option<((u32, i64), Seq<u8>)> = |k, a, s|
        isolated_field(k, a, s);
    let (a, b, c, d) = ((1u32, 0i64), (v, 0i64), (v, raw), (1u32, raw));
    assert(field_reads(f, "l"@, a, int_bytes(v as i64), b) && field_reads(
        f,
        "u"@,
        b,
        int_bytes(raw),
        c,
    ) && field_reads(f, "u"@, a, int_bytes(raw), d) && field_reads(
        f,
        "l"@,
        d,
        int_bytes(v as i64),
        c,
    )) by {
        reveal(field_reads);
        assert forall|r: Seq<u8>| #[trigger] f("l"@, a, int_bytes(v as i64) + r) == Some((b, r)) by {
            law_ints_are_read_back(v as i64, r);
        }
        assert forall|r: Seq<u8>| #[trigger] f("l"@, d, int_bytes(v as i64) + r) == Some((c, r)) by {
            law_ints_are_read_back(v as i64, r);
        }
        assert forall|r: Seq<u8>| #[trigger] f("u"@, b, int_bytes(raw) + r) == Some((c, r)) by {
            law_ints_are_read_back(raw, r);
        }
        assert forall|r: Seq<u8>| #[trigger] f("u"@, a, int_bytes(raw) + r) == Some((d, r)) by {
            law_ints_are_read_back(raw, r);
        }
    }
    lemma_map_reads(
        seq![("l"@, int_bytes(v as i64)), ("u"@, int_bytes(raw))],
        seq![a, b, c],
        f,
        rest,
    );
    lemma_map_reads(
        seq![("u"@, int_bytes(raw)), ("l"@, int_bytes(v as i64))],
        seq![a, d, c],
        f,
        rest,
    );
}

/// The multiple and the margin of an isolated leverage may come in either order, and fields of other
/// names before a leverage do not matter.
pub proof fn law_leverage_fields_may_come_in_any_order(
    v: u32,
    raw: i64,
    other: Seq<char>,
    value: Seq<u8>,
    rest: Seq<u8>,
)
    requires
        is_writable(other),
        other != "C"@,
        other != "I"@,
        is_value(value),
    ensures
        leverage_at(
            map_bytes(
                seq![
                    (
                        "I"@,
                        map_bytes(seq![("u"@, int_bytes(raw)), ("l"@, int_bytes(v as i64))]),
                    ),
                ],
            ) + rest,
        ) == Some((Leverage::Isolated { leverage: v, raw_usd: raw }, rest)),
        leverage_at(map_bytes(seq![(other, value), ("C"@, int_bytes(v as i64))]) + rest) == Some(
            (Leverage::Cross(v), rest),
        ),
{
    lemma_keys();
    let f: spec_fn(Seq<char>, Leverage, Seq<u8>) -> Option<(Leverage, Seq<u8>)> = |k, a, s|
        leverage_field(k, a, s);
    let start = Leverage::Cross(1);
    let l = Leverage::Isolated { leverage: v, raw_usd: raw };
    let inner = map_bytes(seq![("u"@, int_bytes(raw)), ("l"@, int_bytes(v as i64))]);
    assert(field_reads(f, "I"@, start, inner, l)) by {
        reveal(field_reads);
        assert forall|r: Seq<u8>| #[trigger] f("I"@, start, inner + r) == Some((l, r)) by {
            lemma_isolated(v, raw, r);
        }
    }
    lemma_map_reads(seq![("I"@, inner)], seq![start, l], f, rest);
    lemma_other_then_cross(v, other, value, rest);
}

proof fn lemma_passed_over(other: Seq<char>, value: Seq<u8>, start: Leverage)
    requires
        other != "C"@,
        other != "I"@,
        is_value(value),
    ensures
        field_reads(
            |k: Seq<char>, a: Leverage, s: Seq<u8>| leverage_field(k, a, s),
            other,
            start,
            value,
            start,
        ),
{
    reveal(field_reads);
    let f: spec_fn(Seq<char>, Leverage, Seq<u8>) -> Option<(Leverage, Seq<u8>)> = |k, a, s|
        leverage_field(k, a, s);
    assert forall|r: Seq<u8>| #[trigger] f(other, start, value + r) == Some((start, r)) by {
        lemma_value(value, r);
    }
}

proof fn lemma_other_then_cross(v: u32, other: Seq<char>, value: Seq<u8>, rest: Seq<u8>)
    requires
        is_writable(other),
        other != "C"@,
        other != "I"@,
        is_value(value),
    ensures
        leverage_at(map_bytes(seq![(other, value), ("C"@, int_bytes(v as i64))]) + rest) == Some(
            (Leverage::Cross(v), rest),
        ),
{
    lemma_keys();
    let f: spec_fn(Seq<char>, Leverage, Seq<u8>) -> Option<(Leverage, Seq<u8>)> = |k, a, s|
        leverage_field(k, a, s);
    let start = Leverage::Cross(1);
    lemma_passed_over(other, value, start);
    assert(field_reads(f, "C"@, start, int_bytes(v as i64), Leverage::Cross(v))) by {
        reveal(field_reads);
        assert forall|r: Seq<u8>| #[trigger]
            f("C"@, start, int_bytes(v as i64) + r) == Some((Leverage::Cross(v), r)) by {
            law_ints_are_read_back(v as i64, r);
        }
    }
    lemma_map_reads(
        seq![(other, value), ("C"@, int_bytes(v as i64))],
        seq![start, start, Leverage::Cross(v)],
        f,
        rest,
    );
}

// ── Positions ────────────────────────────────────────────────────────────

/// A position as a snapshot writes it: its size, cost basis, leverage, margin table and outstanding
/// funding.
pub open spec fn position_bytes(p: Position) -> Seq<u8> {
    map_bytes(
        seq![
            ("s"@, int_bytes(p.szi)),
            ("e"@, int_bytes(p.cost_basis)),
            ("l"@, leverage_bytes(p.leverage)),
            ("M"@, int_bytes(p.margin_table_id as i64)),
            ("f"@, map_bytes(seq![("o"@, int_bytes(p.outstanding_funding))])),
        ],
    )
}

/// A position is read back with all its fields.
pub proof fn law_positions_are_read_back(p: Position, rest: Seq<u8>)
    ensures
        position_at(position_bytes(p) + rest) == Some(
            (
                PositionFields {
                    szi: Some(p.szi),
                    cost_basis: Some(p.cost_basis),
                    leverage: Some(p.leverage),
                    margin_table_id: p.margin_table_id,
                    outstanding_funding: p.outstanding_funding,
                },
                rest,
            ),
        ),
{
    lemma_keys();
    let f: spec_fn(Seq<char>, PositionFields, Seq<u8>) -> Option<(PositionFields, Seq<u8>)> =
        |k, a, s| position_field(k, a, s);
    let a0 = crate::clearing_house::rmp_streaming::no_position_fields();
    let a1 = PositionFields { szi: Some(p.szi), ..a0 };
    let a2 = PositionFields { cost_basis: Some(p.cost_basis), ..a1 };
    let a3 = PositionFields { leverage: Some(p.leverage), ..a2 };
    let a4 = PositionFields { margin_table_id: p.margin_table_id, ..a3 };
    let a5 = PositionFields { outstanding_funding: p.outstanding_funding, ..a4 };
    let funding = map_bytes(seq![("o"@, int_bytes(p.outstanding_funding))]);
    assert(field_reads(f, "s"@, a0, int_bytes(p.szi), a1)) by {
        reveal(field_reads);
        assert forall|r: Seq<u8>| #[trigger] f("s"@, a0, int_bytes(p.szi) + r) == Some((a1, r)) by {
            law_ints_are_read_back(p.szi, r);
            lemma_no_nil(p.szi, r);
        }
    }
    assert(field_reads(f, "e"@, a1, int_bytes(p.cost_basis), a2)) by {
        reveal(field_reads);
        assert forall|r: Seq<u8>| #[trigger]
            f("e"@, a1, int_bytes(p.cost_basis) + r) == Some((a2, r)) by {
            law_ints_are_read_back(p.cost_basis, r);
        }
    }
    assert(field_reads(f, "l"@, a2, leverage_bytes(p.leverage), a3)) by {
        reveal(field_reads);
        assert forall|r: Seq<u8>| #[trigger]
            f("l"@, a2, leverage_bytes(p.leverage) + r) == Some((a3, r)) by {
            law_leverage_is_read_back(p.leverage, r);
        }
    }
    assert(field_reads(f, "M"@, a3, int_bytes(p.margin_table_id as i64), a4)) by {
        reveal(field_reads);
        assert forall|r: Seq<u8>| #[trigger]
            f("M"@, a3, int_bytes(p.margin_table_id as i64) + r) == Some((a4, r)) by {
            law_ints_are_read_back(p.margin_table_id as i64, r);
        }
    }
    assert(field_reads(f, "f"@, a4, funding, a5)) by {
        reveal(field_reads);
        assert forall|r: Seq<u8>| #[trigger] f("f"@, a4, funding + r) == Some((a5, r)) by {
            lemma_funding(p.outstanding_funding, a4.outstanding_funding, r);
        }
    }
    lemma_map_reads(
        seq![
            ("s"@, int_bytes(p.szi)),
            ("e"@, int_bytes(p.cost_basis)),
            ("l"@, leverage_bytes(p.leverage)),
            ("M"@, int_bytes(p.margin_table_id as i64)),
            ("f"@, funding),
        ],
        seq![a0, a1, a2, a3, a4, a5],
        f,
        rest,
    );
}

proof fn lemma_no_nil(v: i64, rest: Seq<u8>)
    ensures
        (int_bytes(v) + rest)[0] != 0xc0,
{
    reveal(int_bytes);
}

proof fn lemma_funding(v: i64, start: i64, rest: Seq<u8>)
    ensures
        in_map(
            map_bytes(seq![("o"@, int_bytes(v))]) + rest,
            start,
            |k, a, s| funding_field(k, a, s),
        ) == Some((v, rest)),
{
    lemma_keys();
    let f: spec_fn(Seq<char>, i64, Seq<u8>) -> Option<(i64, Seq<u8>)> = |k, a, s|
        funding_field(k, a, s);
    assert(field_reads(f, "o"@, start, int_bytes(v), v)) by {
        reveal(field_reads);
        assert forall|r: Seq<u8>| #[trigger] f("o"@, start, int_bytes(v) + r) == Some((v, r)) by {
            law_ints_are_read_back(v, r);
        }
    }
    lemma_map_reads(seq![("o"@, int_bytes(v))], seq![start, v], f, rest);
}

// ── Users ────────────────────────────────────────────────────────────────

/// What a snapshot keeps of a user in an asset: a position, or the leverage that they want.
pub enum Kept {
    Held(Position),
    Wanted(Leverage),
}

/// An entry of a user's positions as a snapshot writes it.
pub open spec fn kept_bytes(asset: u32, k: Kept) -> Seq<u8> {
    pair_bytes(
        int_bytes(asset as i64),
        match k {
            Kept::Held(p) => position_bytes(p),
            Kept::Wanted(l) => map_bytes(seq![("l"@, leverage_bytes(l))]),
        },
    )
}

/// A user with the first `n` of the entries.
pub open spec fn with_kept(a: UserFields, es: Seq<(u32, Kept)>, n: int) -> UserFields
    decreases n,
{
    if n <= 0 {
        a
    } else {
        let b = with_kept(a, es, n - 1);
        let asset = es[n - 1].0 % 10_000;
        match es[n - 1].1 {
            Kept::Held(p) => UserFields { positions: b.positions.insert(asset, p), ..b },
            Kept::Wanted(l) => UserFields { preferences: b.preferences.insert(asset, l), ..b },
        }
    }
}

proof fn lemma_kept(a: UserFields, asset: u32, k: Kept, b: UserFields, rest: Seq<u8>)
    requires
        k matches Kept::Held(p) ==> p.szi != 0,
        b == with_kept(a, seq![(asset, k)], 1),
    ensures
        in_pair(kept_bytes(asset, k) + rest, a, |a, s| one_position(a, s)) == Some((b, rest)),
{
    lemma_keys();
    reveal_with_fuel(with_kept, 2);
    let f: spec_fn(UserFields, Seq<u8>) -> Option<(UserFields, Seq<u8>)> = |a, s| one_position(a, s);
    let second = match k {
        Kept::Held(p) => position_bytes(p),
        Kept::Wanted(l) => map_bytes(seq![("l"@, leverage_bytes(l))]),
    };
    let first = int_bytes(asset as i64);
    assert(item_reads(f, a, first + second, b)) by {
        reveal(item_reads);
        assert forall|r: Seq<u8>| #[trigger] f(a, first + second + r) == Some((b, r)) by {
            lemma_grouped(first, second, r, r);
            law_ints_are_read_back(asset as i64, second + r);
            match k {
                Kept::Held(p) => {
                    law_positions_are_read_back(p, r);
                },
                Kept::Wanted(l) => {
                    lemma_wanted(l, r);
                },
            }
        }
    }
    lemma_pair_reads(first, second, a, b, f, rest);
}

proof fn lemma_wanted(l: Leverage, rest: Seq<u8>)
    ensures
        position_at(map_bytes(seq![("l"@, leverage_bytes(l))]) + rest) == Some(
            (
                PositionFields {
                    leverage: Some(l),
                    ..crate::clearing_house::rmp_streaming::no_position_fields()
                },
                rest,
            ),
        ),
{
    lemma_keys();
    let f: spec_fn(Seq<char>, PositionFields, Seq<u8>) -> Option<(PositionFields, Seq<u8>)> =
        |k, a, s| position_field(k, a, s);
    let a0 = crate::clearing_house::rmp_streaming::no_position_fields();
    let a1 = PositionFields { leverage: Some(l), ..a0 };
    assert(field_reads(f, "l"@, a0, leverage_bytes(l), a1)) by {
        reveal(field_reads);
        assert forall|r: Seq<u8>| #[trigger] f("l"@, a0, leverage_bytes(l) + r) == Some((a1, r)) by {
            law_leverage_is_read_back(l, r);
        }
    }
    lemma_map_reads(seq![("l"@, leverage_bytes(l))], seq![a0, a1], f, rest);
}

/// The entries of a user as a snapshot writes them.
pub open spec fn all_kept_bytes(es: Seq<(u32, Kept)>) -> Seq<u8> {
    array_bytes(es.map_values(|e: (u32, Kept)| kept_bytes(e.0, e.1)))
}

/// A user as a snapshot writes them: balance, positions and wanted leverages.
pub open spec fn user_bytes(balance: i64, es: Seq<(u32, Kept)>) -> Seq<u8> {
    map_bytes(
        seq![
            ("u"@, int_bytes(balance)),
            ("p"@, map_bytes(seq![("p"@, all_kept_bytes(es))])),
        ],
    )
}

/// A user without anything.
pub open spec fn nothing_kept(balance: i64) -> UserFields {
    UserFields { usdc_balance: balance, positions: Map::empty(), preferences: Map::empty() }
}

proof fn lemma_with_kept_step(a: UserFields, es: Seq<(u32, Kept)>, n: int)
    requires
        0 <= n < es.len(),
    ensures
        with_kept(a, es, n + 1) == with_kept(with_kept(a, es, n), seq![es[n]], 1),
{
    reveal_with_fuel(with_kept, 2);
}

proof fn lemma_all_kept(a: UserFields, es: Seq<(u32, Kept)>, rest: Seq<u8>)
    requires
        es.len() < 0x1_0000_0000,
        forall|i: int|
            0 <= i < es.len() ==> ((#[trigger] es[i]).1 matches Kept::Held(p) ==> p.szi != 0),
    ensures
        positions_field("p"@, a, all_kept_bytes(es) + rest) == Some(
            (with_kept(a, es, es.len() as int), rest),
        ),
{
    lemma_keys();
    let h: spec_fn(UserFields, Seq<u8>) -> Option<(UserFields, Seq<u8>)> = |a, s|
        in_pair(s, a, |a, s| one_position(a, s));
    let bytes = es.map_values(|e: (u32, Kept)| kept_bytes(e.0, e.1));
    let accs = Seq::new((es.len() + 1) as nat, |i: int| with_kept(a, es, i));
    assert forall|j: int| 0 <= j < bytes.len() implies item_reads(
        h,
        accs[j],
        #[trigger] bytes[j],
        accs[j + 1],
    ) by {
        reveal(item_reads);
        lemma_with_kept_step(a, es, j);
        assert(es[j].1 matches Kept::Held(p) ==> p.szi != 0);
        assert forall|r: Seq<u8>| #[trigger] h(accs[j], bytes[j] + r) == Some((accs[j + 1], r)) by {
            lemma_kept(accs[j], es[j].0, es[j].1, accs[j + 1], r);
        }
    }
    lemma_array_reads(bytes, accs, h, rest);
}

proof fn lemma_holdings(a: UserFields, b: UserFields, es: Seq<(u32, Kept)>, rest: Seq<u8>)
    requires
        es.len() < 0x1_0000_0000,
        forall|i: int|
            0 <= i < es.len() ==> ((#[trigger] es[i]).1 matches Kept::Held(p) ==> p.szi != 0),
        b == with_kept(a, es, es.len() as int),
    ensures
        user_field("p"@, a, map_bytes(seq![("p"@, all_kept_bytes(es))]) + rest) == Some((b, rest)),
{
    lemma_keys();
    let g: spec_fn(Seq<char>, UserFields, Seq<u8>) -> Option<(UserFields, Seq<u8>)> = |k, a, s|
        positions_field(k, a, s);
    assert(field_reads(g, "p"@, a, all_kept_bytes(es), b)) by {
        reveal(field_reads);
        assert forall|r: Seq<u8>| #[trigger] g("p"@, a, all_kept_bytes(es) + r) == Some((b, r)) by {
            lemma_all_kept(a, es, r);
        }
    }
    lemma_map_reads(seq![("p"@, all_kept_bytes(es))], seq![a, b], g, rest);
}

/// A user is read back with their balance, every position under its asset, and every leverage that they
/// want; positions of size zero aside, which are none.
pub proof fn law_users_are_read_back(balance: i64, es: Seq<(u32, Kept)>, rest: Seq<u8>)
    requires
        es.len() < 0x1_0000_0000,
        forall|i: int|
            0 <= i < es.len() ==> ((#[trigger] es[i]).1 matches Kept::Held(p) ==> p.szi != 0),
    ensures
        user_at(user_bytes(balance, es) + rest) == Some(
            (with_kept(nothing_kept(balance), es, es.len() as int), rest),
        ),
{
    lemma_keys();
    let f: spec_fn(Seq<char>, UserFields, Seq<u8>) -> Option<(UserFields, Seq<u8>)> = |k, a, s|
        user_field(k, a, s);
    let a0 = nothing_kept(0);
    let a1 = nothing_kept(balance);
    let a2 = with_kept(a1, es, es.len() as int);
    let inner = map_bytes(seq![("p"@, all_kept_bytes(es))]);
    assert(field_reads(f, "p"@, a1, inner, a2)) by {
        reveal(field_reads);
        assert forall|r: Seq<u8>| #[trigger] f("p"@, a1, inner + r) == Some((a2, r)) by {
            lemma_holdings(a1, a2, es, r);
        }
    }
    assert(field_reads(f, "u"@, a0, int_bytes(balance), a1)) by {
        reveal(field_reads);
        assert forall|r: Seq<u8>| #[trigger] f("u"@, a0, int_bytes(balance) + r) == Some((a1, r)) by {
            law_ints_are_read_back(balance, r);
        }
    }
    lemma_two_fields(("u"@, int_bytes(balance)), ("p"@, inner), a0, a1, a2, f, rest);
}

/// Every position that was written last for its asset is there, and so is every leverage that is
/// wanted; there is nothing else.
pub proof fn law_kept_entries_are_there(balance: i64, es: Seq<(u32, Kept)>, n: int, i: int)
    requires
        0 <= i < n <= es.len(),
        forall|j: int| i < j < n ==> (#[trigger] es[j]).0 % 10_000 != es[i].0 % 10_000,
    ensures
        ({
            let a = with_kept(nothing_kept(balance), es, n);
            let asset = es[i].0 % 10_000;
            &&& a.usdc_balance == balance
            &&& es[i].1 matches Kept::Held(p) ==> a.positions.contains_key(asset)
                && a.positions[asset] == p
            &&& es[i].1 matches Kept::Wanted(l) ==> a.preferences.contains_key(asset)
                && a.preferences[asset] == l
        }),
    decreases n,
{
    if i < n - 1 {
        law_kept_entries_are_there(balance, es, n - 1, i);
        assert(es[n - 1].0 % 10_000 != es[i].0 % 10_000);
    } else {
        lemma_kept_balance(balance, es, n - 1);
    }
}

/// The entries leave the balance alone.
pub proof fn lemma_kept_balance(balance: i64, es: Seq<(u32, Kept)>, n: int)
    ensures
        with_kept(nothing_kept(balance), es, n).usdc_balance == balance,
    decreases n,
{
    if n > 0 {
        lemma_kept_balance(balance, es, n - 1);
    }
}

/// What becomes of a user that was read: one who holds something is known in full, with the leverage of
/// each position as a setting beside those that they want elsewhere; one who holds nothing is known
/// with their balance and what they want. Both start in standard mode without spot collateral.
pub proof fn law_users_who_hold_are_known_in_full(
    before: UsersModel,
    address: Seq<char>,
    balance: i64,
    es: Seq<(u32, Kept)>,
    rest: Seq<u8>,
)
    requires
        es.len() < 0x1_0000_0000,
        is_writable(address),
        forall|i: int|
            0 <= i < es.len() ==> ((#[trigger] es[i]).1 matches Kept::Held(p) ==> p.szi != 0),
    ensures
        ({
            let a = with_kept(nothing_kept(balance), es, es.len() as int);
            let r = one_user(before, text_bytes(address) + user_bytes(balance, es) + rest);
            let m = (r->Some_0).0;
            &&& r is Some
            &&& (r->Some_0).1 == rest
            &&& if exists|x: u32| #[trigger] a.positions.contains_key(x) {
                let u = m.users[address];
                &&& m.partials == before.partials
                &&& m.users.contains_key(address)
                &&& forall|v: Seq<char>|
                    #![trigger m.users.contains_key(v)]
                    v != address ==> (m.users.contains_key(v) == before.users.contains_key(v)) && (
                    before.users.contains_key(v) ==> m.users[v] == before.users[v])
                &&& u.usdc_balance == balance
                &&& u.spot_collateral == 0
                &&& u.spot_collateral_decimals == 8
                &&& u.account_mode == AccountMode::Standard
                &&& u.positions == a.positions
                &&& forall|x: u32|
                    #![trigger u.leverage_settings.contains_key(x)]
                    (u.leverage_settings.contains_key(x) <==> a.positions.contains_key(x)
                        || a.preferences.contains_key(x)) && (a.positions.contains_key(x)
                        ==> u.leverage_settings[x] == a.positions[x].leverage) && (
                    !a.positions.contains_key(x) && a.preferences.contains_key(x)
                        ==> u.leverage_settings[x] == a.preferences[x])
            } else {
                let p = m.partials[address];
                &&& m.users == before.users
                &&& m.partials.contains_key(address)
                &&& p == (PartialModel {
                    usdc_balance: balance,
                    spot_collateral: 0,
                    spot_collateral_decimals: 8,
                    account_mode: AccountMode::Standard,
                    leverage_settings: a.preferences,
                })
            }
        }),
{
    let a = with_kept(nothing_kept(balance), es, es.len() as int);
    lemma_kept_balance(balance, es, es.len() as int);
    lemma_grouped(text_bytes(address), user_bytes(balance, es), rest, rest);
    law_texts_are_read_back(address, user_bytes(balance, es) + rest);
    law_users_are_read_back(balance, es, rest);
    if exists|x: u32| #[trigger] a.positions.contains_key(x) {
        let x = choose|x: u32| #[trigger] a.positions.contains_key(x);
        assert(a.positions.dom().contains(x));
        assert(a.positions.dom() != Set::<u32>::empty());
    } else {
        assert(a.positions.dom() =~= Set::<u32>::empty());
    }
}

} // verus!

//! What is written as MessagePack is read back as itself.
//!
//! Numbers, texts, maps and arrays are written here in their shortest forms.
use crate::msgpack::{
    array_length,
    be,
    float_value,
    int_value,
    map_length,
    seek,
    seek_map,
    skipped,
    skipped_n,
    text,
    text_length,
    Fraction,
    Out,
};
use vstd::prelude::*;

verus! {

// ── Writing ──────────────────────────────────────────────────────────────

/// A number of `k` bytes, the most significant byte first.
pub open spec fn big_endian(n: nat, k: nat) -> Seq<u8>
    decreases k,
{
    if k == 0 {
        Seq::empty()
    } else {
        big_endian(n / 256, (k - 1) as nat).push((n % 256) as u8)
    }
}

/// An integer in the shortest form that holds it.
#[verifier::opaque]
pub open spec fn int_bytes(v: i64) -> Seq<u8> {
    if 0 <= v < 0x80 {
        seq![v as u8]
    } else if 0 <= v < 0x100 {
        seq![0xccu8] + big_endian(v as nat, 1)
    } else if 0 <= v < 0x1_0000 {
        seq![0xcdu8] + big_endian(v as nat, 2)
    } else if 0 <= v < 0x1_0000_0000 {
        seq![0xceu8] + big_endian(v as nat, 4)
    } else if 0 <= v {
        seq![0xcfu8] + big_endian(v as nat, 8)
    } else if v >= -32 {
        seq![(v + 0x100) as u8]
    } else if v >= -0x80 {
        seq![0xd0u8] + big_endian((v + 0x100) as nat, 1)
    } else if v >= -0x8000 {
        seq![0xd1u8] + big_endian((v + 0x1_0000) as nat, 2)
    } else if v >= -0x8000_0000 {
        seq![0xd2u8] + big_endian((v + 0x1_0000_0000) as nat, 4)
    } else {
        seq![0xd3u8] + big_endian((v + 0x1_0000_0000_0000_0000) as nat, 8)
    }
}

/// The head of a text of so many bytes.
pub open spec fn text_head(n: nat) -> Seq<u8> {
    if n < 32 {
        seq![(0xa0 + n) as u8]
    } else if n < 0x100 {
        seq![0xd9u8] + big_endian(n, 1)
    } else if n < 0x1_0000 {
        seq![0xdau8] + big_endian(n, 2)
    } else {
        seq![0xdbu8] + big_endian(n, 4)
    }
}

/// A text.
#[verifier::opaque]
pub open spec fn text_bytes(s: Seq<char>) -> Seq<u8> {
    let b = vstd::utf8::encode_utf8(s);
    text_head(b.len()) + b
}

/// Whether a text can be written: its length fits in four bytes.
pub open spec fn is_writable(s: Seq<char>) -> bool {
    vstd::utf8::encode_utf8(s).len() < 0x1_0000_0000
}

/// The head of a map of so many entries.
pub open spec fn map_head(n: nat) -> Seq<u8> {
    if n < 16 {
        seq![(0x80 + n) as u8]
    } else if n < 0x1_0000 {
        seq![0xdeu8] + big_endian(n, 2)
    } else {
        seq![0xdfu8] + big_endian(n, 4)
    }
}

/// The head of an array of so many items.
pub open spec fn array_head(n: nat) -> Seq<u8> {
    if n < 16 {
        seq![(0x90 + n) as u8]
    } else if n < 0x1_0000 {
        seq![0xdcu8] + big_endian(n, 2)
    } else {
        seq![0xddu8] + big_endian(n, 4)
    }
}

/// The items from the `i`-th on, one behind the other.
pub open spec fn joined(es: Seq<Seq<u8>>, i: int) -> Seq<u8>
    decreases es.len() - i,
{
    if i >= es.len() || i < 0 {
        Seq::empty()
    } else {
        es[i] + joined(es, i + 1)
    }
}

/// An array of written items.
#[verifier::opaque]
pub open spec fn array_bytes(es: Seq<Seq<u8>>) -> Seq<u8> {
    array_head(es.len()) + joined(es, 0)
}

/// One entry of a map: the key, and the value as it is written.
pub open spec fn entry_bytes(e: (Seq<char>, Seq<u8>)) -> Seq<u8> {
    text_bytes(e.0) + e.1
}

/// A map of written values.
#[verifier::opaque]
pub open spec fn map_bytes(es: Seq<(Seq<char>, Seq<u8>)>) -> Seq<u8> {
    map_head(es.len()) + joined(es.map_values(|e: (Seq<char>, Seq<u8>)| entry_bytes(e)), 0)
}

// ── Reading numbers and texts back ───────────────────────────────────────

/// One more than the largest number of `k` bytes.
pub open spec fn bytes_hold(k: nat) -> nat
    decreases k,
{
    if k == 0 {
        1
    } else {
        256 * bytes_hold((k - 1) as nat)
    }
}

proof fn lemma_big_endian(n: nat, k: nat, rest: Seq<u8>)
    requires
        n < bytes_hold(k),
    ensures
        big_endian(n, k).len() == k,
        be(big_endian(n, k) + rest, k as int) == n,
    decreases k,
{
    if k > 0 {
        let j = (k - 1) as nat;
        let last = seq![(n % 256) as u8];
        lemma_big_endian(n / 256, j, last + rest);
        assert(big_endian(n, k) + rest =~= big_endian(n / 256, j) + (last + rest));
    }
}

proof fn lemma_held()
    ensures
        bytes_hold(1) == 0x100,
        bytes_hold(2) == 0x1_0000,
        bytes_hold(4) == 0x1_0000_0000,
        bytes_hold(8) == 0x1_0000_0000_0000_0000,
{
    reveal_with_fuel(bytes_hold, 9);
}

/// A number of `k` bytes behind its marker is read back, with what stands behind it.
proof fn lemma_number(m: u8, n: nat, k: nat, rest: Seq<u8>)
    requires
        n < bytes_hold(k),
    ensures
        crate::msgpack::number(seq![m] + big_endian(n, k) + rest, k as int) == Out::Good(n, rest),
        (seq![m] + big_endian(n, k) + rest)[0] == m,
        (seq![m] + big_endian(n, k) + rest).len() == 1 + k + rest.len(),
        (seq![m] + big_endian(n, k) + rest).skip(1) == big_endian(n, k) + rest,
        (big_endian(n, k) + rest).skip(k as int) == rest,
        be(big_endian(n, k) + rest, k as int) == n,
{
    lemma_big_endian(n, k, rest);
    let s = seq![m] + big_endian(n, k) + rest;
    assert(s.skip(1) =~= big_endian(n, k) + rest);
    assert(s.skip(1 + k as int) =~= rest);
    assert((big_endian(n, k) + rest).skip(k as int) =~= rest);
}

/// Every integer is read back as itself, and leaves what stands behind it. So it is however many bytes
/// it was given.
pub proof fn law_ints_are_read_back(v: i64, rest: Seq<u8>)
    ensures
        int_value(int_bytes(v) + rest) == Out::Good(v, rest),
{
    reveal(int_bytes);
    lemma_held();
    let s = int_bytes(v) + rest;
    if 0 <= v < 0x80 || -32 <= v < 0 {
        assert(s.skip(1) =~= rest);
    } else if 0 <= v < 0x100 {
        lemma_number(0xcc, v as nat, 1, rest);
    } else if 0 <= v < 0x1_0000 {
        lemma_number(0xcd, v as nat, 2, rest);
    } else if 0 <= v < 0x1_0000_0000 {
        lemma_number(0xce, v as nat, 4, rest);
    } else if 0 <= v {
        lemma_number(0xcf, v as nat, 8, rest);
    } else if v >= -0x80 {
        lemma_number(0xd0, (v + 0x100) as nat, 1, rest);
    } else if v >= -0x8000 {
        lemma_number(0xd1, (v + 0x1_0000) as nat, 2, rest);
    } else if v >= -0x8000_0000 {
        lemma_number(0xd2, (v + 0x1_0000_0000) as nat, 4, rest);
    } else {
        lemma_number(0xd3, (v + 0x1_0000_0000_0000_0000) as nat, 8, rest);
    }
}

/// An integer that was given more bytes than it needs is read back too: unsigned ones of one, two, four
/// and eight bytes, and signed ones.
pub proof fn law_wide_ints_are_read_back(v: i64, rest: Seq<u8>)
    ensures
        0 <= v < 0x100 ==> int_value(seq![0xccu8] + big_endian(v as nat, 1) + rest) == Out::Good(v, rest),
        0 <= v < 0x1_0000 ==> int_value(seq![0xcdu8] + big_endian(v as nat, 2) + rest) == Out::Good(
            v,
            rest,
        ),
        0 <= v < 0x1_0000_0000 ==> int_value(seq![0xceu8] + big_endian(v as nat, 4) + rest) == Out::Good(
            v,
            rest,
        ),
        0 <= v ==> int_value(seq![0xcfu8] + big_endian(v as nat, 8) + rest) == Out::Good(v, rest),
        0 <= v < 0x80 ==> int_value(seq![0xd0u8] + big_endian(v as nat, 1) + rest) == Out::Good(v, rest),
        0 <= v < 0x8000 ==> int_value(seq![0xd1u8] + big_endian(v as nat, 2) + rest) == Out::Good(
            v,
            rest,
        ),
        0 <= v < 0x8000_0000 ==> int_value(seq![0xd2u8] + big_endian(v as nat, 4) + rest) == Out::Good(
            v,
            rest,
        ),
        0 <= v ==> int_value(seq![0xd3u8] + big_endian(v as nat, 8) + rest) == Out::Good(v, rest),
{
    lemma_held();
    if 0 <= v < 0x100 {
        lemma_number(0xcc, v as nat, 1, rest);
        lemma_number(0xd0, v as nat, 1, rest);
    }
    if 0 <= v < 0x1_0000 {
        lemma_number(0xcd, v as nat, 2, rest);
        lemma_number(0xd1, v as nat, 2, rest);
    }
    if 0 <= v < 0x1_0000_0000 {
        lemma_number(0xce, v as nat, 4, rest);
        lemma_number(0xd2, v as nat, 4, rest);
    }
    if 0 <= v {
        lemma_number(0xcf, v as nat, 8, rest);
        lemma_number(0xd3, v as nat, 8, rest);
    }
}

/// Every text is read back as itself, and leaves what stands behind it.
pub proof fn law_texts_are_read_back(s: Seq<char>, rest: Seq<u8>)
    requires
        is_writable(s),
    ensures
        text(text_bytes(s) + rest) == Out::Good(s, rest),
{
    reveal(text_bytes);
    lemma_held();
    let b = vstd::utf8::encode_utf8(s);
    let n = b.len();
    vstd::utf8::encode_utf8_decode_utf8(s);
    vstd::utf8::encode_utf8_valid_utf8(s);
    let whole = text_bytes(s) + rest;
    assert(whole =~= text_head(n) + (b + rest));
    lemma_text_head(n, b + rest);
    assert((b + rest).take(n as int) =~= b);
    assert((b + rest).skip(n as int) =~= rest);
}

proof fn lemma_text_head(n: nat, rest: Seq<u8>)
    requires
        n < 0x1_0000_0000,
    ensures
        text_length(text_head(n) + rest) == Out::Good(n, rest),
{
    lemma_held();
    let s = text_head(n) + rest;
    if n < 32 {
        assert(s.skip(1) =~= rest);
    } else if n < 0x100 {
        lemma_number(0xd9, n, 1, rest);
    } else if n < 0x1_0000 {
        lemma_number(0xda, n, 2, rest);
    } else {
        lemma_number(0xdb, n, 4, rest);
    }
}

/// The number of entries of a map, and of items of an array, is read back.
pub proof fn law_heads_are_read_back(n: nat, rest: Seq<u8>)
    requires
        n < 0x1_0000_0000,
    ensures
        map_length(map_head(n) + rest) == Out::Good(n, rest),
        array_length(array_head(n) + rest) == Out::Good(n, rest),
{
    lemma_held();
    let s = map_head(n) + rest;
    let t = array_head(n) + rest;
    if n < 16 {
        assert(s.skip(1) =~= rest);
        assert(t.skip(1) =~= rest);
    } else if n < 0x1_0000 {
        lemma_number(0xde, n, 2, rest);
        lemma_number(0xdc, n, 2, rest);
    } else {
        lemma_number(0xdf, n, 4, rest);
        lemma_number(0xdd, n, 4, rest);
    }
}

/// A number is not taken for a text, nor a text for a number, nor either for a map or an array.
pub proof fn law_kinds_are_told_apart(v: i64, s: Seq<char>, rest: Seq<u8>)
    requires
        is_writable(s),
    ensures
        text(int_bytes(v) + rest) is Bad,
        map_length(int_bytes(v) + rest) is Bad,
        array_length(int_bytes(v) + rest) is Bad,
        int_value(text_bytes(s) + rest) is Bad,
        map_length(text_bytes(s) + rest) is Bad,
        array_length(text_bytes(s) + rest) is Bad,
{
    reveal(int_bytes);
    reveal(text_bytes);
    lemma_int_first(v, rest);
    lemma_text_first(s, rest);
}

proof fn lemma_int_first(v: i64, rest: Seq<u8>)
    ensures
        ({
            let b = (int_bytes(v) + rest)[0];
            &&& (int_bytes(v) + rest).len() > 0
            &&& b < 0x80 || b >= 0xe0 || 0xcc <= b <= 0xcf || 0xd0 <= b <= 0xd3
        }),
{
    reveal(int_bytes);
}

proof fn lemma_text_first(s: Seq<char>, rest: Seq<u8>)
    requires
        is_writable(s),
    ensures
        ({
            let b = (text_bytes(s) + rest)[0];
            &&& (text_bytes(s) + rest).len() > 0
            &&& 0xa0 <= b <= 0xbf || b == 0xd9 || b == 0xda || b == 0xdb
        }),
{
    reveal(text_bytes);
    let b = vstd::utf8::encode_utf8(s);
    assert(text_bytes(s) + rest =~= text_head(b.len()) + (b + rest));
    lemma_held();
    if b.len() >= 32 {
        if b.len() < 0x100 {
            lemma_number(0xd9, b.len(), 1, b + rest);
        } else if b.len() < 0x1_0000 {
            lemma_number(0xda, b.len(), 2, b + rest);
        } else {
            lemma_number(0xdb, b.len(), 4, b + rest);
        }
    }
}

// ── Floats ───────────────────────────────────────────────────────────────

/// The bits of a float are read back, and an integer in its place is read as such; what takes more
/// than 32 bits does not count as one.
pub proof fn law_floats_are_read_back(d: u64, f: u32, v: i64, rest: Seq<u8>)
    ensures
        float_value(seq![0xcbu8] + big_endian(d as nat, 8) + rest) == Out::Good(
            Fraction::Double(d),
            rest,
        ),
        float_value(seq![0xcau8] + big_endian(f as nat, 4) + rest) == Out::Good(
            Fraction::Single(f),
            rest,
        ),
        0 <= v < 0x1_0000_0000 || -0x8000_0000 <= v < -32 ==> float_value(int_bytes(v) + rest)
            == Out::Good(Fraction::Whole(v), rest),
        v >= 0x1_0000_0000 || v < -0x8000_0000 ==> float_value(int_bytes(v) + rest) is Bad,
{
    reveal(int_bytes);
    lemma_held();
    lemma_number(0xcb, d as nat, 8, rest);
    lemma_number(0xca, f as nat, 4, rest);
    law_ints_are_read_back(v, rest);
}

// ── Skipping ─────────────────────────────────────────────────────────────

/// A value that is not looked at is passed over whole: a number, or a text.
pub proof fn law_scalars_are_skipped(v: i64, s: Seq<char>, rest: Seq<u8>)
    requires
        is_writable(s),
    ensures
        skipped(int_bytes(v) + rest) == Out::Good((), rest),
        skipped(text_bytes(s) + rest) == Out::Good((), rest),
{
    reveal(int_bytes);
    reveal(text_bytes);
    lemma_held();
    let x = int_bytes(v) + rest;
    if 0 <= v < 0x80 || -32 <= v < 0 {
        assert(x.skip(1) =~= rest);
        assert(rest.skip(0) =~= rest);
    } else if 0 <= v < 0x100 {
        lemma_number(0xcc, v as nat, 1, rest);
    } else if 0 <= v < 0x1_0000 {
        lemma_number(0xcd, v as nat, 2, rest);
    } else if 0 <= v < 0x1_0000_0000 {
        lemma_number(0xce, v as nat, 4, rest);
    } else if 0 <= v {
        lemma_number(0xcf, v as nat, 8, rest);
    } else if v >= -0x80 {
        lemma_number(0xd0, (v + 0x100) as nat, 1, rest);
    } else if v >= -0x8000 {
        lemma_number(0xd1, (v + 0x1_0000) as nat, 2, rest);
    } else if v >= -0x8000_0000 {
        lemma_number(0xd2, (v + 0x1_0000_0000) as nat, 4, rest);
    } else {
        lemma_number(0xd3, (v + 0x1_0000_0000_0000_0000) as nat, 8, rest);
    }
    let b = vstd::utf8::encode_utf8(s);
    let n = b.len();
    let y = text_bytes(s) + rest;
    assert(y =~= text_head(n) + (b + rest));
    assert((b + rest).skip(n as int) =~= rest);
    if n < 32 {
        assert(y.skip(1) =~= b + rest);
    } else if n < 0x100 {
        lemma_number(0xd9, n, 1, b + rest);
    } else if n < 0x1_0000 {
        lemma_number(0xda, n, 2, b + rest);
    } else {
        lemma_number(0xdb, n, 4, b + rest);
    }
}

/// Whether some bytes are one value to whoever passes over it, whatever stands behind them.
#[verifier::opaque]
pub open spec fn is_value(b: Seq<u8>) -> bool {
    &&& b.len() > 0
    &&& forall|rest: Seq<u8>| skipped(#[trigger] (b + rest)) == Out::Good((), rest)
}

/// A value is passed over.
pub proof fn lemma_value(b: Seq<u8>, rest: Seq<u8>)
    requires
        is_value(b),
    ensures
        skipped(b + rest) == Out::Good((), rest),
        b.len() > 0,
{
    reveal(is_value);
}

/// Numbers and texts are values.
pub proof fn lemma_scalar_values(v: i64, s: Seq<char>)
    requires
        is_writable(s),
    ensures
        is_value(int_bytes(v)),
        is_value(text_bytes(s)),
{
    reveal(int_bytes);
    reveal(text_bytes);
    reveal(is_value);
    lemma_int_first(v, Seq::empty());
    lemma_text_first(s, Seq::empty());
    assert(int_bytes(v) + Seq::<u8>::empty() =~= int_bytes(v));
    assert(text_bytes(s) + Seq::<u8>::empty() =~= text_bytes(s));
    assert forall|rest: Seq<u8>| skipped(#[trigger] (int_bytes(v) + rest)) == Out::Good((), rest) by {
        law_scalars_are_skipped(v, s, rest);
    }
    assert forall|rest: Seq<u8>| skipped(#[trigger] (text_bytes(s) + rest)) == Out::Good((), rest) by {
        law_scalars_are_skipped(v, s, rest);
    }
}

proof fn lemma_skip_array(n: nat, body: Seq<u8>, rest: Seq<u8>)
    requires
        n < 0x1_0000_0000,
        skipped_n(body, n) == Out::Good((), rest),
    ensures
        skipped(array_head(n) + body) == Out::Good((), rest),
{
    lemma_held();
    let s = array_head(n) + body;
    if n < 16 {
        assert(s.skip(1) =~= body);
        assert(crate::msgpack::shape(s[0]) == crate::msgpack::Shape::Values(n as u64));
    } else if n < 0x1_0000 {
        lemma_number(0xdc, n, 2, body);
        assert(crate::msgpack::shape(s[0]) == crate::msgpack::Shape::SizedValues(2, 1));
        assert(be(s.skip(1), 2) * 1 == n);
    } else {
        lemma_number(0xdd, n, 4, body);
        assert(crate::msgpack::shape(s[0]) == crate::msgpack::Shape::SizedValues(4, 1));
        assert(be(s.skip(1), 4) * 1 == n);
    }
}

proof fn lemma_skip_map(n: nat, body: Seq<u8>, rest: Seq<u8>)
    requires
        n < 0x1_0000_0000,
        skipped_n(body, 2 * n) == Out::Good((), rest),
    ensures
        skipped(map_head(n) + body) == Out::Good((), rest),
{
    lemma_held();
    let s = map_head(n) + body;
    if n < 16 {
        assert(s.skip(1) =~= body);
        assert(crate::msgpack::shape(s[0]) == crate::msgpack::Shape::Values((2 * n) as u64));
    } else if n < 0x1_0000 {
        lemma_number(0xde, n, 2, body);
        assert(crate::msgpack::shape(s[0]) == crate::msgpack::Shape::SizedValues(2, 2));
        assert(be(s.skip(1), 2) * 2 == 2 * n);
    } else {
        lemma_number(0xdf, n, 4, body);
        assert(crate::msgpack::shape(s[0]) == crate::msgpack::Shape::SizedValues(4, 2));
        assert(be(s.skip(1), 4) * 2 == 2 * n);
    }
}

/// Values one behind the other are passed over.
pub proof fn lemma_skip_joined(es: Seq<Seq<u8>>, i: int, rest: Seq<u8>)
    requires
        0 <= i <= es.len(),
        forall|j: int| 0 <= j < es.len() ==> is_value(#[trigger] es[j]),
    ensures
        skipped_n(joined(es, i) + rest, (es.len() - i) as nat) == Out::Good((), rest),
    decreases es.len() - i,
{
    if i < es.len() {
        lemma_skip_joined(es, i + 1, rest);
        assert(is_value(es[i]));
        assert(joined(es, i) + rest =~= es[i] + (joined(es, i + 1) + rest));
        lemma_value(es[i], joined(es, i + 1) + rest);
    } else {
        assert(joined(es, i) + rest =~= rest);
    }
}

/// An array is passed over with all its items.
pub proof fn law_arrays_are_skipped(es: Seq<Seq<u8>>)
    requires
        es.len() < 0x1_0000_0000,
        forall|j: int| 0 <= j < es.len() ==> is_value(#[trigger] es[j]),
    ensures
        is_value(array_bytes(es)),
{
    reveal(array_bytes);
    reveal(is_value);
    assert forall|rest: Seq<u8>| skipped(#[trigger] (array_bytes(es) + rest)) == Out::Good(
        (),
        rest,
    ) by {
        assert(array_bytes(es) + rest =~= array_head(es.len()) + (joined(es, 0) + rest));
        lemma_skip_joined(es, 0, rest);
        lemma_skip_array(es.len(), joined(es, 0) + rest, rest);
    }
}

/// An entry, as the two values that it is.
spec fn halves(es: Seq<(Seq<char>, Seq<u8>)>) -> Seq<Seq<u8>> {
    Seq::new(
        2 * es.len(),
        |i: int|
            if i % 2 == 0 {
                text_bytes(es[i / 2].0)
            } else {
                es[i / 2].1
            },
    )
}

proof fn lemma_halves(es: Seq<(Seq<char>, Seq<u8>)>, i: int)
    requires
        0 <= i <= es.len(),
    ensures
        joined(es.map_values(|e: (Seq<char>, Seq<u8>)| entry_bytes(e)), i) == joined(
            halves(es),
            2 * i,
        ),
    decreases es.len() - i,
{
    reveal(text_bytes);
    let whole = es.map_values(|e: (Seq<char>, Seq<u8>)| entry_bytes(e));
    if i < es.len() {
        lemma_halves(es, i + 1);
        let h = halves(es);
        assert(h[2 * i] == text_bytes(es[i].0));
        assert(h[2 * i + 1] == es[i].1);
        assert(joined(h, 2 * i) == h[2 * i] + joined(h, 2 * i + 1));
        assert(joined(h, 2 * i + 1) == h[2 * i + 1] + joined(h, 2 * i + 2));
        assert(joined(whole, i) == whole[i] + joined(whole, i + 1));
        assert(whole[i] == text_bytes(es[i].0) + es[i].1);
        assert(joined(whole, i) =~= joined(h, 2 * i));
    }
}

/// A map is passed over with all its entries.
pub proof fn law_maps_are_skipped(es: Seq<(Seq<char>, Seq<u8>)>)
    requires
        es.len() < 0x1_0000_0000,
        forall|j: int|
            0 <= j < es.len() ==> is_writable((#[trigger] es[j]).0) && is_value(es[j].1),
    ensures
        is_value(map_bytes(es)),
{
    reveal(map_bytes);
    let h = halves(es);
    lemma_halves(es, 0);
    assert forall|j: int| 0 <= j < h.len() implies is_value(#[trigger] h[j]) by {
        let e = es[j / 2];
        lemma_scalar_values(0, e.0);
    }
    assert(map_bytes(es).len() > 0);
    assert forall|rest: Seq<u8>| skipped(#[trigger] (map_bytes(es) + rest)) == Out::Good(
        (),
        rest,
    ) by {
        assert(map_bytes(es) + rest =~= map_head(es.len()) + (joined(h, 0) + rest));
        lemma_skip_joined(h, 0, rest);
        lemma_skip_map(es.len(), joined(h, 0) + rest, rest);
    }
    reveal(is_value);
}

// ── Looking for a key ────────────────────────────────────────────────────

/// The bytes from the value of the `k`-th entry on.
spec fn from_value(es: Seq<(Seq<char>, Seq<u8>)>, k: int, rest: Seq<u8>) -> Seq<u8> {
    es[k].1 + joined(es.map_values(|e: (Seq<char>, Seq<u8>)| entry_bytes(e)), k + 1) + rest
}

/// Bytes that stand one behind the other may be grouped in any way.
pub proof fn lemma_grouped(a: Seq<u8>, b: Seq<u8>, c: Seq<u8>, d: Seq<u8>)
    ensures
        a + b + c + d == a + (b + (c + d)),
        a + b + c == a + (b + c),
{
    assert(a + b + c + d =~= a + (b + (c + d)));
    assert(a + b + c =~= a + (b + c));
}

proof fn lemma_seek(es: Seq<(Seq<char>, Seq<u8>)>, i: int, k: int, rest: Seq<u8>)
    requires
        0 <= i <= k < es.len(),
        forall|j: int|
            0 <= j < es.len() ==> is_writable((#[trigger] es[j]).0) && is_value(es[j].1),
        forall|j: int| 0 <= j < k ==> (#[trigger] es[j]).0 != es[k].0,
    ensures
        ({
            let whole = es.map_values(|e: (Seq<char>, Seq<u8>)| entry_bytes(e));
            seek(joined(whole, i) + rest, (es.len() - i) as nat, es[k].0) == Some(
                from_value(es, k, rest),
            )
        }),
    decreases k - i,
{
    reveal(text_bytes);
    let whole = es.map_values(|e: (Seq<char>, Seq<u8>)| entry_bytes(e));
    let tail = joined(whole, i + 1) + rest;
    let (key, value) = es[i];
    assert(whole[i] == text_bytes(key) + value);
    assert(joined(whole, i) == whole[i] + joined(whole, i + 1));
    lemma_grouped(text_bytes(key), value, joined(whole, i + 1), rest);
    law_texts_are_read_back(key, value + tail);
    if i < k {
        assert(es[i].0 != es[k].0);
        lemma_value(value, tail);
        lemma_seek(es, i + 1, k, rest);
    } else {
        lemma_grouped(value, joined(whole, i + 1), rest, rest);
    }
}

/// Looking for a key in a map leads to its value: to that of the first entry with the key.
pub proof fn law_keys_lead_to_their_values(es: Seq<(Seq<char>, Seq<u8>)>, k: int, rest: Seq<u8>)
    requires
        0 <= k < es.len() < 0x1_0000_0000,
        forall|j: int|
            0 <= j < es.len() ==> is_writable((#[trigger] es[j]).0) && is_value(es[j].1),
        forall|j: int| 0 <= j < k ==> (#[trigger] es[j]).0 != es[k].0,
    ensures
        seek_map(map_bytes(es) + rest, es[k].0) is Some,
        es[k].1.is_prefix_of(seek_map(map_bytes(es) + rest, es[k].0)->0),
{
    reveal(map_bytes);
    let whole = es.map_values(|e: (Seq<char>, Seq<u8>)| entry_bytes(e));
    let body = joined(whole, 0) + rest;
    assert(map_bytes(es) + rest =~= map_head(es.len()) + body);
    law_heads_are_read_back(es.len(), body);
    lemma_seek(es, 0, k, rest);
    let found = from_value(es, k, rest);
    assert(found.take(es[k].1.len() as int) =~= es[k].1);
}

} // verus!

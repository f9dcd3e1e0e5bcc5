//! The referrers of a snapshot, and who approves a builder, are read back.
use crate::clearing_house::rmp_streaming::referrals::{
    approver_at,
    approvers_of,
    approves,
    find,
    find_in,
    no_referral,
    one_approver,
    one_referred,
    part_approves,
    parts_approve,
    place_at,
    place_in,
    place_in_ftr,
    place_in_locus,
    referral_among,
    referral_by_code,
    referral_in,
    referrer_at,
    referrer_field,
    ReferralModel,
    ReferrerModel,
};
use crate::clearing_house::snapshot_laws::{
    field_reads,
    item_reads,
    lemma_short,
    lemma_two_fields,
    pair_bytes,
};
use crate::clearing_house::snapshot_list_laws::{folded, lemma_list_reads};
use crate::msgpack::{seek_map, skipped_n};
use crate::msgpack_laws::{
    array_bytes,
    array_head,
    entry_bytes,
    int_bytes,
    is_value,
    is_writable,
    joined,
    law_arrays_are_skipped,
    law_heads_are_read_back,
    law_keys_lead_to_their_values,
    law_maps_are_skipped,
    law_texts_are_read_back,
    lemma_grouped,
    lemma_scalar_values,
    lemma_value,
    map_bytes,
    map_head,
    text_bytes,
};
use vstd::prelude::*;

verus! {

proof fn lemma_keys()
    ensures
        is_writable("c"@) && is_writable("s"@) && is_writable("m"@),
        "c"@ != "s"@,
{
    reveal_strlit("c");
    reveal_strlit("s");
    reveal_strlit("m");
    lemma_short("c"@);
    lemma_short("s"@);
    lemma_short("m"@);
    assert("c"@[0] == 'c' && "s"@[0] == 's');
}

/// Two things behind one another, as they stand in an array of two.
proof fn lemma_pair(x: Seq<u8>, y: Seq<u8>, rest: Seq<u8>)
    ensures
        crate::msgpack::array_length(pair_bytes(x, y) + rest) == crate::msgpack::Out::Good(
            2nat,
            x + (y + rest),
        ),
{
    reveal(array_bytes);
    let es = seq![x, y];
    assert(joined(es, 2) == Seq::<u8>::empty());
    assert(joined(es, 1) == y + joined(es, 2));
    assert(joined(es, 0) == x + joined(es, 1));
    assert(joined(es, 0) =~= x + y);
    lemma_grouped(array_head(2), x + y, rest, rest);
    lemma_grouped(x, y, rest, rest);
    law_heads_are_read_back(2, x + y + rest);
}

proof fn lemma_pair_value(x: Seq<u8>, y: Seq<u8>)
    requires
        is_value(x),
        is_value(y),
    ensures
        is_value(pair_bytes(x, y)),
{
    law_arrays_are_skipped(seq![x, y]);
}

// ── Referrers ────────────────────────────────────────────────────────────

/// A user whom someone referred, with a number beside them, as a snapshot writes them.
pub open spec fn referred_bytes(x: (Seq<char>, i64)) -> Seq<u8> {
    pair_bytes(text_bytes(x.0), int_bytes(x.1))
}

/// What someone who refers others has: a code, and the users who came by it.
pub open spec fn referrer_bytes(code: Seq<char>, xs: Seq<(Seq<char>, i64)>) -> Seq<u8> {
    map_bytes(
        seq![
            ("c"@, text_bytes(code)),
            ("s"@, array_bytes(xs.map_values(|x: (Seq<char>, i64)| referred_bytes(x)))),
        ],
    )
}

/// One who refers others: their address, their code and the users.
pub struct Referrer {
    pub owner: Seq<char>,
    pub code: Seq<char>,
    pub users: Seq<(Seq<char>, i64)>,
}

/// Whether all of it can be written.
pub open spec fn can_write(e: Referrer) -> bool {
    &&& is_writable(e.owner)
    &&& is_writable(e.code)
    &&& e.users.len() < 0x1_0000_0000
    &&& forall|i: int| 0 <= i < e.users.len() ==> is_writable((#[trigger] e.users[i]).0)
}

/// One who refers others, as a snapshot writes them.
pub open spec fn entry_of(e: Referrer) -> Seq<u8> {
    pair_bytes(text_bytes(e.owner), referrer_bytes(e.code, e.users))
}

/// The users whom someone referred, in lower case.
pub open spec fn came_by(xs: Seq<(Seq<char>, i64)>, n: int) -> Map<Seq<char>, ()>
    decreases n,
{
    if n <= 0 {
        Map::empty()
    } else {
        came_by(xs, n - 1).insert(crate::text::lowercase(xs[n - 1].0), ())
    }
}

proof fn lemma_referred(a: ReferrerModel, x: (Seq<char>, i64), rest: Seq<u8>)
    requires
        is_writable(x.0),
    ensures
        one_referred(a, referred_bytes(x) + rest) == Some(
            (
                ReferrerModel { users: a.users.insert(crate::text::lowercase(x.0), ()), ..a },
                rest,
            ),
        ),
{
    let i = int_bytes(x.1);
    lemma_pair(text_bytes(x.0), i, rest);
    law_texts_are_read_back(x.0, i + rest);
    lemma_scalar_values(x.1, x.0);
    lemma_value(i, rest);
    reveal_with_fuel(skipped_n, 2);
    assert(skipped_n(i + rest, 1) == crate::msgpack::Out::Good((), rest));
}

proof fn lemma_came_by(a: ReferrerModel, xs: Seq<(Seq<char>, i64)>, n: int)
    requires
        0 <= n <= xs.len(),
        a.users == Map::<Seq<char>, ()>::empty(),
    ensures
        folded(
            a,
            xs,
            |b: ReferrerModel, x: (Seq<char>, i64)|
                ReferrerModel { users: b.users.insert(crate::text::lowercase(x.0), ()), ..b },
            n,
        ) == (ReferrerModel { users: came_by(xs, n), ..a }),
    decreases n,
{
    if n > 0 {
        lemma_came_by(a, xs, n - 1);
    }
}

proof fn lemma_users(a: ReferrerModel, xs: Seq<(Seq<char>, i64)>, rest: Seq<u8>)
    requires
        xs.len() < 0x1_0000_0000,
        forall|i: int| 0 <= i < xs.len() ==> is_writable((#[trigger] xs[i]).0),
        a.users == Map::<Seq<char>, ()>::empty(),
    ensures
        referrer_field(
            "s"@,
            a,
            array_bytes(xs.map_values(|x: (Seq<char>, i64)| referred_bytes(x))) + rest,
        ) == Some((ReferrerModel { users: came_by(xs, xs.len() as int), ..a }, rest)),
{
    lemma_keys();
    let g = |b: ReferrerModel, x: (Seq<char>, i64)|
        ReferrerModel { users: b.users.insert(crate::text::lowercase(x.0), ()), ..b };
    let h: spec_fn(ReferrerModel, Seq<u8>) -> Option<(ReferrerModel, Seq<u8>)> = |a, s|
        one_referred(a, s);
    assert forall|b: ReferrerModel, i: int|
        #![trigger g(b, xs[i])]
        0 <= i < xs.len() implies item_reads(h, b, referred_bytes(xs[i]), g(b, xs[i])) by {
        reveal(item_reads);
        assert forall|r: Seq<u8>| #[trigger]
            h(b, referred_bytes(xs[i]) + r) == Some((g(b, xs[i]), r)) by {
            lemma_referred(b, xs[i], r);
        }
    }
    lemma_list_reads(a, xs, |x: (Seq<char>, i64)| referred_bytes(x), g, h, rest);
    lemma_came_by(a, xs, xs.len() as int);
}

/// A referrer is read back with the code and with all users who came by it.
pub proof fn law_referrers_are_read_back(e: Referrer, rest: Seq<u8>)
    requires
        can_write(e),
    ensures
        referrer_at(referrer_bytes(e.code, e.users) + rest) == Some(
            (ReferrerModel { code: e.code, users: came_by(e.users, e.users.len() as int) }, rest),
        ),
{
    lemma_keys();
    let f: spec_fn(Seq<char>, ReferrerModel, Seq<u8>) -> Option<(ReferrerModel, Seq<u8>)> =
        |k, a, s| referrer_field(k, a, s);
    let a0 = ReferrerModel { code: Seq::empty(), users: Map::empty() };
    let a1 = ReferrerModel { code: e.code, ..a0 };
    let a2 = ReferrerModel { users: came_by(e.users, e.users.len() as int), ..a1 };
    let list = array_bytes(e.users.map_values(|x: (Seq<char>, i64)| referred_bytes(x)));
    assert(field_reads(f, "c"@, a0, text_bytes(e.code), a1)) by {
        reveal(field_reads);
        assert forall|r: Seq<u8>| #[trigger] f("c"@, a0, text_bytes(e.code) + r) == Some((a1, r)) by {
            law_texts_are_read_back(e.code, r);
        }
    }
    assert(field_reads(f, "s"@, a1, list, a2)) by {
        reveal(field_reads);
        assert forall|r: Seq<u8>| #[trigger] f("s"@, a1, list + r) == Some((a2, r)) by {
            lemma_users(a1, e.users, r);
        }
    }
    lemma_two_fields(("c"@, text_bytes(e.code)), ("s"@, list), a0, a1, a2, f, rest);
}

proof fn lemma_referrer_value(e: Referrer)
    requires
        can_write(e),
    ensures
        is_value(referrer_bytes(e.code, e.users)),
        is_value(entry_of(e)),
{
    lemma_keys();
    let bytes = e.users.map_values(|x: (Seq<char>, i64)| referred_bytes(x));
    assert forall|j: int| 0 <= j < bytes.len() implies is_value(#[trigger] bytes[j]) by {
        lemma_scalar_values(e.users[j].1, e.users[j].0);
        lemma_pair_value(text_bytes(e.users[j].0), int_bytes(e.users[j].1));
    }
    law_arrays_are_skipped(bytes);
    lemma_scalar_values(0, e.code);
    lemma_scalar_values(0, e.owner);
    law_maps_are_skipped(seq![("c"@, text_bytes(e.code)), ("s"@, array_bytes(bytes))]);
    lemma_pair_value(text_bytes(e.owner), referrer_bytes(e.code, e.users));
}

/// Whether two codes are the same but for capitals.
pub open spec fn same_code(a: Seq<char>, b: Seq<char>) -> bool {
    crate::text::ascii_lower(a) == crate::text::ascii_lower(b)
}

/// One entry is read: it is the one that is sought if its code is the same, else the next ones are
/// looked at.
proof fn lemma_entry(e: Referrer, n: nat, code: Seq<char>, rest: Seq<u8>)
    requires
        can_write(e),
        n > 0,
    ensures
        same_code(e.code, code) ==> referral_among(entry_of(e) + rest, n, code) == Some(
            ReferralModel {
                owner: Some(crate::text::lowercase(e.owner)),
                users: came_by(e.users, e.users.len() as int),
            },
        ),
        !same_code(e.code, code) ==> referral_among(entry_of(e) + rest, n, code) == referral_among(
            rest,
            (n - 1) as nat,
            code,
        ),
{
    let b = referrer_bytes(e.code, e.users);
    let u = b + rest;
    lemma_pair(text_bytes(e.owner), b, rest);
    law_texts_are_read_back(e.owner, u);
    lemma_referrer_value(e);
    lemma_value(b, rest);
    assert(u.take(u.len() - rest.len()) =~= b);
    assert(b + Seq::<u8>::empty() =~= b);
    law_referrers_are_read_back(e, Seq::empty());
}

/// The entries of a list of referrers.
pub open spec fn entries(es: Seq<Referrer>) -> Seq<Seq<u8>> {
    es.map_values(|e: Referrer| entry_of(e))
}

proof fn lemma_among(es: Seq<Referrer>, i: int, k: int, code: Seq<char>, rest: Seq<u8>)
    requires
        0 <= i <= k <= es.len(),
        forall|j: int| 0 <= j < es.len() ==> can_write(#[trigger] es[j]),
        forall|j: int| i <= j < k ==> !same_code((#[trigger] es[j]).code, code),
        k < es.len() ==> same_code(es[k].code, code),
    ensures
        referral_among(joined(entries(es), i) + rest, (es.len() - i) as nat, code) == Some(
            if k < es.len() {
                ReferralModel {
                    owner: Some(crate::text::lowercase(es[k].owner)),
                    users: came_by(es[k].users, es[k].users.len() as int),
                }
            } else {
                no_referral()
            },
        ),
    decreases k - i,
{
    if i < es.len() {
        let whole = entries(es);
        let tail = joined(whole, i + 1) + rest;
        assert(joined(whole, i) == whole[i] + joined(whole, i + 1));
        lemma_grouped(whole[i], joined(whole, i + 1), rest, rest);
        lemma_entry(es[i], (es.len() - i) as nat, code, tail);
        if i < k {
            lemma_among(es, i + 1, k, code, rest);
        }
    }
}

/// A list of referrers leads from a code, in whatever letters, to the first who has it and to the
/// users who came by it; from a code that nobody has, to nobody.
pub proof fn law_codes_lead_to_referrers(es: Seq<Referrer>, k: int, code: Seq<char>, rest: Seq<u8>)
    requires
        es.len() < 0x1_0000_0000,
        forall|j: int| 0 <= j < es.len() ==> can_write(#[trigger] es[j]),
        0 <= k <= es.len(),
        forall|j: int| 0 <= j < k ==> !same_code((#[trigger] es[j]).code, code),
        k < es.len() ==> same_code(es[k].code, code),
    ensures
        ({
            let r = referral_in(array_bytes(entries(es)) + rest, code);
            &&& r is Some
            &&& k < es.len() ==> r->0.owner == Some(crate::text::lowercase(es[k].owner)) && r->0.users
                == came_by(es[k].users, es[k].users.len() as int)
            &&& k == es.len() ==> r->0.owner is None && r->0.users == Map::<Seq<char>, ()>::empty()
        }),
{
    reveal(array_bytes);
    lemma_grouped(array_head(es.len()), joined(entries(es), 0), rest, rest);
    law_heads_are_read_back(es.len(), joined(entries(es), 0) + rest);
    lemma_among(es, 0, k, code, rest);
}

/// Who came by a code are the users that are listed, and nobody else.
pub proof fn law_who_came_by_a_code(xs: Seq<(Seq<char>, i64)>, n: int, u: Seq<char>)
    requires
        0 <= n <= xs.len(),
    ensures
        came_by(xs, n).contains_key(u) <==> exists|i: int|
            0 <= i < n && crate::text::lowercase((#[trigger] xs[i]).0) == u,
    decreases n,
{
    if n > 0 {
        law_who_came_by_a_code(xs, n - 1, u);
        if crate::text::lowercase(xs[n - 1].0) == u {
            assert(crate::text::lowercase(xs[n - 1].0) == u);
        }
    }
}

// ── Where they stand in a snapshot ───────────────────────────────────────

/// Whether a key of a map leads to a value: it is that of the first entry with the key.
pub open spec fn leads(es: Seq<(Seq<char>, Seq<u8>)>, k: int, key: Seq<char>, value: Seq<u8>) -> bool {
    &&& 0 <= k < es.len() < 0x1_0000_0000
    &&& es[k] == (key, value)
    &&& forall|j: int| 0 <= j < es.len() ==> is_writable((#[trigger] es[j]).0) && is_value(es[j].1)
    &&& forall|j: int| 0 <= j < k ==> (#[trigger] es[j]).0 != key
}

/// What stands behind an entry.
spec fn behind(es: Seq<(Seq<char>, Seq<u8>)>, k: int, rest: Seq<u8>) -> Seq<u8> {
    joined(es.map_values(|e: (Seq<char>, Seq<u8>)| entry_bytes(e)), k + 1) + rest
}

proof fn lemma_find<R>(
    es: Seq<(Seq<char>, Seq<u8>)>,
    i: int,
    k: int,
    key: Seq<char>,
    value: Seq<u8>,
    f: spec_fn(Seq<u8>) -> Option<(Option<R>, Seq<u8>)>,
    rest: Seq<u8>,
)
    requires
        leads(es, k, key, value),
        0 <= i <= k,
        f(value + behind(es, k, rest)) is Some,
        (f(value + behind(es, k, rest))->Some_0).0 is Some,
    ensures
        find(
            joined(es.map_values(|e: (Seq<char>, Seq<u8>)| entry_bytes(e)), i) + rest,
            (es.len() - i) as nat,
            key,
            f,
        ) == f(value + behind(es, k, rest)),
    decreases k - i,
{
    let whole = es.map_values(|e: (Seq<char>, Seq<u8>)| entry_bytes(e));
    let tail = joined(whole, i + 1) + rest;
    let (name, v) = es[i];
    assert(whole[i] == text_bytes(name) + v);
    assert(joined(whole, i) == whole[i] + joined(whole, i + 1));
    lemma_grouped(text_bytes(name), v, joined(whole, i + 1), rest);
    law_texts_are_read_back(name, v + tail);
    if i < k {
        assert(es[i].0 != key);
        lemma_value(v, tail);
        lemma_find(es, i + 1, k, key, value, f, rest);
    }
}

proof fn lemma_find_in<R>(
    es: Seq<(Seq<char>, Seq<u8>)>,
    k: int,
    key: Seq<char>,
    value: Seq<u8>,
    f: spec_fn(Seq<u8>) -> Option<(Option<R>, Seq<u8>)>,
    rest: Seq<u8>,
)
    requires
        leads(es, k, key, value),
        f(value + behind(es, k, rest)) is Some,
        (f(value + behind(es, k, rest))->Some_0).0 is Some,
    ensures
        find_in(map_bytes(es) + rest, key, f) == f(value + behind(es, k, rest)),
{
    reveal(map_bytes);
    let whole = es.map_values(|e: (Seq<char>, Seq<u8>)| entry_bytes(e));
    lemma_grouped(map_head(es.len()), joined(whole, 0), rest, rest);
    law_heads_are_read_back(es.len(), joined(whole, 0) + rest);
    lemma_find(es, 0, k, key, value, f, rest);
}

/// A key of the innermost of the maps under "exchange", "locus" and "ftr" leads to its value.
pub proof fn law_keys_are_found_inside(
    root: Seq<(Seq<char>, Seq<u8>)>,
    k0: int,
    exchange: Seq<(Seq<char>, Seq<u8>)>,
    k1: int,
    locus: Seq<(Seq<char>, Seq<u8>)>,
    k2: int,
    ftr: Seq<(Seq<char>, Seq<u8>)>,
    k3: int,
    key: Seq<char>,
    value: Seq<u8>,
)
    requires
        leads(root, k0, "exchange"@, map_bytes(exchange)),
        leads(exchange, k1, "locus"@, map_bytes(locus)),
        leads(locus, k2, "ftr"@, map_bytes(ftr)),
        leads(ftr, k3, key, value),
    ensures
        ({
            let p = place_at(map_bytes(root), key);
            p is Some && p->0 is Some && exists|tail: Seq<u8>| p->0->0 == #[trigger] (value + tail)
        }),
{
    let none = Seq::<u8>::empty();
    assert(map_bytes(root) + none =~= map_bytes(root));
    law_keys_lead_to_their_values(root, k0, none);
    let t = seek_map(map_bytes(root), "exchange"@)->0;
    let b0 = t.skip(map_bytes(exchange).len() as int);
    assert(t =~= map_bytes(exchange) + b0) by {
        assert(map_bytes(exchange) =~= t.subrange(0, map_bytes(exchange).len() as int));
    }
    let b1 = behind(exchange, k1, b0);
    let b2 = behind(locus, k2, b1);
    let b3 = behind(ftr, k3, b2);
    lemma_find_in(ftr, k3, key, value, |s: Seq<u8>| Some((Some(s), s)), b2);
    assert(place_in(map_bytes(ftr) + b2, key) == Some((Some(value + b3), value + b3)));
    lemma_find_in(locus, k2, "ftr"@, map_bytes(ftr), |s: Seq<u8>| place_in(s, key), b1);
    assert(place_in_ftr(map_bytes(locus) + b1, key) == Some((Some(value + b3), value + b3)));
    lemma_find_in(exchange, k1, "locus"@, map_bytes(locus), |s: Seq<u8>| place_in_ftr(s, key), b0);
    assert(place_in_locus(map_bytes(exchange) + b0, key) == Some((Some(value + b3), value + b3)));
}

/// A code leads to its referrer in a whole snapshot.
pub proof fn law_referrals_are_found(
    root: Seq<(Seq<char>, Seq<u8>)>,
    k0: int,
    exchange: Seq<(Seq<char>, Seq<u8>)>,
    k1: int,
    locus: Seq<(Seq<char>, Seq<u8>)>,
    k2: int,
    ftr: Seq<(Seq<char>, Seq<u8>)>,
    k3: int,
    es: Seq<Referrer>,
    k: int,
    code: Seq<char>,
)
    requires
        leads(root, k0, "exchange"@, map_bytes(exchange)),
        leads(exchange, k1, "locus"@, map_bytes(locus)),
        leads(locus, k2, "ftr"@, map_bytes(ftr)),
        leads(ftr, k3, "referrer_states"@, array_bytes(entries(es))),
        es.len() < 0x1_0000_0000,
        forall|j: int| 0 <= j < es.len() ==> can_write(#[trigger] es[j]),
        0 <= k <= es.len(),
        forall|j: int| 0 <= j < k ==> !same_code((#[trigger] es[j]).code, code),
        k < es.len() ==> same_code(es[k].code, code),
    ensures
        ({
            let r = referral_by_code(map_bytes(root), code);
            &&& r is Some
            &&& k < es.len() ==> r->0.owner == Some(crate::text::lowercase(es[k].owner)) && r->0.users
                == came_by(es[k].users, es[k].users.len() as int)
            &&& k == es.len() ==> r->0.owner is None && r->0.users == Map::<Seq<char>, ()>::empty()
        }),
{
    let value = array_bytes(entries(es));
    law_keys_are_found_inside(
        root,
        k0,
        exchange,
        k1,
        locus,
        k2,
        ftr,
        k3,
        "referrer_states"@,
        value,
    );
    let p = place_at(map_bytes(root), "referrer_states"@)->0->0;
    let tail = choose|tail: Seq<u8>| p == #[trigger] (value + tail);
    law_codes_lead_to_referrers(es, k, code, tail);
}

// ── Who approves a builder ───────────────────────────────────────────────

/// A user, and the builders whom they approve, as a snapshot writes them.
pub open spec fn approver_bytes(e: (Seq<char>, Seq<u8>)) -> Seq<u8> {
    pair_bytes(text_bytes(e.0), map_bytes(seq![("m"@, e.1)]))
}

/// Whether some bytes name a builder.
pub open spec fn names(b: Seq<u8>, builder: Seq<u8>) -> bool {
    exists|i: int|
        0 <= i && i + builder.len() <= b.len() && #[trigger] b.subrange(i, i + builder.len())
            == builder
}

proof fn lemma_part(v: Seq<u8>, builder: Seq<u8>)
    requires
        is_value(v),
    ensures
        part_approves(map_bytes(seq![("m"@, v)]), builder) == names(v, builder),
{
    lemma_keys();
    reveal(map_bytes);
    let es = seq![("m"@, v)];
    let whole = es.map_values(|e: (Seq<char>, Seq<u8>)| entry_bytes(e));
    let none = Seq::<u8>::empty();
    assert(joined(whole, 1) == none);
    assert(joined(whole, 0) == whole[0] + joined(whole, 1));
    assert(whole[0] == text_bytes("m"@) + v);
    assert(joined(whole, 0) =~= text_bytes("m"@) + v);
    law_heads_are_read_back(1, text_bytes("m"@) + v);
    law_texts_are_read_back("m"@, v);
    assert(v + none =~= v);
    lemma_value(v, none);
    assert(v.take(v.len() - none.len()) =~= v);
    reveal_with_fuel(approves, 2);
}

proof fn lemma_approver(e: (Seq<char>, Seq<u8>), builder: Seq<u8>, rest: Seq<u8>)
    requires
        is_writable(e.0),
        is_value(e.1),
    ensures
        approver_at(approver_bytes(e) + rest, builder) == Some(((e.0, names(e.1, builder)), rest)),
{
    lemma_keys();
    let b = map_bytes(seq![("m"@, e.1)]);
    let u = b + rest;
    lemma_pair(text_bytes(e.0), b, rest);
    law_texts_are_read_back(e.0, u);
    law_maps_are_skipped(seq![("m"@, e.1)]);
    lemma_value(b, rest);
    assert(u.take(u.len() - rest.len()) =~= b);
    lemma_part(e.1, builder);
    reveal_with_fuel(parts_approve, 2);
}

/// The users among the first `n` who approve a builder, in lower case.
pub open spec fn approving(es: Seq<(Seq<char>, Seq<u8>)>, builder: Seq<u8>, n: int) -> Map<Seq<char>, ()>
    decreases n,
{
    if n <= 0 {
        Map::empty()
    } else if names(es[n - 1].1, builder) {
        approving(es, builder, n - 1).insert(crate::text::lowercase(es[n - 1].0), ())
    } else {
        approving(es, builder, n - 1)
    }
}

proof fn lemma_approving(es: Seq<(Seq<char>, Seq<u8>)>, builder: Seq<u8>, n: int)
    requires
        0 <= n <= es.len(),
    ensures
        folded(
            Map::<Seq<char>, ()>::empty(),
            es,
            |a: Map<Seq<char>, ()>, e: (Seq<char>, Seq<u8>)|
                if names(e.1, builder) {
                    a.insert(crate::text::lowercase(e.0), ())
                } else {
                    a
                },
            n,
        ) == approving(es, builder, n),
    decreases n,
{
    if n > 0 {
        lemma_approving(es, builder, n - 1);
    }
}

/// Who approves a builder is read back: the users under whose approvals the builder's address stands,
/// and nobody else.
pub proof fn law_approvers_are_found(
    root: Seq<(Seq<char>, Seq<u8>)>,
    k0: int,
    exchange: Seq<(Seq<char>, Seq<u8>)>,
    k1: int,
    locus: Seq<(Seq<char>, Seq<u8>)>,
    k2: int,
    ftr: Seq<(Seq<char>, Seq<u8>)>,
    k3: int,
    es: Seq<(Seq<char>, Seq<u8>)>,
    builder: Seq<char>,
)
    requires
        leads(root, k0, "exchange"@, map_bytes(exchange)),
        leads(exchange, k1, "locus"@, map_bytes(locus)),
        leads(locus, k2, "ftr"@, map_bytes(ftr)),
        leads(
            ftr,
            k3,
            "user_states"@,
            array_bytes(es.map_values(|e: (Seq<char>, Seq<u8>)| approver_bytes(e))),
        ),
        es.len() < 0x1_0000_0000,
        forall|j: int|
            0 <= j < es.len() ==> is_writable((#[trigger] es[j]).0) && is_value(es[j].1),
    ensures
        approvers_of(map_bytes(root), builder) == Some(
            approving(
                es,
                vstd::utf8::encode_utf8(crate::text::lowercase(builder)),
                es.len() as int,
            ),
        ),
{
    let needle = vstd::utf8::encode_utf8(crate::text::lowercase(builder));
    let value = array_bytes(es.map_values(|e: (Seq<char>, Seq<u8>)| approver_bytes(e)));
    law_keys_are_found_inside(root, k0, exchange, k1, locus, k2, ftr, k3, "user_states"@, value);
    let p = place_at(map_bytes(root), "user_states"@)->0->0;
    let tail = choose|tail: Seq<u8>| p == #[trigger] (value + tail);
    let g = |a: Map<Seq<char>, ()>, e: (Seq<char>, Seq<u8>)|
        if names(e.1, needle) {
            a.insert(crate::text::lowercase(e.0), ())
        } else {
            a
        };
    let h: spec_fn(Map<Seq<char>, ()>, Seq<u8>) -> Option<(Map<Seq<char>, ()>, Seq<u8>)> = |a, s|
        one_approver(needle, a, s);
    assert forall|b: Map<Seq<char>, ()>, i: int|
        #![trigger g(b, es[i])]
        0 <= i < es.len() implies item_reads(h, b, approver_bytes(es[i]), g(b, es[i])) by {
        reveal(item_reads);
        assert forall|r: Seq<u8>| #[trigger]
            h(b, approver_bytes(es[i]) + r) == Some((g(b, es[i]), r)) by {
            lemma_approver(es[i], needle, r);
        }
    }
    lemma_list_reads(
        Map::<Seq<char>, ()>::empty(),
        es,
        |e: (Seq<char>, Seq<u8>)| approver_bytes(e),
        g,
        h,
        tail,
    );
    lemma_approving(es, needle, es.len() as int);
}

/// Who approves a builder are those who name it, and nobody else.
pub proof fn law_who_approves(es: Seq<(Seq<char>, Seq<u8>)>, builder: Seq<u8>, n: int, u: Seq<char>)
    requires
        0 <= n <= es.len(),
    ensures
        approving(es, builder, n).contains_key(u) <==> exists|i: int|
            0 <= i < n && crate::text::lowercase((#[trigger] es[i]).0) == u && names(es[i].1, builder),
    decreases n,
{
    if n > 0 {
        law_who_approves(es, builder, n - 1, u);
        if crate::text::lowercase(es[n - 1].0) == u && names(es[n - 1].1, builder) {
            assert(crate::text::lowercase(es[n - 1].0) == u);
        }
    }
}

} // verus!

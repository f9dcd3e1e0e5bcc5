//! The spot balances, loans, vaults and users of a snapshot are read back.
use crate::clearing_house::rmp_streaming as walk;
use crate::clearing_house::rmp_streaming::locus;
use crate::clearing_house::snapshot_laws::{
    field_reads,
    item_reads,
    lemma_map_reads,
    lemma_pair_reads,
    lemma_short,
    pair_bytes,
};
use crate::clearing_house::snapshot_list_laws::{folded, lemma_int_field, lemma_list_reads};
use crate::clearing_house::BorrowLendState;
use crate::msgpack::Fraction;
use crate::msgpack_laws::{
    array_bytes,
    array_head,
    big_endian,
    int_bytes,
    is_writable,
    joined,
    law_floats_are_read_back,
    law_heads_are_read_back,
    law_ints_are_read_back,
    law_texts_are_read_back,
    lemma_grouped,
    lemma_scalar_values,
    lemma_value,
    map_bytes,
    text_bytes,
};
use vstd::prelude::*;

verus! {

proof fn lemma_keys()
    ensures
        is_writable("b"@) && is_writable("t"@) && is_writable("s"@) && is_writable("u"@)
            && is_writable("o"@) && is_writable("f"@) && is_writable("user_states"@),
        "b"@ != "s"@,
{
    reveal_strlit("b");
    reveal_strlit("t");
    reveal_strlit("s");
    reveal_strlit("u");
    reveal_strlit("o");
    reveal_strlit("f");
    reveal_strlit("user_states");
    lemma_short("b"@);
    lemma_short("t"@);
    lemma_short("s"@);
    lemma_short("u"@);
    lemma_short("o"@);
    lemma_short("f"@);
    lemma_short("user_states"@);
    assert("b"@[0] == 'b' && "s"@[0] == 's');
}

// ── Spot balances ────────────────────────────────────────────────────────

/// A balance as a snapshot writes it: the token, and the total.
pub open spec fn balance_bytes(e: (u32, i64)) -> Seq<u8> {
    pair_bytes(int_bytes(e.0 as i64), map_bytes(seq![("t"@, int_bytes(e.1))]))
}

/// The balances with one more: one that is not zero, in a token that is wanted, is kept.
pub open spec fn balance_kept(wanted: Set<u32>, a: Map<u32, i64>, e: (u32, i64)) -> Map<u32, i64> {
    if wanted.contains(e.0) && e.1 != 0 {
        a.insert(e.0, e.1)
    } else {
        a
    }
}

proof fn lemma_total(wanted: Set<u32>, before: Map<u32, i64>, e: (u32, i64), rest: Seq<u8>)
    requires
        wanted.contains(e.0),
    ensures
        walk::in_map(
            map_bytes(seq![("t"@, int_bytes(e.1))]) + rest,
            before,
            |k, a, s| walk::balance_field(e.0, k, a, s),
        ) == Some((balance_kept(wanted, before, e), rest)),
{
    lemma_keys();
    let token = e.0;
    let f: spec_fn(Seq<char>, Map<u32, i64>, Seq<u8>) -> Option<(Map<u32, i64>, Seq<u8>)> =
        |k, a, s| walk::balance_field(token, k, a, s);
    let after = balance_kept(wanted, before, e);
    lemma_int_field(f, "t"@, before, e.1, after);
    lemma_map_reads(seq![("t"@, int_bytes(e.1))], seq![before, after], f, rest);
}

proof fn lemma_balance(wanted: Set<u32>, before: Map<u32, i64>, e: (u32, i64))
    ensures
        item_reads(
            |a: Map<u32, i64>, s: Seq<u8>|
                walk::in_pair(s, a, |a, s| walk::one_balance(wanted, a, s)),
            before,
            balance_bytes(e),
            balance_kept(wanted, before, e),
        ),
{
    lemma_keys();
    let p: spec_fn(Map<u32, i64>, Seq<u8>) -> Option<(Map<u32, i64>, Seq<u8>)> = |a, s|
        walk::one_balance(wanted, a, s);
    let h: spec_fn(Map<u32, i64>, Seq<u8>) -> Option<(Map<u32, i64>, Seq<u8>)> = |a, s|
        walk::in_pair(s, a, |a, s| walk::one_balance(wanted, a, s));
    let x = int_bytes(e.0 as i64);
    let y = map_bytes(seq![("t"@, int_bytes(e.1))]);
    let after = balance_kept(wanted, before, e);
    lemma_scalar_values(e.1, Seq::empty());
    crate::msgpack_laws::law_maps_are_skipped(seq![("t"@, int_bytes(e.1))]);
    assert(item_reads(p, before, x + y, after)) by {
        reveal(item_reads);
        assert forall|r: Seq<u8>| #[trigger] p(before, x + y + r) == Some((after, r)) by {
            lemma_grouped(x, y, r, r);
            law_ints_are_read_back(e.0 as i64, y + r);
            assert((e.0 as i64) as u32 == e.0);
            if wanted.contains(e.0) {
                lemma_total(wanted, before, e, r);
            } else {
                lemma_value(y, r);
            }
        }
    }
    reveal(item_reads);
    assert forall|r: Seq<u8>| #[trigger] h(before, balance_bytes(e) + r) == Some((after, r)) by {
        lemma_pair_reads(x, y, before, after, p, r);
    }
}

/// All balances of a user in tokens that are wanted.
pub open spec fn balances_of(wanted: Set<u32>, xs: Seq<(u32, i64)>) -> Map<u32, i64> {
    folded(
        Map::<u32, i64>::empty(),
        xs,
        |a: Map<u32, i64>, x: (u32, i64)| balance_kept(wanted, a, x),
        xs.len() as int,
    )
}

/// The balances of a user as a snapshot writes them.
pub open spec fn balances_bytes(xs: Seq<(u32, i64)>) -> Seq<u8> {
    array_bytes(xs.map_values(|x: (u32, i64)| balance_bytes(x)))
}

/// A user on the spot exchange as a snapshot writes them.
pub open spec fn spot_user_bytes(e: (Seq<char>, Seq<(u32, i64)>)) -> Seq<u8> {
    pair_bytes(text_bytes(e.0), map_bytes(seq![("b"@, balances_bytes(e.1))]))
}

proof fn lemma_balances(wanted: Set<u32>, xs: Seq<(u32, i64)>, rest: Seq<u8>)
    requires
        xs.len() < 0x1_0000_0000,
    ensures
        walk::in_map(
            map_bytes(seq![("b"@, balances_bytes(xs))]) + rest,
            Map::<u32, i64>::empty(),
            |k, a, s| walk::spot_user_field(wanted, k, a, s),
        ) == Some((balances_of(wanted, xs), rest)),
{
    lemma_keys();
    let none = Map::<u32, i64>::empty();
    let f: spec_fn(Seq<char>, Map<u32, i64>, Seq<u8>) -> Option<(Map<u32, i64>, Seq<u8>)> =
        |k, a, s| walk::spot_user_field(wanted, k, a, s);
    let g = |a: Map<u32, i64>, x: (u32, i64)| balance_kept(wanted, a, x);
    let h: spec_fn(Map<u32, i64>, Seq<u8>) -> Option<(Map<u32, i64>, Seq<u8>)> = |a, s|
        walk::in_pair(s, a, |a, s| walk::one_balance(wanted, a, s));
    let list = balances_bytes(xs);
    let all = balances_of(wanted, xs);
    assert forall|b: Map<u32, i64>, i: int|
        #![trigger g(b, xs[i])]
        0 <= i < xs.len() implies item_reads(h, b, balance_bytes(xs[i]), g(b, xs[i])) by {
        lemma_balance(wanted, b, xs[i]);
    }
    assert(field_reads(f, "b"@, none, list, all)) by {
        reveal(field_reads);
        assert forall|r: Seq<u8>| #[trigger] f("b"@, none, list + r) == Some((all, r)) by {
            lemma_list_reads(none, xs, |x: (u32, i64)| balance_bytes(x), g, h, r);
        }
    }
    lemma_map_reads(seq![("b"@, list)], seq![none, all], f, rest);
}

/// The spot exchange as a snapshot writes it.
pub open spec fn spot_bytes(es: Seq<(Seq<char>, Seq<(u32, i64)>)>) -> Seq<u8> {
    map_bytes(
        seq![
            (
                "user_states"@,
                array_bytes(es.map_values(|e: (Seq<char>, Seq<(u32, i64)>)| spot_user_bytes(e))),
            ),
        ],
    )
}

/// The users on the spot exchange who have something in a token that is wanted.
pub open spec fn spot_of(wanted: Set<u32>, es: Seq<(Seq<char>, Seq<(u32, i64)>)>) -> Map<
    Seq<char>,
    Map<u32, i64>,
> {
    folded(
        Map::<Seq<char>, Map<u32, i64>>::empty(),
        es,
        |a: Map<Seq<char>, Map<u32, i64>>, e: (Seq<char>, Seq<(u32, i64)>)|
            if balances_of(wanted, e.1).dom() == Set::<u32>::empty() {
                a
            } else {
                a.insert(e.0, balances_of(wanted, e.1))
            },
        es.len() as int,
    )
}

/// The spot balances in the tokens that are wanted are read back; others, and empty ones, are not
/// kept.
pub proof fn law_spot_balances_are_read_back(
    wanted: Set<u32>,
    es: Seq<(Seq<char>, Seq<(u32, i64)>)>,
    rest: Seq<u8>,
)
    requires
        es.len() < 0x1_0000_0000,
        forall|i: int|
            0 <= i < es.len() ==> is_writable((#[trigger] es[i]).0) && es[i].1.len() < 0x1_0000_0000,
    ensures
        walk::spot_at(wanted, spot_bytes(es) + rest) == Some((spot_of(wanted, es), rest)),
{
    lemma_keys();
    let none = Map::<Seq<char>, Map<u32, i64>>::empty();
    let g = |a: Map<Seq<char>, Map<u32, i64>>, e: (Seq<char>, Seq<(u32, i64)>)|
        if balances_of(wanted, e.1).dom() == Set::<u32>::empty() {
            a
        } else {
            a.insert(e.0, balances_of(wanted, e.1))
        };
    let f: spec_fn(Seq<char>, Map<Seq<char>, Map<u32, i64>>, Seq<u8>) -> Option<
        (Map<Seq<char>, Map<u32, i64>>, Seq<u8>),
    > = |k, a, s| walk::spot_field(wanted, k, a, s);
    let p: spec_fn(Map<Seq<char>, Map<u32, i64>>, Seq<u8>) -> Option<
        (Map<Seq<char>, Map<u32, i64>>, Seq<u8>),
    > = |a, s| walk::one_spot_user(wanted, a, s);
    let h: spec_fn(Map<Seq<char>, Map<u32, i64>>, Seq<u8>) -> Option<
        (Map<Seq<char>, Map<u32, i64>>, Seq<u8>),
    > = |a, s| walk::in_pair(s, a, |a, s| walk::one_spot_user(wanted, a, s));
    assert forall|b: Map<Seq<char>, Map<u32, i64>>, i: int|
        #![trigger g(b, es[i])]
        0 <= i < es.len() implies item_reads(h, b, spot_user_bytes(es[i]), g(b, es[i])) by {
        let e = es[i];
        let x = text_bytes(e.0);
        let y = map_bytes(seq![("b"@, balances_bytes(e.1))]);
        assert(item_reads(p, b, x + y, g(b, e))) by {
            reveal(item_reads);
            assert forall|r: Seq<u8>| #[trigger] p(b, x + y + r) == Some((g(b, e), r)) by {
                lemma_grouped(x, y, r, r);
                law_texts_are_read_back(e.0, y + r);
                lemma_balances(wanted, e.1, r);
            }
        }
        reveal(item_reads);
        assert forall|r: Seq<u8>| #[trigger] h(b, spot_user_bytes(e) + r) == Some((g(b, e), r)) by {
            lemma_pair_reads(x, y, b, g(b, e), p, r);
        }
    }
    let list = array_bytes(es.map_values(|e: (Seq<char>, Seq<(u32, i64)>)| spot_user_bytes(e)));
    let all = spot_of(wanted, es);
    assert(field_reads(f, "user_states"@, none, list, all)) by {
        reveal(field_reads);
        assert forall|r: Seq<u8>| #[trigger] f("user_states"@, none, list + r) == Some((all, r)) by {
            lemma_list_reads(
                none,
                es,
                |e: (Seq<char>, Seq<(u32, i64)>)| spot_user_bytes(e),
                g,
                h,
                r,
            );
        }
    }
    lemma_map_reads(seq![("user_states"@, list)], seq![none, all], f, rest);
}

// ── Loans ────────────────────────────────────────────────────────────────

/// One side of a loan as a snapshot writes it: the amount and the shares.
pub open spec fn side_bytes(amount: i64, shares: i64) -> Seq<u8> {
    map_bytes(seq![("b"@, int_bytes(amount)), ("s"@, int_bytes(shares))])
}

/// A loan as a snapshot writes it: what is supplied, and what is borrowed.
pub open spec fn loan_bytes(l: BorrowLendState) -> Seq<u8> {
    array_bytes(
        seq![
            side_bytes(l.supplied, l.supply_shares),
            side_bytes(l.borrowed, l.borrow_shares),
        ],
    )
}

proof fn lemma_side(amount: i64, shares: i64, rest: Seq<u8>)
    ensures
        walk::in_map(
            side_bytes(amount, shares) + rest,
            (0i64, 0i64),
            |k, a, s| locus::side_field(k, a, s),
        ) == Some(((amount, shares), rest)),
{
    lemma_keys();
    let f: spec_fn(Seq<char>, (i64, i64), Seq<u8>) -> Option<((i64, i64), Seq<u8>)> = |k, a, s|
        locus::side_field(k, a, s);
    let (a, b, c) = ((0i64, 0i64), (amount, 0i64), (amount, shares));
    lemma_int_field(f, "b"@, a, amount, b);
    lemma_int_field(f, "s"@, b, shares, c);
    lemma_map_reads(
        seq![("b"@, int_bytes(amount)), ("s"@, int_bytes(shares))],
        seq![a, b, c],
        f,
        rest,
    );
}

/// A loan is read back: what is supplied is what was supplied, and what is borrowed what was borrowed,
/// each with its shares.
pub proof fn law_loans_are_read_back(l: BorrowLendState, rest: Seq<u8>)
    ensures
        locus::loan_at(loan_bytes(l) + rest) == Some((l, rest)),
{
    reveal(array_bytes);
    let first = side_bytes(l.supplied, l.supply_shares);
    let second = side_bytes(l.borrowed, l.borrow_shares);
    let es = seq![first, second];
    assert(joined(es, 2) == Seq::<u8>::empty());
    assert(joined(es, 1) == second + joined(es, 2));
    assert(joined(es, 0) == first + joined(es, 1));
    assert(joined(es, 0) =~= first + second);
    lemma_grouped(array_head(2), first + second, rest, rest);
    lemma_grouped(first, second, rest, rest);
    law_heads_are_read_back(2, first + second + rest);
    lemma_side(l.supplied, l.supply_shares, second + rest);
    lemma_side(l.borrowed, l.borrow_shares, rest);
}

/// A loan in a token as a snapshot writes it.
pub open spec fn token_loan_bytes(e: (u32, BorrowLendState)) -> Seq<u8> {
    pair_bytes(int_bytes(e.0 as i64), loan_bytes(e.1))
}

/// The loans with one more of a user: one of nothing is not kept.
pub open spec fn loan_kept(
    user: Seq<char>,
    a: Map<Seq<char>, Map<u32, BorrowLendState>>,
    e: (u32, BorrowLendState),
) -> Map<Seq<char>, Map<u32, BorrowLendState>> {
    if e.1.borrowed == 0 && e.1.supplied == 0 {
        a
    } else if a.contains_key(user) {
        a.insert(user, a[user].insert(e.0, e.1))
    } else {
        a.insert(user, Map::empty().insert(e.0, e.1))
    }
}

/// A user with loans as a snapshot writes them.
pub open spec fn borrower_bytes(e: (Seq<char>, Seq<(u32, BorrowLendState)>)) -> Seq<u8> {
    pair_bytes(
        text_bytes(e.0),
        map_bytes(
            seq![
                (
                    "t"@,
                    array_bytes(e.1.map_values(|x: (u32, BorrowLendState)| token_loan_bytes(x))),
                ),
            ],
        ),
    )
}

/// The loans with those of one more user, who is kept under their address in lower case.
pub open spec fn borrower_kept(
    a: Map<Seq<char>, Map<u32, BorrowLendState>>,
    e: (Seq<char>, Seq<(u32, BorrowLendState)>),
) -> Map<Seq<char>, Map<u32, BorrowLendState>> {
    folded(
        a,
        e.1,
        |a: Map<Seq<char>, Map<u32, BorrowLendState>>, x: (u32, BorrowLendState)|
            loan_kept(crate::text::lowercase(e.0), a, x),
        e.1.len() as int,
    )
}

proof fn lemma_token_loan(
    user: Seq<char>,
    before: Map<Seq<char>, Map<u32, BorrowLendState>>,
    e: (u32, BorrowLendState),
)
    ensures
        item_reads(
            |a: Map<Seq<char>, Map<u32, BorrowLendState>>, s: Seq<u8>|
                walk::in_pair(s, a, |a, s| locus::one_loan(user, a, s)),
            before,
            token_loan_bytes(e),
            loan_kept(user, before, e),
        ),
{
    let p: spec_fn(Map<Seq<char>, Map<u32, BorrowLendState>>, Seq<u8>) -> Option<
        (Map<Seq<char>, Map<u32, BorrowLendState>>, Seq<u8>),
    > = |a, s| locus::one_loan(user, a, s);
    let h: spec_fn(Map<Seq<char>, Map<u32, BorrowLendState>>, Seq<u8>) -> Option<
        (Map<Seq<char>, Map<u32, BorrowLendState>>, Seq<u8>),
    > = |a, s| walk::in_pair(s, a, |a, s| locus::one_loan(user, a, s));
    let x = int_bytes(e.0 as i64);
    let y = loan_bytes(e.1);
    let after = loan_kept(user, before, e);
    assert(item_reads(p, before, x + y, after)) by {
        reveal(item_reads);
        assert forall|r: Seq<u8>| #[trigger] p(before, x + y + r) == Some((after, r)) by {
            lemma_grouped(x, y, r, r);
            law_ints_are_read_back(e.0 as i64, y + r);
            law_loans_are_read_back(e.1, r);
        }
    }
    reveal(item_reads);
    assert forall|r: Seq<u8>| #[trigger] h(before, token_loan_bytes(e) + r) == Some((after, r)) by {
        lemma_pair_reads(x, y, before, after, p, r);
    }
}

proof fn lemma_borrower(
    user: Seq<char>,
    before: Map<Seq<char>, Map<u32, BorrowLendState>>,
    xs: Seq<(u32, BorrowLendState)>,
    rest: Seq<u8>,
)
    requires
        xs.len() < 0x1_0000_0000,
    ensures
        walk::in_map(
            map_bytes(
                seq![
                    (
                        "t"@,
                        array_bytes(xs.map_values(|x: (u32, BorrowLendState)| token_loan_bytes(x))),
                    ),
                ],
            ) + rest,
            before,
            |k, a, s| locus::loans_field(user, k, a, s),
        ) == Some(
            (
                folded(
                    before,
                    xs,
                    |a: Map<Seq<char>, Map<u32, BorrowLendState>>, x: (u32, BorrowLendState)|
                        loan_kept(user, a, x),
                    xs.len() as int,
                ),
                rest,
            ),
        ),
{
    lemma_keys();
    let g = |a: Map<Seq<char>, Map<u32, BorrowLendState>>, x: (u32, BorrowLendState)|
        loan_kept(user, a, x);
    let f: spec_fn(Seq<char>, Map<Seq<char>, Map<u32, BorrowLendState>>, Seq<u8>) -> Option<
        (Map<Seq<char>, Map<u32, BorrowLendState>>, Seq<u8>),
    > = |k, a, s| locus::loans_field(user, k, a, s);
    let h: spec_fn(Map<Seq<char>, Map<u32, BorrowLendState>>, Seq<u8>) -> Option<
        (Map<Seq<char>, Map<u32, BorrowLendState>>, Seq<u8>),
    > = |a, s| walk::in_pair(s, a, |a, s| locus::one_loan(user, a, s));
    let list = array_bytes(xs.map_values(|x: (u32, BorrowLendState)| token_loan_bytes(x)));
    let after = folded(before, xs, g, xs.len() as int);
    assert forall|b: Map<Seq<char>, Map<u32, BorrowLendState>>, i: int|
        #![trigger g(b, xs[i])]
        0 <= i < xs.len() implies item_reads(h, b, token_loan_bytes(xs[i]), g(b, xs[i])) by {
        lemma_token_loan(user, b, xs[i]);
    }
    assert(field_reads(f, "t"@, before, list, after)) by {
        reveal(field_reads);
        assert forall|r: Seq<u8>| #[trigger] f("t"@, before, list + r) == Some((after, r)) by {
            lemma_list_reads(
                before,
                xs,
                |x: (u32, BorrowLendState)| token_loan_bytes(x),
                g,
                h,
                r,
            );
        }
    }
    lemma_map_reads(seq![("t"@, list)], seq![before, after], f, rest);
}

/// The lending pool is read back: of every user, under their address in lower case, the loans in which
/// something is supplied or borrowed.
pub proof fn law_the_lending_pool_is_read_back(
    es: Seq<(Seq<char>, Seq<(u32, BorrowLendState)>)>,
    rest: Seq<u8>,
)
    requires
        es.len() < 0x1_0000_0000,
        forall|i: int|
            0 <= i < es.len() ==> is_writable((#[trigger] es[i]).0) && es[i].1.len() < 0x1_0000_0000,
    ensures
        locus::pool_at(
            map_bytes(
                seq![
                    (
                        "u"@,
                        array_bytes(
                            es.map_values(
                                |e: (Seq<char>, Seq<(u32, BorrowLendState)>)| borrower_bytes(e),
                            ),
                        ),
                    ),
                ],
            ) + rest,
        ) == Some(
            (
                folded(
                    Map::<Seq<char>, Map<u32, BorrowLendState>>::empty(),
                    es,
                    |
                        a: Map<Seq<char>, Map<u32, BorrowLendState>>,
                        e: (Seq<char>, Seq<(u32, BorrowLendState)>),
                    | borrower_kept(a, e),
                    es.len() as int,
                ),
                rest,
            ),
        ),
{
    lemma_keys();
    let none = Map::<Seq<char>, Map<u32, BorrowLendState>>::empty();
    let g = |
        a: Map<Seq<char>, Map<u32, BorrowLendState>>,
        e: (Seq<char>, Seq<(u32, BorrowLendState)>),
    | borrower_kept(a, e);
    let f: spec_fn(Seq<char>, Map<Seq<char>, Map<u32, BorrowLendState>>, Seq<u8>) -> Option<
        (Map<Seq<char>, Map<u32, BorrowLendState>>, Seq<u8>),
    > = |k, a, s| locus::pool_field(k, a, s);
    let p: spec_fn(Map<Seq<char>, Map<u32, BorrowLendState>>, Seq<u8>) -> Option<
        (Map<Seq<char>, Map<u32, BorrowLendState>>, Seq<u8>),
    > = |a, s| locus::one_borrower(a, s);
    let h: spec_fn(Map<Seq<char>, Map<u32, BorrowLendState>>, Seq<u8>) -> Option<
        (Map<Seq<char>, Map<u32, BorrowLendState>>, Seq<u8>),
    > = |a, s| walk::in_pair(s, a, |a, s| locus::one_borrower(a, s));
    let list = array_bytes(
        es.map_values(|e: (Seq<char>, Seq<(u32, BorrowLendState)>)| borrower_bytes(e)),
    );
    let after = folded(none, es, g, es.len() as int);
    assert forall|b: Map<Seq<char>, Map<u32, BorrowLendState>>, i: int|
        #![trigger g(b, es[i])]
        0 <= i < es.len() implies item_reads(h, b, borrower_bytes(es[i]), g(b, es[i])) by {
        let e = es[i];
        let x = text_bytes(e.0);
        let y = map_bytes(
            seq![
                (
                    "t"@,
                    array_bytes(e.1.map_values(|x: (u32, BorrowLendState)| token_loan_bytes(x))),
                ),
            ],
        );
        assert(item_reads(p, b, x + y, g(b, e))) by {
            reveal(item_reads);
            assert forall|r: Seq<u8>| #[trigger] p(b, x + y + r) == Some((g(b, e), r)) by {
                lemma_grouped(x, y, r, r);
                law_texts_are_read_back(e.0, y + r);
                lemma_borrower(crate::text::lowercase(e.0), b, e.1, r);
            }
        }
        reveal(item_reads);
        assert forall|r: Seq<u8>| #[trigger] h(b, borrower_bytes(e) + r) == Some((g(b, e), r)) by {
            lemma_pair_reads(x, y, b, g(b, e), p, r);
        }
    }
    assert(field_reads(f, "u"@, none, list, after)) by {
        reveal(field_reads);
        assert forall|r: Seq<u8>| #[trigger] f("u"@, none, list + r) == Some((after, r)) by {
            lemma_list_reads(
                none,
                es,
                |e: (Seq<char>, Seq<(u32, BorrowLendState)>)| borrower_bytes(e),
                g,
                h,
                r,
            );
        }
    }
    lemma_map_reads(seq![("u"@, list)], seq![none, after], f, rest);
}

// ── Vaults ───────────────────────────────────────────────────────────────

/// The share of an owner as a snapshot writes it, by the bits of the fraction.
pub open spec fn owner_bytes(e: (Seq<char>, u64)) -> Seq<u8> {
    pair_bytes(
        text_bytes(e.0),
        map_bytes(
            seq![
                (
                    "o"@,
                    map_bytes(seq![("f"@, seq![0xcbu8] + big_endian(e.1 as nat, 8))]),
                ),
            ],
        ),
    )
}

/// The owners with one more, under their address in lower case; a fraction that is not above zero is
/// not kept.
pub open spec fn owner_kept(a: Map<Seq<char>, Fraction>, e: (Seq<char>, u64)) -> Map<
    Seq<char>,
    Fraction,
> {
    if Fraction::Double(e.1).positive() {
        a.insert(crate::text::lowercase(e.0), Fraction::Double(e.1))
    } else {
        a
    }
}

/// The owners of a vault.
pub open spec fn owners_of(xs: Seq<(Seq<char>, u64)>) -> Map<Seq<char>, Fraction> {
    folded(
        Map::<Seq<char>, Fraction>::empty(),
        xs,
        |a: Map<Seq<char>, Fraction>, x: (Seq<char>, u64)| owner_kept(a, x),
        xs.len() as int,
    )
}

proof fn lemma_share(bits: u64, rest: Seq<u8>)
    ensures
        walk::in_map(
            map_bytes(
                seq![
                    ("o"@, map_bytes(seq![("f"@, seq![0xcbu8] + big_endian(bits as nat, 8))])),
                ],
            ) + rest,
            Fraction::Whole(0),
            |k, a, s| locus::owner_field(k, a, s),
        ) == Some((Fraction::Double(bits), rest)),
{
    lemma_keys();
    let none = Fraction::Whole(0);
    let share = Fraction::Double(bits);
    let f: spec_fn(Seq<char>, Fraction, Seq<u8>) -> Option<(Fraction, Seq<u8>)> = |k, a, s|
        locus::owner_field(k, a, s);
    let g: spec_fn(Seq<char>, Fraction, Seq<u8>) -> Option<(Fraction, Seq<u8>)> = |k, a, s|
        locus::share_field(k, a, s);
    let number = seq![0xcbu8] + big_endian(bits as nat, 8);
    let inner = map_bytes(seq![("f"@, number)]);
    assert(field_reads(g, "f"@, none, number, share)) by {
        reveal(field_reads);
        assert forall|r: Seq<u8>| #[trigger] g("f"@, none, number + r) == Some((share, r)) by {
            law_floats_are_read_back(bits, 0, 0, r);
        }
    }
    assert(field_reads(f, "o"@, none, inner, share)) by {
        reveal(field_reads);
        assert forall|r: Seq<u8>| #[trigger] f("o"@, none, inner + r) == Some((share, r)) by {
            lemma_map_reads(seq![("f"@, number)], seq![none, share], g, r);
        }
    }
    lemma_map_reads(seq![("o"@, inner)], seq![none, share], f, rest);
}

/// A vault as a snapshot writes it.
pub open spec fn vault_bytes(e: (Seq<char>, Seq<(Seq<char>, u64)>)) -> Seq<u8> {
    pair_bytes(
        text_bytes(e.0),
        map_bytes(
            seq![
                ("user_states"@, array_bytes(e.1.map_values(|x: (Seq<char>, u64)| owner_bytes(x)))),
            ],
        ),
    )
}

proof fn lemma_owners(xs: Seq<(Seq<char>, u64)>, rest: Seq<u8>)
    requires
        xs.len() < 0x1_0000_0000,
        forall|i: int| 0 <= i < xs.len() ==> is_writable((#[trigger] xs[i]).0),
    ensures
        walk::in_map(
            map_bytes(
                seq![
                    (
                        "user_states"@,
                        array_bytes(xs.map_values(|x: (Seq<char>, u64)| owner_bytes(x))),
                    ),
                ],
            ) + rest,
            Map::<Seq<char>, Fraction>::empty(),
            |k, a, s| locus::vault_field(k, a, s),
        ) == Some((owners_of(xs), rest)),
{
    lemma_keys();
    let none = Map::<Seq<char>, Fraction>::empty();
    let g = |a: Map<Seq<char>, Fraction>, x: (Seq<char>, u64)| owner_kept(a, x);
    let f: spec_fn(Seq<char>, Map<Seq<char>, Fraction>, Seq<u8>) -> Option<
        (Map<Seq<char>, Fraction>, Seq<u8>),
    > = |k, a, s| locus::vault_field(k, a, s);
    let p: spec_fn(Map<Seq<char>, Fraction>, Seq<u8>) -> Option<(Map<Seq<char>, Fraction>, Seq<u8>)> =
        |a, s| locus::one_owner(a, s);
    let h: spec_fn(Map<Seq<char>, Fraction>, Seq<u8>) -> Option<(Map<Seq<char>, Fraction>, Seq<u8>)> =
        |a, s| walk::in_pair(s, a, |a, s| locus::one_owner(a, s));
    let list = array_bytes(xs.map_values(|x: (Seq<char>, u64)| owner_bytes(x)));
    let all = owners_of(xs);
    assert forall|b: Map<Seq<char>, Fraction>, i: int|
        #![trigger g(b, xs[i])]
        0 <= i < xs.len() implies item_reads(h, b, owner_bytes(xs[i]), g(b, xs[i])) by {
        let e = xs[i];
        let x = text_bytes(e.0);
        let y = map_bytes(
            seq![("o"@, map_bytes(seq![("f"@, seq![0xcbu8] + big_endian(e.1 as nat, 8))]))],
        );
        assert(item_reads(p, b, x + y, g(b, e))) by {
            reveal(item_reads);
            assert forall|r: Seq<u8>| #[trigger] p(b, x + y + r) == Some((g(b, e), r)) by {
                lemma_grouped(x, y, r, r);
                law_texts_are_read_back(e.0, y + r);
                lemma_share(e.1, r);
            }
        }
        reveal(item_reads);
        assert forall|r: Seq<u8>| #[trigger] h(b, owner_bytes(e) + r) == Some((g(b, e), r)) by {
            lemma_pair_reads(x, y, b, g(b, e), p, r);
        }
    }
    assert(field_reads(f, "user_states"@, none, list, all)) by {
        reveal(field_reads);
        assert forall|r: Seq<u8>| #[trigger] f("user_states"@, none, list + r) == Some((all, r)) by {
            lemma_list_reads(none, xs, |x: (Seq<char>, u64)| owner_bytes(x), g, h, r);
        }
    }
    lemma_map_reads(seq![("user_states"@, list)], seq![none, all], f, rest);
}

/// The vaults are read back: each under its address in lower case with the fraction of every owner;
/// one without owners is not kept.
pub proof fn law_vaults_are_read_back(es: Seq<(Seq<char>, Seq<(Seq<char>, u64)>)>, rest: Seq<u8>)
    requires
        es.len() < 0x1_0000_0000,
        forall|i: int|
            0 <= i < es.len() ==> is_writable((#[trigger] es[i]).0) && es[i].1.len() < 0x1_0000_0000,
        forall|i: int, j: int|
            0 <= i < es.len() && 0 <= j < es[i].1.len() ==> is_writable((#[trigger] es[i].1[j]).0),
    ensures
        locus::vaults_at(
            array_bytes(es.map_values(|e: (Seq<char>, Seq<(Seq<char>, u64)>)| vault_bytes(e))) + rest,
        ) == Some(
            (
                folded(
                    Map::<Seq<char>, Map<Seq<char>, Fraction>>::empty(),
                    es,
                    |
                        a: Map<Seq<char>, Map<Seq<char>, Fraction>>,
                        e: (Seq<char>, Seq<(Seq<char>, u64)>),
                    |
                        if owners_of(e.1) == Map::<Seq<char>, Fraction>::empty() {
                            a
                        } else {
                            a.insert(crate::text::lowercase(e.0), owners_of(e.1))
                        },
                    es.len() as int,
                ),
                rest,
            ),
        ),
{
    lemma_keys();
    let none = Map::<Seq<char>, Map<Seq<char>, Fraction>>::empty();
    let g = |a: Map<Seq<char>, Map<Seq<char>, Fraction>>, e: (Seq<char>, Seq<(Seq<char>, u64)>)|
        if owners_of(e.1) == Map::<Seq<char>, Fraction>::empty() {
            a
        } else {
            a.insert(crate::text::lowercase(e.0), owners_of(e.1))
        };
    let p: spec_fn(Map<Seq<char>, Map<Seq<char>, Fraction>>, Seq<u8>) -> Option<
        (Map<Seq<char>, Map<Seq<char>, Fraction>>, Seq<u8>),
    > = |a, s| locus::one_vault(a, s);
    let h: spec_fn(Map<Seq<char>, Map<Seq<char>, Fraction>>, Seq<u8>) -> Option<
        (Map<Seq<char>, Map<Seq<char>, Fraction>>, Seq<u8>),
    > = |a, s| walk::in_pair(s, a, |a, s| locus::one_vault(a, s));
    assert forall|b: Map<Seq<char>, Map<Seq<char>, Fraction>>, i: int|
        #![trigger g(b, es[i])]
        0 <= i < es.len() implies item_reads(h, b, vault_bytes(es[i]), g(b, es[i])) by {
        let e = es[i];
        let x = text_bytes(e.0);
        let y = map_bytes(
            seq![
                ("user_states"@, array_bytes(e.1.map_values(|x: (Seq<char>, u64)| owner_bytes(x)))),
            ],
        );
        assert forall|j: int| 0 <= j < e.1.len() implies is_writable((#[trigger] e.1[j]).0) by {
            assert(is_writable(es[i].1[j].0));
        }
        assert(item_reads(p, b, x + y, g(b, e))) by {
            reveal(item_reads);
            assert forall|r: Seq<u8>| #[trigger] p(b, x + y + r) == Some((g(b, e), r)) by {
                lemma_grouped(x, y, r, r);
                law_texts_are_read_back(e.0, y + r);
                lemma_owners(e.1, r);
            }
        }
        reveal(item_reads);
        assert forall|r: Seq<u8>| #[trigger] h(b, vault_bytes(e) + r) == Some((g(b, e), r)) by {
            lemma_pair_reads(x, y, b, g(b, e), p, r);
        }
    }
    lemma_list_reads(
        none,
        es,
        |e: (Seq<char>, Seq<(Seq<char>, u64)>)| vault_bytes(e),
        g,
        h,
        rest,
    );
}

} // verus!

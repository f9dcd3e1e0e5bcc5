//! The parts of a snapshot around the dexes: loans, vaults, and the settings in the order books.
use crate::assetmap::AssetMap;
use crate::clearing_house::rmp_streaming as walk;
use crate::clearing_house::{BorrowLendState, Fraction, VaultState};
use crate::msgpack::{MsgpackError, Out, Reader};
use crate::strmap::StrMap;
use crate::text::{str_eq, to_lowercase};
use vstd::prelude::*;

verus! {

// ── Loans ────────────────────────────────────────────────────────────────

/// The fields of one side of a loan: its amount and its shares.
pub open spec fn side_field(k: Seq<char>, a: (i64, i64), s: Seq<u8>) -> Option<
    ((i64, i64), Seq<u8>),
> {
    if k == "b"@ {
        let (v, t) = walk::int_or_zero(s);
        Some(((v, a.1), t))
    } else if k == "s"@ {
        let (v, t) = walk::int_or_zero(s);
        Some(((a.0, v), t))
    } else {
        walk::skip_then(s, a)
    }
}

/// One side of a loan, where the array is long enough to hold it.
pub open spec fn side_at(present: bool, s: Seq<u8>) -> Option<((i64, i64), Seq<u8>)> {
    if present {
        walk::in_map(s, (0i64, 0i64), |k, a, s| side_field(k, a, s))
    } else {
        Some(((0i64, 0i64), s))
    }
}

/// What is supplied and borrowed of a token.
pub open spec fn loan_at(s: Seq<u8>) -> Option<(BorrowLendState, Seq<u8>)> {
    match crate::msgpack::array_length(s) {
        Out::Good(n, t) => match side_at(n >= 1, t) {
            Some((supply, u)) => match side_at(n >= 2, u) {
                Some((borrow, v)) => walk::skip_n_then(
                    v,
                    n - 2,
                    BorrowLendState {
                        borrowed: borrow.0,
                        borrow_shares: borrow.1,
                        supplied: supply.0,
                        supply_shares: supply.1,
                    },
                ),
                None => None,
            },
            None => None,
        },
        _ => None,
    }
}

/// The map of maps with one more entry.
pub open spec fn with_entry<V>(
    m: Map<Seq<char>, Map<u32, V>>,
    name: Seq<char>,
    k: u32,
    v: V,
) -> Map<Seq<char>, Map<u32, V>> {
    m.insert(
        name,
        (if m.contains_key(name) {
            m[name]
        } else {
            Map::empty()
        }).insert(k, v),
    )
}

/// One more loan of a user, kept where something is borrowed or supplied.
pub open spec fn one_loan(
    addr: Seq<char>,
    a: Map<Seq<char>, Map<u32, BorrowLendState>>,
    s: Seq<u8>,
) -> Option<(Map<Seq<char>, Map<u32, BorrowLendState>>, Seq<u8>)> {
    match walk::an_int(s) {
        Some((token, t)) => match loan_at(t) {
            Some((b, u)) => Some(
                (
                    if b.borrowed != 0 || b.supplied != 0 {
                        with_entry(a, addr, token as u32, b)
                    } else {
                        a
                    },
                    u,
                ),
            ),
            None => None,
        },
        None => None,
    }
}

/// The fields of a user with loans.
pub open spec fn loans_field(
    addr: Seq<char>,
    k: Seq<char>,
    a: Map<Seq<char>, Map<u32, BorrowLendState>>,
    s: Seq<u8>,
) -> Option<(Map<Seq<char>, Map<u32, BorrowLendState>>, Seq<u8>)> {
    if k == "t"@ {
        walk::in_array(s, a, |a, s| walk::in_pair(s, a, |a, s| one_loan(addr, a, s)))
    } else {
        walk::skip_then(s, a)
    }
}

/// One more user with loans.
pub open spec fn one_borrower(a: Map<Seq<char>, Map<u32, BorrowLendState>>, s: Seq<u8>) -> Option<
    (Map<Seq<char>, Map<u32, BorrowLendState>>, Seq<u8>),
> {
    match walk::a_text(s) {
        Some((addr, t)) => walk::in_map(
            t,
            a,
            |k, a, s| loans_field(crate::text::lowercase(addr), k, a, s),
        ),
        None => None,
    }
}

/// The fields of the lending pool.
pub open spec fn pool_field(
    k: Seq<char>,
    a: Map<Seq<char>, Map<u32, BorrowLendState>>,
    s: Seq<u8>,
) -> Option<(Map<Seq<char>, Map<u32, BorrowLendState>>, Seq<u8>)> {
    if k == "u"@ {
        walk::in_array(s, a, |a, s| walk::in_pair(s, a, |a, s| one_borrower(a, s)))
    } else {
        walk::skip_then(s, a)
    }
}

/// The lending pool: user → token → loan.
pub open spec fn pool_at(s: Seq<u8>) -> Option<
    (Map<Seq<char>, Map<u32, BorrowLendState>>, Seq<u8>),
> {
    walk::in_map(s, Map::empty(), |k, a, s| pool_field(k, a, s))
}

#[verifier::loop_isolation(false)]
fn parse_side(cur: &mut Reader, present: bool) -> (r: Result<(i64, i64), MsgpackError>)
    ensures
        walk::parsed(side_at(present, old(cur)@), r, final(cur)@),
{
    if !present {
        return Ok((0, 0));
    }
    let ghost f: spec_fn(Seq<char>, (i64, i64), Seq<u8>) -> Option<((i64, i64), Seq<u8>)> =
        |k, a, s| side_field(k, a, s);
    let ghost whole = side_at(true, cur@);
    let n: u32 = cur.read_map_len()?;
    let mut amount: i64 = 0;
    let mut shares: i64 = 0;
    let mut i: u32 = 0;
    while i < n
        invariant
            i <= n,
            whole == walk::fields(cur@, (n - i) as nat, (amount, shares), f),
        decreases n - i,
    {
        let k = cur.read_str_ref()?;
        if str_eq(k, "b") {
            amount = cur.read_int_or_zero();
        } else if str_eq(k, "s") {
            shares = cur.read_int_or_zero();
        } else {
            cur.skip_value()?;
        }
        i = i + 1;
    }
    Ok((amount, shares))
}

fn parse_loan(cur: &mut Reader) -> (r: Result<BorrowLendState, MsgpackError>)
    ensures
        walk::parsed(loan_at(old(cur)@), r, final(cur)@),
{
    let n: u32 = cur.read_array_len()?;
    let (supplied, supply_shares): (i64, i64) = parse_side(cur, n >= 1)?;
    let (borrowed, borrow_shares): (i64, i64) = parse_side(cur, n >= 2)?;
    cur.skip_rest(n, 2)?;
    Ok(BorrowLendState { borrowed, borrow_shares, supplied, supply_shares })
}

/// Enters a loan under the user and the token.
fn enter_loan(
    m: &mut StrMap<AssetMap<BorrowLendState>>,
    name: &str,
    k: u32,
    v: BorrowLendState,
)
    ensures
        final(m)@ == with_entry(old(m)@, name@, k, v),
{
    match m.get_mut(name) {
        Some(inner) => {
            inner.insert(k, v);
        },
        None => {
            let mut inner: AssetMap<BorrowLendState> = AssetMap::new();
            inner.insert(k, v);
            m.insert(name.to_owned(), inner);
        },
    }
}

#[verifier::loop_isolation(false)]
fn parse_loans(
    cur: &mut Reader,
    addr: &str,
    acc: &mut StrMap<AssetMap<BorrowLendState>>,
) -> (r: Result<(), MsgpackError>)
    ensures
        match walk::in_array(
            old(cur)@,
            old(acc)@,
            |a, s| walk::in_pair(s, a, |a, s| one_loan(addr@, a, s)),
        ) {
            Some((v, t)) => r is Ok && final(acc)@ == v && final(cur)@ == t,
            None => r is Err,
        },
{
    let ghost who = addr@;
    let ghost g: spec_fn(Map<Seq<char>, Map<u32, BorrowLendState>>, Seq<u8>) -> Option<
        (Map<Seq<char>, Map<u32, BorrowLendState>>, Seq<u8>),
    > = |a, s| one_loan(who, a, s);
    let ghost f: spec_fn(Map<Seq<char>, Map<u32, BorrowLendState>>, Seq<u8>) -> Option<
        (Map<Seq<char>, Map<u32, BorrowLendState>>, Seq<u8>),
    > = |a, s| walk::in_pair(s, a, |a, s| one_loan(who, a, s));
    let ghost whole = walk::in_array(cur@, acc@, f);
    let n: u32 = cur.read_array_len()?;
    let mut i: u32 = 0;
    while i < n
        invariant
            i <= n,
            whole == walk::items(cur@, (n - i) as nat, acc@, f),
        decreases n - i,
    {
        assert(f(acc@, cur@) == walk::in_pair(cur@, acc@, g));
        let p: u32 = cur.read_array_len()?;
        if p < 2 {
            cur.skip_rest(p, 0)?;
        } else {
            let token: u32 = walk::low32(cur.read_int()?);
            let b = parse_loan(cur)?;
            cur.skip_rest(p, 2)?;
            if b.borrowed != 0 || b.supplied != 0 {
                enter_loan(acc, addr, token, b);
            }
        }
        i = i + 1;
    }
    Ok(())
}

#[verifier::loop_isolation(false)]
fn parse_borrower(
    cur: &mut Reader,
    addr: &str,
    acc: &mut StrMap<AssetMap<BorrowLendState>>,
) -> (r: Result<(), MsgpackError>)
    ensures
        match walk::in_map(old(cur)@, old(acc)@, |k, a, s| loans_field(addr@, k, a, s)) {
            Some((v, t)) => r is Ok && final(acc)@ == v && final(cur)@ == t,
            None => r is Err,
        },
{
    let ghost who = addr@;
    let ghost f: spec_fn(Seq<char>, Map<Seq<char>, Map<u32, BorrowLendState>>, Seq<u8>) -> Option<
        (Map<Seq<char>, Map<u32, BorrowLendState>>, Seq<u8>),
    > = |k, a, s| loans_field(who, k, a, s);
    let ghost whole = walk::in_map(cur@, acc@, f);
    let n: u32 = cur.read_map_len()?;
    let mut i: u32 = 0;
    while i < n
        invariant
            i <= n,
            whole == walk::fields(cur@, (n - i) as nat, acc@, f),
        decreases n - i,
    {
        let k = cur.read_str_ref()?;
        if str_eq(k, "t") {
            parse_loans(cur, addr, acc)?;
        } else {
            cur.skip_value()?;
        }
        i = i + 1;
    }
    Ok(())
}

#[verifier::loop_isolation(false)]
fn parse_borrowers(cur: &mut Reader, acc: &mut StrMap<AssetMap<BorrowLendState>>) -> (r: Result<
    (),
    MsgpackError,
>)
    ensures
        match walk::in_array(
            old(cur)@,
            old(acc)@,
            |a, s| walk::in_pair(s, a, |a, s| one_borrower(a, s)),
        ) {
            Some((v, t)) => r is Ok && final(acc)@ == v && final(cur)@ == t,
            None => r is Err,
        },
{
    let ghost g: spec_fn(Map<Seq<char>, Map<u32, BorrowLendState>>, Seq<u8>) -> Option<
        (Map<Seq<char>, Map<u32, BorrowLendState>>, Seq<u8>),
    > = |a, s| one_borrower(a, s);
    let ghost f: spec_fn(Map<Seq<char>, Map<u32, BorrowLendState>>, Seq<u8>) -> Option<
        (Map<Seq<char>, Map<u32, BorrowLendState>>, Seq<u8>),
    > = |a, s| walk::in_pair(s, a, |a, s| one_borrower(a, s));
    let ghost whole = walk::in_array(cur@, acc@, f);
    let n: u32 = cur.read_array_len()?;
    let mut i: u32 = 0;
    while i < n
        invariant
            i <= n,
            whole == walk::items(cur@, (n - i) as nat, acc@, f),
        decreases n - i,
    {
        assert(f(acc@, cur@) == walk::in_pair(cur@, acc@, g));
        let p: u32 = cur.read_array_len()?;
        if p < 2 {
            cur.skip_rest(p, 0)?;
        } else {
            let addr = to_lowercase(cur.read_str_ref()?);
            parse_borrower(cur, addr.as_str(), acc)?;
            cur.skip_rest(p, 2)?;
        }
        i = i + 1;
    }
    Ok(())
}

#[verifier::loop_isolation(false)]
pub(crate) fn parse_blp_users(cur: &mut Reader) -> (r: Result<
    StrMap<AssetMap<BorrowLendState>>,
    MsgpackError,
>)
    ensures
        walk::parsed(pool_at(old(cur)@), r, final(cur)@),
{
    let ghost f: spec_fn(Seq<char>, Map<Seq<char>, Map<u32, BorrowLendState>>, Seq<u8>) -> Option<
        (Map<Seq<char>, Map<u32, BorrowLendState>>, Seq<u8>),
    > = |k, a, s| pool_field(k, a, s);
    let ghost whole = pool_at(cur@);
    let n: u32 = cur.read_map_len()?;
    let mut acc: StrMap<AssetMap<BorrowLendState>> = StrMap::new();
    let mut i: u32 = 0;
    while i < n
        invariant
            i <= n,
            whole == walk::fields(cur@, (n - i) as nat, acc@, f),
        decreases n - i,
    {
        let k = cur.read_str_ref()?;
        if str_eq(k, "u") {
            parse_borrowers(cur, &mut acc)?;
        } else {
            cur.skip_value()?;
        }
        i = i + 1;
    }
    Ok(acc)
}

// ── Vaults ───────────────────────────────────────────────────────────────

/// The fields of an ownership: the fraction.
pub open spec fn share_field(k: Seq<char>, a: Fraction, s: Seq<u8>) -> Option<
    (Fraction, Seq<u8>),
> {
    if k == "f"@ {
        match crate::msgpack::float_value(s) {
            Out::Good(v, t) => Some((v, t)),
            _ => None,
        }
    } else {
        walk::skip_then(s, a)
    }
}

/// The fields of an owner.
pub open spec fn owner_field(k: Seq<char>, a: Fraction, s: Seq<u8>) -> Option<
    (Fraction, Seq<u8>),
> {
    if k == "o"@ {
        walk::in_map(s, a, |k, a, s| share_field(k, a, s))
    } else {
        walk::skip_then(s, a)
    }
}

/// One more owner of a vault, kept where the fraction is above zero.
pub open spec fn one_owner(a: Map<Seq<char>, Fraction>, s: Seq<u8>) -> Option<
    (Map<Seq<char>, Fraction>, Seq<u8>),
> {
    match walk::a_text(s) {
        Some((addr, t)) => match walk::in_map(
            t,
            Fraction::Whole(0),
            |k, a, s| owner_field(k, a, s),
        ) {
            Some((v, u)) => Some(
                (
                    if v.positive() {
                        a.insert(crate::text::lowercase(addr), v)
                    } else {
                        a
                    },
                    u,
                ),
            ),
            None => None,
        },
        None => None,
    }
}

/// The fields of a vault.
pub open spec fn vault_field(k: Seq<char>, a: Map<Seq<char>, Fraction>, s: Seq<u8>) -> Option<
    (Map<Seq<char>, Fraction>, Seq<u8>),
> {
    if k == "user_states"@ {
        walk::in_array(s, a, |a, s| walk::in_pair(s, a, |a, s| one_owner(a, s)))
    } else {
        walk::skip_then(s, a)
    }
}

/// One more vault, kept where it has an owner.
pub open spec fn one_vault(a: Map<Seq<char>, Map<Seq<char>, Fraction>>, s: Seq<u8>) -> Option<
    (Map<Seq<char>, Map<Seq<char>, Fraction>>, Seq<u8>),
> {
    match walk::a_text(s) {
        Some((addr, t)) => match walk::in_map(
            t,
            Map::<Seq<char>, Fraction>::empty(),
            |k, a, s| vault_field(k, a, s),
        ) {
            Some((v, u)) => Some(
                (
                    if v == Map::<Seq<char>, Fraction>::empty() {
                        a
                    } else {
                        a.insert(crate::text::lowercase(addr), v)
                    },
                    u,
                ),
            ),
            None => None,
        },
        None => None,
    }
}

/// The vaults: vault → owner → fraction.
pub open spec fn vaults_at(s: Seq<u8>) -> Option<
    (Map<Seq<char>, Map<Seq<char>, Fraction>>, Seq<u8>),
> {
    walk::in_array(s, Map::empty(), |a, s| walk::in_pair(s, a, |a, s| one_vault(a, s)))
}

#[verifier::loop_isolation(false)]
fn parse_share(cur: &mut Reader, start: Fraction) -> (r: Result<Fraction, MsgpackError>)
    ensures
        walk::parsed(
            walk::in_map(old(cur)@, start, |k, a, s| share_field(k, a, s)),
            r,
            final(cur)@,
        ),
{
    let ghost f: spec_fn(Seq<char>, Fraction, Seq<u8>) -> Option<(Fraction, Seq<u8>)> = |k, a, s|
        share_field(k, a, s);
    let ghost whole = walk::in_map(cur@, start, f);
    let n: u32 = cur.read_map_len()?;
    let mut acc = start;
    let mut i: u32 = 0;
    while i < n
        invariant
            i <= n,
            whole == walk::fields(cur@, (n - i) as nat, acc, f),
        decreases n - i,
    {
        let k = cur.read_str_ref()?;
        if str_eq(k, "f") {
            acc = cur.read_float()?;
        } else {
            cur.skip_value()?;
        }
        i = i + 1;
    }
    Ok(acc)
}

#[verifier::loop_isolation(false)]
fn parse_owner(cur: &mut Reader) -> (r: Result<Fraction, MsgpackError>)
    ensures
        walk::parsed(
            walk::in_map(old(cur)@, Fraction::Whole(0), |k, a, s| owner_field(k, a, s)),
            r,
            final(cur)@,
        ),
{
    let ghost f: spec_fn(Seq<char>, Fraction, Seq<u8>) -> Option<(Fraction, Seq<u8>)> = |k, a, s|
        owner_field(k, a, s);
    let ghost whole = walk::in_map(cur@, Fraction::Whole(0), f);
    let n: u32 = cur.read_map_len()?;
    let mut acc = Fraction::Whole(0);
    let mut i: u32 = 0;
    while i < n
        invariant
            i <= n,
            whole == walk::fields(cur@, (n - i) as nat, acc, f),
        decreases n - i,
    {
        let k = cur.read_str_ref()?;
        if str_eq(k, "o") {
            acc = parse_share(cur, acc)?;
        } else {
            cur.skip_value()?;
        }
        i = i + 1;
    }
    Ok(acc)
}

#[verifier::loop_isolation(false)]
fn parse_owners(cur: &mut Reader, acc: &mut StrMap<Fraction>) -> (r: Result<(), MsgpackError>)
    ensures
        match walk::in_array(
            old(cur)@,
            old(acc)@,
            |a, s| walk::in_pair(s, a, |a, s| one_owner(a, s)),
        ) {
            Some((v, t)) => r is Ok && final(acc)@ == v && final(cur)@ == t,
            None => r is Err,
        },
{
    let ghost g: spec_fn(Map<Seq<char>, Fraction>, Seq<u8>) -> Option<
        (Map<Seq<char>, Fraction>, Seq<u8>),
    > = |a, s| one_owner(a, s);
    let ghost f: spec_fn(Map<Seq<char>, Fraction>, Seq<u8>) -> Option<
        (Map<Seq<char>, Fraction>, Seq<u8>),
    > = |a, s| walk::in_pair(s, a, |a, s| one_owner(a, s));
    let ghost whole = walk::in_array(cur@, acc@, f);
    let n: u32 = cur.read_array_len()?;
    let mut i: u32 = 0;
    while i < n
        invariant
            i <= n,
            whole == walk::items(cur@, (n - i) as nat, acc@, f),
        decreases n - i,
    {
        assert(f(acc@, cur@) == walk::in_pair(cur@, acc@, g));
        let p: u32 = cur.read_array_len()?;
        if p < 2 {
            cur.skip_rest(p, 0)?;
        } else {
            let addr = to_lowercase(cur.read_str_ref()?);
            let v = parse_owner(cur)?;
            cur.skip_rest(p, 2)?;
            if v.is_positive() {
                acc.insert(addr, v);
            }
        }
        i = i + 1;
    }
    Ok(())
}

#[verifier::loop_isolation(false)]
fn parse_vault(cur: &mut Reader) -> (r: Result<StrMap<Fraction>, MsgpackError>)
    ensures
        walk::parsed(
            walk::in_map(
                old(cur)@,
                Map::<Seq<char>, Fraction>::empty(),
                |k, a, s| vault_field(k, a, s),
            ),
            r,
            final(cur)@,
        ),
{
    let ghost f: spec_fn(Seq<char>, Map<Seq<char>, Fraction>, Seq<u8>) -> Option<
        (Map<Seq<char>, Fraction>, Seq<u8>),
    > = |k, a, s| vault_field(k, a, s);
    let ghost whole = walk::in_map(cur@, Map::<Seq<char>, Fraction>::empty(), f);
    let n: u32 = cur.read_map_len()?;
    let mut acc: StrMap<Fraction> = StrMap::new();
    let mut i: u32 = 0;
    while i < n
        invariant
            i <= n,
            whole == walk::fields(cur@, (n - i) as nat, acc@, f),
        decreases n - i,
    {
        let k = cur.read_str_ref()?;
        if str_eq(k, "user_states") {
            parse_owners(cur, &mut acc)?;
        } else {
            cur.skip_value()?;
        }
        i = i + 1;
    }
    Ok(acc)
}

#[verifier::loop_isolation(false)]
pub(crate) fn parse_vlt(cur: &mut Reader) -> (r: Result<StrMap<VaultState>, MsgpackError>)
    ensures
        walk::parsed(vaults_at(old(cur)@), r, final(cur)@),
{
    let ghost g: spec_fn(Map<Seq<char>, Map<Seq<char>, Fraction>>, Seq<u8>) -> Option<
        (Map<Seq<char>, Map<Seq<char>, Fraction>>, Seq<u8>),
    > = |a, s| one_vault(a, s);
    let ghost f: spec_fn(Map<Seq<char>, Map<Seq<char>, Fraction>>, Seq<u8>) -> Option<
        (Map<Seq<char>, Map<Seq<char>, Fraction>>, Seq<u8>),
    > = |a, s| walk::in_pair(s, a, |a, s| one_vault(a, s));
    let ghost whole = vaults_at(cur@);
    let n: u32 = cur.read_array_len()?;
    let mut acc: StrMap<VaultState> = StrMap::new();
    let mut i: u32 = 0;
    while i < n
        invariant
            i <= n,
            whole == walk::items(cur@, (n - i) as nat, acc@, f),
        decreases n - i,
    {
        assert(f(acc@, cur@) == walk::in_pair(cur@, acc@, g));
        let p: u32 = cur.read_array_len()?;
        if p < 2 {
            cur.skip_rest(p, 0)?;
        } else {
            let addr = to_lowercase(cur.read_str_ref()?);
            let owners = parse_vault(cur)?;
            cur.skip_rest(p, 2)?;
            if !owners.is_empty() {
                acc.insert(addr, VaultState { user_ownership: owners });
            }
        }
        i = i + 1;
    }
    Ok(acc)
}

// ── Settings in the order books ──────────────────────────────────────────

/// The fields of an asset in a book: the leverage. Something else in its place counts as none, and so
/// does data that ends before the number does.
pub open spec fn setting_field(k: Seq<char>, a: Option<u32>, s: Seq<u8>) -> Option<
    (Option<u32>, Seq<u8>),
> {
    if k == "l"@ {
        match crate::msgpack::int_value(s) {
            Out::Good(v, t) => Some((Some(v as u32), t)),
            Out::Bad(t) => Some((None, t)),
            Out::Cut => Some((None, Seq::empty())),
        }
    } else {
        walk::skip_then(s, a)
    }
}

/// One more setting of a user, kept where it is above zero.
pub open spec fn one_setting(a: Map<u32, u32>, s: Seq<u8>) -> Option<(Map<u32, u32>, Seq<u8>)> {
    match walk::an_int(s) {
        Some((v, t)) => match walk::in_map(t, None::<u32>, |k, a, s| setting_field(k, a, s)) {
            Some((l, u)) => Some(
                (
                    match l {
                        Some(x) => if x > 0 {
                            a.insert((v as u32) % 10000, x)
                        } else {
                            a
                        },
                        None => a,
                    },
                    u,
                ),
            ),
            None => None,
        },
        None => None,
    }
}

/// The fields of a user in a book.
pub open spec fn book_user_field(k: Seq<char>, a: Map<u32, u32>, s: Seq<u8>) -> Option<
    (Map<u32, u32>, Seq<u8>),
> {
    if k == "a"@ {
        walk::in_array(s, a, |a, s| walk::in_pair(s, a, |a, s| one_setting(a, s)))
    } else {
        walk::skip_then(s, a)
    }
}

/// One more user in a book, kept where there is a setting.
pub open spec fn one_book_user(a: Map<Seq<char>, Map<u32, u32>>, s: Seq<u8>) -> Option<
    (Map<Seq<char>, Map<u32, u32>>, Seq<u8>),
> {
    match walk::a_text(s) {
        Some((addr, t)) => match walk::in_map(
            t,
            Map::<u32, u32>::empty(),
            |k, a, s| book_user_field(k, a, s),
        ) {
            Some((m, u)) => Some(
                (
                    if m.dom() == Set::<u32>::empty() {
                        a
                    } else {
                        a.insert(addr, m)
                    },
                    u,
                ),
            ),
            None => None,
        },
        None => None,
    }
}

/// The settings in one book: user → asset → leverage.
pub open spec fn book_users_at(s: Seq<u8>) -> Option<(Map<Seq<char>, Map<u32, u32>>, Seq<u8>)> {
    walk::in_array(s, Map::empty(), |a, s| walk::in_pair(s, a, |a, s| one_book_user(a, s)))
}

/// The settings of both, those of the second before those of the first.
pub open spec fn merged(a: Map<Seq<char>, Map<u32, u32>>, b: Map<Seq<char>, Map<u32, u32>>) -> Map<
    Seq<char>,
    Map<u32, u32>,
> {
    Map::new(
        |u: Seq<char>| a.contains_key(u) || b.contains_key(u),
        |u: Seq<char>|
            if !b.contains_key(u) {
                a[u]
            } else if a.contains_key(u) {
                a[u].union_prefer_right(b[u])
            } else {
                b[u]
            },
    )
}

/// The fields of a book.
pub open spec fn book_field(k: Seq<char>, a: Map<Seq<char>, Map<u32, u32>>, s: Seq<u8>) -> Option<
    (Map<Seq<char>, Map<u32, u32>>, Seq<u8>),
> {
    if k == "user_states"@ {
        match book_users_at(s) {
            Some((b, t)) => Some((merged(a, b), t)),
            None => None,
        }
    } else {
        walk::skip_then(s, a)
    }
}

/// One more book of a dex.
pub open spec fn one_book(a: Map<Seq<char>, Map<u32, u32>>, s: Seq<u8>) -> Option<
    (Map<Seq<char>, Map<u32, u32>>, Seq<u8>),
> {
    walk::in_map(s, a, |k, a, s| book_field(k, a, s))
}

/// The fields of a dex's books.
pub open spec fn books_field(k: Seq<char>, a: Map<Seq<char>, Map<u32, u32>>, s: Seq<u8>) -> Option<
    (Map<Seq<char>, Map<u32, u32>>, Seq<u8>),
> {
    if k == "books"@ {
        walk::in_array(s, a, |a, s| one_book(a, s))
    } else {
        walk::skip_then(s, a)
    }
}

/// One more dex.
pub open spec fn one_dex_of_books(a: Seq<Map<Seq<char>, Map<u32, u32>>>, s: Seq<u8>) -> Option<
    (Seq<Map<Seq<char>, Map<u32, u32>>>, Seq<u8>),
> {
    match walk::in_map(
        s,
        Map::<Seq<char>, Map<u32, u32>>::empty(),
        |k, a, s| books_field(k, a, s),
    ) {
        Some((m, t)) => Some((a.push(m), t)),
        None => None,
    }
}

/// The settings in all books, by dex.
pub open spec fn perp_dexs_at(s: Seq<u8>) -> Option<
    (Seq<Map<Seq<char>, Map<u32, u32>>>, Seq<u8>),
> {
    walk::in_array(
        s,
        Seq::<Map<Seq<char>, Map<u32, u32>>>::empty(),
        |a, s| one_dex_of_books(a, s),
    )
}

#[verifier::loop_isolation(false)]
fn parse_setting(cur: &mut Reader) -> (r: Result<Option<u32>, MsgpackError>)
    ensures
        match walk::in_map(old(cur)@, None::<u32>, |k, a, s| setting_field(k, a, s)) {
            Some((v, t)) => r == Ok::<Option<u32>, MsgpackError>(v) && final(cur)@ == t,
            None => r is Err,
        },
{
    let ghost f: spec_fn(Seq<char>, Option<u32>, Seq<u8>) -> Option<(Option<u32>, Seq<u8>)> =
        |k, a, s| setting_field(k, a, s);
    let ghost whole = walk::in_map(cur@, None::<u32>, f);
    let n: u32 = cur.read_map_len()?;
    let mut acc: Option<u32> = None;
    let mut i: u32 = 0;
    while i < n
        invariant
            i <= n,
            whole == walk::fields(cur@, (n - i) as nat, acc, f),
        decreases n - i,
    {
        let k = cur.read_str_ref()?;
        if str_eq(k, "l") {
            match cur.read_int() {
                Ok(v) => {
                    acc = Some(walk::low32(v));
                },
                Err(MsgpackError::Mismatch) => {
                    acc = None;
                },
                Err(_) => {
                    acc = None;
                    cur.end();
                },
            }
        } else {
            cur.skip_value()?;
        }
        i = i + 1;
    }
    Ok(acc)
}

#[verifier::loop_isolation(false)]
fn parse_settings(cur: &mut Reader, acc: &mut AssetMap<u32>) -> (r: Result<(), MsgpackError>)
    ensures
        match walk::in_array(
            old(cur)@,
            old(acc)@,
            |a, s| walk::in_pair(s, a, |a, s| one_setting(a, s)),
        ) {
            Some((v, t)) => r is Ok && final(acc)@ == v && final(cur)@ == t,
            None => r is Err,
        },
{
    let ghost g: spec_fn(Map<u32, u32>, Seq<u8>) -> Option<(Map<u32, u32>, Seq<u8>)> = |a, s|
        one_setting(a, s);
    let ghost f: spec_fn(Map<u32, u32>, Seq<u8>) -> Option<(Map<u32, u32>, Seq<u8>)> = |a, s|
        walk::in_pair(s, a, |a, s| one_setting(a, s));
    let ghost whole = walk::in_array(cur@, acc@, f);
    let n: u32 = cur.read_array_len()?;
    let mut i: u32 = 0;
    while i < n
        invariant
            i <= n,
            whole == walk::items(cur@, (n - i) as nat, acc@, f),
        decreases n - i,
    {
        assert(f(acc@, cur@) == walk::in_pair(cur@, acc@, g));
        let p: u32 = cur.read_array_len()?;
        if p < 2 {
            cur.skip_rest(p, 0)?;
        } else {
            let asset: u32 = walk::low32(cur.read_int()?) % 10000;
            let lev: Option<u32> = parse_setting(cur)?;
            cur.skip_rest(p, 2)?;
            if let Some(l) = lev {
                if l > 0 {
                    acc.insert(asset, l);
                }
            }
        }
        i = i + 1;
    }
    Ok(())
}

#[verifier::loop_isolation(false)]
fn parse_book_user(cur: &mut Reader) -> (r: Result<AssetMap<u32>, MsgpackError>)
    ensures
        walk::parsed(
            walk::in_map(
                old(cur)@,
                Map::<u32, u32>::empty(),
                |k, a, s| book_user_field(k, a, s),
            ),
            r,
            final(cur)@,
        ),
{
    let ghost f: spec_fn(Seq<char>, Map<u32, u32>, Seq<u8>) -> Option<(Map<u32, u32>, Seq<u8>)> =
        |k, a, s| book_user_field(k, a, s);
    let ghost whole = walk::in_map(cur@, Map::<u32, u32>::empty(), f);
    let n: u32 = cur.read_map_len()?;
    let mut acc: AssetMap<u32> = AssetMap::new();
    let mut i: u32 = 0;
    while i < n
        invariant
            i <= n,
            whole == walk::fields(cur@, (n - i) as nat, acc@, f),
        decreases n - i,
    {
        let k = cur.read_str_ref()?;
        if str_eq(k, "a") {
            parse_settings(cur, &mut acc)?;
        } else {
            cur.skip_value()?;
        }
        i = i + 1;
    }
    Ok(acc)
}

#[verifier::loop_isolation(false)]
fn parse_book_user_states_leverage(cur: &mut Reader) -> (r: Result<
    StrMap<AssetMap<u32>>,
    MsgpackError,
>)
    ensures
        walk::parsed(book_users_at(old(cur)@), r, final(cur)@),
{
    let ghost g: spec_fn(Map<Seq<char>, Map<u32, u32>>, Seq<u8>) -> Option<
        (Map<Seq<char>, Map<u32, u32>>, Seq<u8>),
    > = |a, s| one_book_user(a, s);
    let ghost f: spec_fn(Map<Seq<char>, Map<u32, u32>>, Seq<u8>) -> Option<
        (Map<Seq<char>, Map<u32, u32>>, Seq<u8>),
    > = |a, s| walk::in_pair(s, a, |a, s| one_book_user(a, s));
    let ghost whole = book_users_at(cur@);
    let n: u32 = cur.read_array_len()?;
    let mut acc: StrMap<AssetMap<u32>> = StrMap::new();
    let mut i: u32 = 0;
    while i < n
        invariant
            i <= n,
            whole == walk::items(cur@, (n - i) as nat, acc@, f),
        decreases n - i,
    {
        assert(f(acc@, cur@) == walk::in_pair(cur@, acc@, g));
        let p: u32 = cur.read_array_len()?;
        if p < 2 {
            cur.skip_rest(p, 0)?;
        } else {
            let addr = cur.read_str()?;
            let levs = parse_book_user(cur)?;
            cur.skip_rest(p, 2)?;
            let held: usize = levs.len();
            if held > 0 {
                assert(levs@.dom().contains(levs.keys()[0]));
                acc.insert(addr, levs);
            } else {
                assert(levs@.dom() =~= Set::<u32>::empty());
            }
        }
        i = i + 1;
    }
    Ok(acc)
}

/// Puts every setting of the second map into the first.
fn put_settings(m: &mut AssetMap<u32>, from: &AssetMap<u32>)
    ensures
        final(m)@ == old(m)@.union_prefer_right(from@),
{
    let ghost start = m@;
    let n: usize = from.len();
    let ghost ks = from.keys();
    let mut i: usize = 0;
    while i < n
        invariant
            i <= n == ks.len(),
            ks == from.keys(),
            from@.dom() == ks.to_set(),
            m@ == start.union_prefer_right(from@.restrict(ks.take(i as int).to_set())),
        decreases n - i,
    {
        let k: u32 = from.key_at(i);
        m.insert(k, *from.val_at(i));
        proof {
            crate::strmap::lemma_take_one(ks, i as int);
            assert(m@ =~= start.union_prefer_right(from@.restrict(ks.take(i + 1).to_set())));
        }
        i = i + 1;
    }
    proof {
        crate::strmap::lemma_take_all(ks);
        assert(from@.restrict(ks.to_set()) =~= from@);
    }
}

/// Puts the settings of a book into those of its dex.
fn merge_books(acc: &mut StrMap<AssetMap<u32>>, from: &StrMap<AssetMap<u32>>)
    ensures
        final(acc)@ == merged(old(acc)@, from@),
{
    let ghost start = acc@;
    let n: usize = from.len();
    let ghost ks = from.keys();
    let mut i: usize = 0;
    assert(acc@ =~= merged(start, from@.restrict(ks.take(0).to_set())));
    while i < n
        invariant
            i <= n == ks.len(),
            ks == from.keys(),
            ks.no_duplicates(),
            from@.dom() == ks.to_set(),
            acc@ == merged(start, from@.restrict(ks.take(i as int).to_set())),
        decreases n - i,
    {
        let ghost before = acc@;
        let k = from.key_at(i);
        let levs = from.val_at(i);
        proof {
            crate::strmap::lemma_take_one(ks, i as int);
        }
        assert(before.contains_key(k@) == start.contains_key(k@));
        match acc.get_mut(k.as_str()) {
            Some(own) => {
                put_settings(own, levs);
            },
            None => {
                let mut own: AssetMap<u32> = AssetMap::new();
                put_settings(&mut own, levs);
                assert(own@ =~= levs@);
                acc.insert(k.clone(), own);
            },
        }
        proof {
            assert(acc@ =~= merged(start, from@.restrict(ks.take(i + 1).to_set())));
        }
        i = i + 1;
    }
    proof {
        crate::strmap::lemma_take_all(ks);
        assert(from@.restrict(ks.to_set()) =~= from@);
    }
}

#[verifier::loop_isolation(false)]
fn parse_book(cur: &mut Reader, acc: &mut StrMap<AssetMap<u32>>) -> (r: Result<(), MsgpackError>)
    ensures
        match one_book(old(acc)@, old(cur)@) {
            Some((v, t)) => r is Ok && final(acc)@ == v && final(cur)@ == t,
            None => r is Err,
        },
{
    let ghost f: spec_fn(Seq<char>, Map<Seq<char>, Map<u32, u32>>, Seq<u8>) -> Option<
        (Map<Seq<char>, Map<u32, u32>>, Seq<u8>),
    > = |k, a, s| book_field(k, a, s);
    let ghost whole = one_book(acc@, cur@);
    let n: u32 = cur.read_map_len()?;
    let mut i: u32 = 0;
    while i < n
        invariant
            i <= n,
            whole == walk::fields(cur@, (n - i) as nat, acc@, f),
        decreases n - i,
    {
        let k = cur.read_str_ref()?;
        if str_eq(k, "user_states") {
            let users = parse_book_user_states_leverage(cur)?;
            merge_books(acc, &users);
        } else {
            cur.skip_value()?;
        }
        i = i + 1;
    }
    Ok(())
}

#[verifier::loop_isolation(false)]
fn parse_books(cur: &mut Reader, acc: &mut StrMap<AssetMap<u32>>) -> (r: Result<(), MsgpackError>)
    ensures
        match walk::in_array(old(cur)@, old(acc)@, |a, s| one_book(a, s)) {
            Some((v, t)) => r is Ok && final(acc)@ == v && final(cur)@ == t,
            None => r is Err,
        },
{
    let ghost f: spec_fn(Map<Seq<char>, Map<u32, u32>>, Seq<u8>) -> Option<
        (Map<Seq<char>, Map<u32, u32>>, Seq<u8>),
    > = |a, s| one_book(a, s);
    let ghost whole = walk::in_array(cur@, acc@, f);
    let n: u32 = cur.read_array_len()?;
    let mut i: u32 = 0;
    while i < n
        invariant
            i <= n,
            whole == walk::items(cur@, (n - i) as nat, acc@, f),
        decreases n - i,
    {
        parse_book(cur, acc)?;
        i = i + 1;
    }
    Ok(())
}

#[verifier::loop_isolation(false)]
fn parse_dex_of_books(cur: &mut Reader) -> (r: Result<StrMap<AssetMap<u32>>, MsgpackError>)
    ensures
        walk::parsed(
            walk::in_map(
                old(cur)@,
                Map::<Seq<char>, Map<u32, u32>>::empty(),
                |k, a, s| books_field(k, a, s),
            ),
            r,
            final(cur)@,
        ),
{
    let ghost f: spec_fn(Seq<char>, Map<Seq<char>, Map<u32, u32>>, Seq<u8>) -> Option<
        (Map<Seq<char>, Map<u32, u32>>, Seq<u8>),
    > = |k, a, s| books_field(k, a, s);
    let ghost whole = walk::in_map(cur@, Map::<Seq<char>, Map<u32, u32>>::empty(), f);
    let n: u32 = cur.read_map_len()?;
    let mut acc: StrMap<AssetMap<u32>> = StrMap::new();
    let mut i: u32 = 0;
    while i < n
        invariant
            i <= n,
            whole == walk::fields(cur@, (n - i) as nat, acc@, f),
        decreases n - i,
    {
        let k = cur.read_str_ref()?;
        if str_eq(k, "books") {
            parse_books(cur, &mut acc)?;
        } else {
            cur.skip_value()?;
        }
        i = i + 1;
    }
    Ok(acc)
}

/// What the settings of the dexes hold.
pub open spec fn setting_views(v: Seq<StrMap<AssetMap<u32>>>) -> Seq<Map<Seq<char>, Map<u32, u32>>> {
    v.map_values(|m: StrMap<AssetMap<u32>>| m@)
}

#[verifier::loop_isolation(false)]
pub(crate) fn parse_perp_dexs_leverage(cur: &mut Reader) -> (r: Result<
    Vec<StrMap<AssetMap<u32>>>,
    MsgpackError,
>)
    ensures
        match perp_dexs_at(old(cur)@) {
            Some((v, t)) => r is Ok && setting_views(r->Ok_0@) == v && final(cur)@ == t,
            None => r is Err,
        },
{
    let ghost f: spec_fn(Seq<Map<Seq<char>, Map<u32, u32>>>, Seq<u8>) -> Option<
        (Seq<Map<Seq<char>, Map<u32, u32>>>, Seq<u8>),
    > = |a, s| one_dex_of_books(a, s);
    let ghost whole = perp_dexs_at(cur@);
    let n: u32 = cur.read_array_len()?;
    let mut acc: Vec<StrMap<AssetMap<u32>>> = Vec::new();
    assert(setting_views(acc@) =~= Seq::<Map<Seq<char>, Map<u32, u32>>>::empty());
    let mut i: u32 = 0;
    while i < n
        invariant
            i <= n,
            whole == walk::items(cur@, (n - i) as nat, setting_views(acc@), f),
        decreases n - i,
    {
        let ghost before = acc@;
        let m = parse_dex_of_books(cur)?;
        acc.push(m);
        assert(setting_views(acc@) =~= setting_views(before).push(m@));
        i = i + 1;
    }
    Ok(acc)
}

} // verus!

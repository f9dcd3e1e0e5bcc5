//! Reading a state snapshot.
//!
//! The snapshot is one large MessagePack value. It is walked once; subtrees that do not matter are
//! skipped without being built. What each part of the snapshot stands for is given as a function of
//! the bytes: `None` where the part is not of the expected form, else what was read and the bytes
//! behind it.
use crate::assetmap::AssetMap;
use crate::clearing_house::{
    AccountMode, AssetMeta, AssetModel, Leverage, MarginMode, MarginTier, PartialModel, Position,
    UserModel, UserState, UserStatePartial,
};
use crate::msgpack::{MsgpackError, Out, Reader};
use crate::strmap::StrMap;
use crate::text::str_eq;
use vstd::prelude::*;

pub mod dex;
pub mod locus;
pub mod raw_debug;
pub mod referrals;
pub mod root;

verus! {

// ── Walking maps and arrays, mathematically ──────────────────────────────

/// What is read by going through the next `n` entries of a map, where `f` takes a key, what has been
/// read and the bytes from the value on.
pub open spec fn fields<A>(
    s: Seq<u8>,
    n: nat,
    acc: A,
    f: spec_fn(Seq<char>, A, Seq<u8>) -> Option<(A, Seq<u8>)>,
) -> Option<(A, Seq<u8>)>
    decreases n,
{
    if n == 0 {
        Some((acc, s))
    } else {
        match crate::msgpack::text(s) {
            Out::Good(k, t) => match f(k, acc, t) {
                Some((a, u)) => fields(u, (n - 1) as nat, a, f),
                None => None,
            },
            _ => None,
        }
    }
}

/// What is read by going through a map.
pub open spec fn in_map<A>(
    s: Seq<u8>,
    acc: A,
    f: spec_fn(Seq<char>, A, Seq<u8>) -> Option<(A, Seq<u8>)>,
) -> Option<(A, Seq<u8>)> {
    match crate::msgpack::map_length(s) {
        Out::Good(n, t) => fields(t, n, acc, f),
        _ => None,
    }
}

/// What is read by going through the next `n` items of an array, where `f` takes what has been read
/// and the bytes from the item on.
pub open spec fn items<A>(
    s: Seq<u8>,
    n: nat,
    acc: A,
    f: spec_fn(A, Seq<u8>) -> Option<(A, Seq<u8>)>,
) -> Option<(A, Seq<u8>)>
    decreases n,
{
    if n == 0 {
        Some((acc, s))
    } else {
        match f(acc, s) {
            Some((a, u)) => items(u, (n - 1) as nat, a, f),
            None => None,
        }
    }
}

/// What is read by going through an array.
pub open spec fn in_array<A>(
    s: Seq<u8>,
    acc: A,
    f: spec_fn(A, Seq<u8>) -> Option<(A, Seq<u8>)>,
) -> Option<(A, Seq<u8>)> {
    match crate::msgpack::array_length(s) {
        Out::Good(n, t) => items(t, n, acc, f),
        _ => None,
    }
}

/// What has been read, with one more value skipped.
pub open spec fn skip_then<A>(s: Seq<u8>, a: A) -> Option<(A, Seq<u8>)> {
    match crate::msgpack::skipped(s) {
        Out::Good(_, t) => Some((a, t)),
        _ => None,
    }
}

/// What has been read, with so many more values skipped.
pub open spec fn skip_n_then<A>(s: Seq<u8>, n: int, a: A) -> Option<(A, Seq<u8>)> {
    if n <= 0 {
        Some((a, s))
    } else {
        match crate::msgpack::skipped_n(s, n as nat) {
            Out::Good(_, t) => Some((a, t)),
            _ => None,
        }
    }
}

/// What is read from a pair: an array whose first two items `f` reads and whose further items are
/// skipped. A shorter array is skipped whole.
pub open spec fn in_pair<A>(
    s: Seq<u8>,
    acc: A,
    f: spec_fn(A, Seq<u8>) -> Option<(A, Seq<u8>)>,
) -> Option<(A, Seq<u8>)> {
    match crate::msgpack::array_length(s) {
        Out::Good(p, t) => if p < 2 {
            skip_n_then(t, p as int, acc)
        } else {
            match f(acc, t) {
                Some((a, u)) => skip_n_then(u, p - 2, a),
                None => None,
            }
        },
        _ => None,
    }
}

/// The bytes of an integer, and the integer.
pub open spec fn an_int(s: Seq<u8>) -> Option<(i64, Seq<u8>)> {
    match crate::msgpack::int_value(s) {
        Out::Good(v, t) => Some((v, t)),
        _ => None,
    }
}

/// An integer, or zero where something else stands: then only its marker is passed. Data that ends
/// before the integer does gives zero too, and nothing is left of it.
pub open spec fn int_or_zero(s: Seq<u8>) -> (i64, Seq<u8>) {
    match crate::msgpack::int_value(s) {
        Out::Good(v, t) => (v, t),
        Out::Bad(t) => (0, t),
        Out::Cut => (0, Seq::empty()),
    }
}

/// A text.
pub open spec fn a_text(s: Seq<u8>) -> Option<(Seq<char>, Seq<u8>)> {
    match crate::msgpack::text(s) {
        Out::Good(v, t) => Some((v, t)),
        _ => None,
    }
}

/// Whether the outcome, and where the reader stands, are what the bytes hold.
pub open spec fn parsed<T: View>(
    o: Option<(T::V, Seq<u8>)>,
    r: Result<T, MsgpackError>,
    rest: Seq<u8>,
) -> bool {
    match o {
        Some((v, t)) => r is Ok && r->Ok_0@ == v && rest == t,
        None => r is Err,
    }
}

impl<'a> Reader<'a> {
    /// Reads an integer, or zero where there is none.
    pub(crate) fn read_int_or_zero(&mut self) -> (r: i64)
        ensures
            (r, final(self)@) == int_or_zero(old(self)@),
    {
        match self.read_int() {
            Ok(v) => v,
            Err(MsgpackError::Mismatch) => 0,
            Err(_) => {
                self.end();
                0
            },
        }
    }

    /// Skips the items of a pair, or of a longer array, from the given one on.
    pub(crate) fn skip_rest(&mut self, len: u32, from: u32) -> (r: Result<(), MsgpackError>)
        ensures
            parsed(skip_n_then(old(self)@, len - from, ()), r, final(self)@),
    {
        if len > from {
            self.skip_values((len - from) as u64)
        } else {
            Ok(())
        }
    }
}

/// The low 32 bits of a number, as the snapshot's small numbers are read.
pub(crate) fn low32(v: i64) -> (r: u32)
    ensures
        r == v as u32,
{
    #[verifier::truncate]
    let r: u32 = v as u32;
    r
}

// ── Leverage ─────────────────────────────────────────────────────────────

/// The fields of an isolated leverage: multiple and margin.
pub open spec fn isolated_field(k: Seq<char>, acc: (u32, i64), s: Seq<u8>) -> Option<
    ((u32, i64), Seq<u8>),
> {
    if k == "l"@ {
        match an_int(s) {
            Some((v, t)) => Some(((v as u32, acc.1), t)),
            None => None,
        }
    } else if k == "u"@ {
        match an_int(s) {
            Some((v, t)) => Some(((acc.0, v), t)),
            None => None,
        }
    } else {
        skip_then(s, acc)
    }
}

/// The fields of a leverage: "C" for cross, "I" for isolated.
pub open spec fn leverage_field(k: Seq<char>, acc: Leverage, s: Seq<u8>) -> Option<
    (Leverage, Seq<u8>),
> {
    if k == "C"@ {
        match an_int(s) {
            Some((v, t)) => Some((Leverage::Cross(v as u32), t)),
            None => None,
        }
    } else if k == "I"@ {
        match in_map(s, (1u32, 0i64), |k, a, s| isolated_field(k, a, s)) {
            Some(((leverage, raw_usd), t)) => Some((Leverage::Isolated { leverage, raw_usd }, t)),
            None => None,
        }
    } else {
        skip_then(s, acc)
    }
}

/// A leverage; cross at 1 where no field says otherwise.
pub open spec fn leverage_at(s: Seq<u8>) -> Option<(Leverage, Seq<u8>)> {
    in_map(s, Leverage::Cross(1), |k, a, s| leverage_field(k, a, s))
}

#[verifier::loop_isolation(false)]
fn parse_isolated(cur: &mut Reader) -> (r: Result<(u32, i64), MsgpackError>)
    ensures
        parsed(
            in_map(old(cur)@, (1u32, 0i64), |k, a, s| isolated_field(k, a, s)),
            r,
            final(cur)@,
        ),
{
    let ghost f: spec_fn(Seq<char>, (u32, i64), Seq<u8>) -> Option<((u32, i64), Seq<u8>)> =
        |k, a, s| isolated_field(k, a, s);
    let ghost whole = in_map(cur@, (1u32, 0i64), f);
    let n: u32 = cur.read_map_len()?;
    let mut lev: u32 = 1;
    let mut raw: i64 = 0;
    let mut i: u32 = 0;
    while i < n
        invariant
            i <= n,
            whole == fields(cur@, (n - i) as nat, (lev, raw), f),
        decreases n - i,
    {
        let k = cur.read_str_ref()?;
        if str_eq(k, "l") {
            lev = low32(cur.read_int()?);
        } else if str_eq(k, "u") {
            raw = cur.read_int()?;
        } else {
            cur.skip_value()?;
        }
        i = i + 1;
    }
    Ok((lev, raw))
}

#[verifier::loop_isolation(false)]
fn parse_leverage(cur: &mut Reader) -> (r: Result<Leverage, MsgpackError>)
    ensures
        parsed(leverage_at(old(cur)@), r, final(cur)@),
{
    let ghost f: spec_fn(Seq<char>, Leverage, Seq<u8>) -> Option<(Leverage, Seq<u8>)> = |k, a, s|
        leverage_field(k, a, s);
    let ghost whole = leverage_at(cur@);
    let n: u32 = cur.read_map_len()?;
    let mut acc = Leverage::Cross(1);
    let mut i: u32 = 0;
    while i < n
        invariant
            i <= n,
            whole == fields(cur@, (n - i) as nat, acc, f),
        decreases n - i,
    {
        let k = cur.read_str_ref()?;
        if str_eq(k, "C") {
            acc = Leverage::Cross(low32(cur.read_int()?));
        } else if str_eq(k, "I") {
            let (leverage, raw_usd): (u32, i64) = parse_isolated(cur)?;
            acc = Leverage::Isolated { leverage, raw_usd };
        } else {
            cur.skip_value()?;
        }
        i = i + 1;
    }
    Ok(acc)
}

// ── Positions ────────────────────────────────────────────────────────────

/// The fields of a position as far as they have been read.
#[derive(Clone, Copy)]
pub struct PositionFields {
    pub szi: Option<i64>,
    pub cost_basis: Option<i64>,
    pub leverage: Option<Leverage>,
    pub margin_table_id: u32,
    pub outstanding_funding: i64,
}

impl View for PositionFields {
    type V = PositionFields;

    open spec fn view(&self) -> PositionFields {
        *self
    }
}

/// The fields of a position's funding: only what is outstanding matters.
pub open spec fn funding_field(k: Seq<char>, acc: i64, s: Seq<u8>) -> Option<(i64, Seq<u8>)> {
    if k == "o"@ {
        an_int(s)
    } else {
        skip_then(s, acc)
    }
}

/// The fields of a position. A size may be null; a table id of another type counts as zero.
pub open spec fn position_field(k: Seq<char>, a: PositionFields, s: Seq<u8>) -> Option<
    (PositionFields, Seq<u8>),
> {
    if k == "s"@ {
        if s.len() > 0 && s[0] == 0xc0 {
            skip_then(s, a)
        } else {
            match an_int(s) {
                Some((v, t)) => Some((PositionFields { szi: Some(v), ..a }, t)),
                None => None,
            }
        }
    } else if k == "e"@ {
        match an_int(s) {
            Some((v, t)) => Some((PositionFields { cost_basis: Some(v), ..a }, t)),
            None => None,
        }
    } else if k == "l"@ {
        match leverage_at(s) {
            Some((l, t)) => Some((PositionFields { leverage: Some(l), ..a }, t)),
            None => None,
        }
    } else if k == "M"@ {
        let (v, t) = int_or_zero(s);
        Some((PositionFields { margin_table_id: v as u32, ..a }, t))
    } else if k == "f"@ {
        match in_map(s, a.outstanding_funding, |k, a, s| funding_field(k, a, s)) {
            Some((v, t)) => Some((PositionFields { outstanding_funding: v, ..a }, t)),
            None => None,
        }
    } else {
        skip_then(s, a)
    }
}

/// No field read.
pub open spec fn no_position_fields() -> PositionFields {
    PositionFields {
        szi: None,
        cost_basis: None,
        leverage: None,
        margin_table_id: 0,
        outstanding_funding: 0,
    }
}

/// The fields of the position that stands first.
pub open spec fn position_at(s: Seq<u8>) -> Option<(PositionFields, Seq<u8>)> {
    in_map(s, no_position_fields(), |k, a, s| position_field(k, a, s))
}

/// The position that the fields stand for: there is none without a size or a cost basis. Leverage
/// that is not given stands as cross at zero until the market's default is known.
pub open spec fn position_of(a: PositionFields) -> Option<Position> {
    match (a.szi, a.cost_basis) {
        (Some(szi), Some(cost_basis)) if szi != 0 => Some(
            Position {
                szi,
                cost_basis,
                leverage: match a.leverage {
                    Some(l) => l,
                    None => Leverage::Cross(0),
                },
                margin_table_id: a.margin_table_id,
                outstanding_funding: a.outstanding_funding,
            },
        ),
        _ => None,
    }
}

#[verifier::loop_isolation(false)]
fn parse_position_funding(cur: &mut Reader, start: i64) -> (r: Result<i64, MsgpackError>)
    ensures
        parsed(in_map(old(cur)@, start, |k, a, s| funding_field(k, a, s)), r, final(cur)@),
{
    let ghost f: spec_fn(Seq<char>, i64, Seq<u8>) -> Option<(i64, Seq<u8>)> = |k, a, s|
        funding_field(k, a, s);
    let ghost whole = in_map(cur@, start, f);
    let n: u32 = cur.read_map_len()?;
    let mut acc: i64 = start;
    let mut i: u32 = 0;
    while i < n
        invariant
            i <= n,
            whole == fields(cur@, (n - i) as nat, acc, f),
        decreases n - i,
    {
        let k = cur.read_str_ref()?;
        if str_eq(k, "o") {
            acc = cur.read_int()?;
        } else {
            cur.skip_value()?;
        }
        i = i + 1;
    }
    Ok(acc)
}

#[verifier::loop_isolation(false)]
fn parse_position_fields(cur: &mut Reader) -> (r: Result<PositionFields, MsgpackError>)
    ensures
        parsed(position_at(old(cur)@), r, final(cur)@),
{
    let ghost f: spec_fn(Seq<char>, PositionFields, Seq<u8>) -> Option<
        (PositionFields, Seq<u8>),
    > = |k, a, s| position_field(k, a, s);
    let ghost whole = position_at(cur@);
    let n: u32 = cur.read_map_len()?;
    let mut acc = PositionFields {
        szi: None,
        cost_basis: None,
        leverage: None,
        margin_table_id: 0,
        outstanding_funding: 0,
    };
    let mut i: u32 = 0;
    while i < n
        invariant
            i <= n,
            whole == fields(cur@, (n - i) as nat, acc, f),
        decreases n - i,
    {
        let k = cur.read_str_ref()?;
        if str_eq(k, "s") {
            let null: bool = match cur.peek_marker() {
                Some(b) => b == 0xc0,
                None => false,
            };
            if null {
                cur.skip_value()?;
            } else {
                acc.szi = Some(cur.read_int()?);
            }
        } else if str_eq(k, "e") {
            acc.cost_basis = Some(cur.read_int()?);
        } else if str_eq(k, "l") {
            acc.leverage = Some(parse_leverage(cur)?);
        } else if str_eq(k, "M") {
            acc.margin_table_id = low32(cur.read_int_or_zero());
        } else if str_eq(k, "f") {
            let start: i64 = acc.outstanding_funding;
            acc.outstanding_funding = parse_position_funding(cur, start)?;
        } else {
            cur.skip_value()?;
        }
        i = i + 1;
    }
    Ok(acc)
}

/// The position, and the leverage preference of an entry without one.
fn parse_position(cur: &mut Reader) -> (r: Result<
    (Option<Position>, Option<Leverage>),
    MsgpackError,
>)
    ensures
        match position_at(old(cur)@) {
            Some((a, t)) => r is Ok && r->Ok_0.0 == position_of(a) && (r->Ok_0.1 == (
            if position_of(a) is Some {
                None
            } else {
                a.leverage
            })) && final(cur)@ == t,
            None => r is Err,
        },
{
    let a = parse_position_fields(cur)?;
    match (a.szi, a.cost_basis) {
        (Some(szi), Some(cost_basis)) => {
            if szi == 0 {
                return Ok((None, a.leverage));
            }
            let leverage = match a.leverage {
                Some(l) => l,
                None => Leverage::Cross(0),
            };
            Ok(
                (
                    Some(
                        Position {
                            szi,
                            cost_basis,
                            leverage,
                            margin_table_id: a.margin_table_id,
                            outstanding_funding: a.outstanding_funding,
                        },
                    ),
                    None,
                ),
            )
        },
        _ => Ok((None, a.leverage)),
    }
}

// ── Margin tables, universe, oracle ──────────────────────────────────────

/// The fields of a margin tier.
pub open spec fn tier_field(k: Seq<char>, a: MarginTier, s: Seq<u8>) -> Option<
    (MarginTier, Seq<u8>),
> {
    if k == "lower_bound"@ {
        match an_int(s) {
            Some((v, t)) => Some((MarginTier { lower_bound: v, ..a }, t)),
            None => None,
        }
    } else if k == "max_leverage"@ {
        match an_int(s) {
            Some((v, t)) => Some((MarginTier { max_leverage: v as u32, ..a }, t)),
            None => None,
        }
    } else if k == "maintenance_deduction"@ {
        match an_int(s) {
            Some((v, t)) => Some((MarginTier { maintenance_deduction: v, ..a }, t)),
            None => None,
        }
    } else {
        skip_then(s, a)
    }
}

/// A margin tier.
pub open spec fn tier_at(s: Seq<u8>) -> Option<(MarginTier, Seq<u8>)> {
    in_map(
        s,
        MarginTier { lower_bound: 0, max_leverage: 0, maintenance_deduction: 0 },
        |k, a, s| tier_field(k, a, s),
    )
}

/// One more tier of a table.
pub open spec fn one_tier(a: Seq<MarginTier>, s: Seq<u8>) -> Option<(Seq<MarginTier>, Seq<u8>)> {
    match tier_at(s) {
        Some((v, t)) => Some((a.push(v), t)),
        None => None,
    }
}

/// The fields of a margin table: its tiers.
pub open spec fn table_field(k: Seq<char>, a: Seq<MarginTier>, s: Seq<u8>) -> Option<
    (Seq<MarginTier>, Seq<u8>),
> {
    if k == "margin_tiers"@ {
        in_array(s, a, |a, s| one_tier(a, s))
    } else {
        skip_then(s, a)
    }
}

/// One more table: its id and its tiers.
pub open spec fn one_table(a: Map<u32, Seq<MarginTier>>, s: Seq<u8>) -> Option<
    (Map<u32, Seq<MarginTier>>, Seq<u8>),
> {
    match an_int(s) {
        Some((id, t)) => match in_map(t, Seq::empty(), |k, a, s| table_field(k, a, s)) {
            Some((tiers, u)) => Some((a.insert(id as u32, tiers), u)),
            None => None,
        },
        None => None,
    }
}

/// The margin tables.
pub open spec fn tables_at(s: Seq<u8>) -> Option<(Map<u32, Seq<MarginTier>>, Seq<u8>)> {
    in_array(s, Map::empty(), |a, s| in_pair(s, a, |a, s| one_table(a, s)))
}

#[verifier::loop_isolation(false)]
fn parse_margin_tier(cur: &mut Reader) -> (r: Result<MarginTier, MsgpackError>)
    ensures
        parsed(tier_at(old(cur)@), r, final(cur)@),
{
    let ghost f: spec_fn(Seq<char>, MarginTier, Seq<u8>) -> Option<(MarginTier, Seq<u8>)> =
        |k, a, s| tier_field(k, a, s);
    let ghost whole = tier_at(cur@);
    let n: u32 = cur.read_map_len()?;
    let mut acc = MarginTier { lower_bound: 0, max_leverage: 0, maintenance_deduction: 0 };
    let mut i: u32 = 0;
    while i < n
        invariant
            i <= n,
            whole == fields(cur@, (n - i) as nat, acc, f),
        decreases n - i,
    {
        let k = cur.read_str_ref()?;
        if str_eq(k, "lower_bound") {
            acc.lower_bound = cur.read_int()?;
        } else if str_eq(k, "max_leverage") {
            acc.max_leverage = low32(cur.read_int()?);
        } else if str_eq(k, "maintenance_deduction") {
            acc.maintenance_deduction = cur.read_int()?;
        } else {
            cur.skip_value()?;
        }
        i = i + 1;
    }
    Ok(acc)
}

#[verifier::loop_isolation(false)]
fn parse_tiers(cur: &mut Reader, tiers: &mut Vec<MarginTier>) -> (r: Result<(), MsgpackError>)
    ensures
        match in_array(old(cur)@, old(tiers)@, |a, s| one_tier(a, s)) {
            Some((v, t)) => r is Ok && final(tiers)@ == v && final(cur)@ == t,
            None => r is Err,
        },
{
    let ghost f: spec_fn(Seq<MarginTier>, Seq<u8>) -> Option<(Seq<MarginTier>, Seq<u8>)> = |a, s|
        one_tier(a, s);
    let ghost whole = in_array(cur@, tiers@, f);
    let n: u32 = cur.read_array_len()?;
    let mut i: u32 = 0;
    while i < n
        invariant
            i <= n,
            whole == items(cur@, (n - i) as nat, tiers@, f),
        decreases n - i,
    {
        tiers.push(parse_margin_tier(cur)?);
        i = i + 1;
    }
    Ok(())
}

#[verifier::loop_isolation(false)]
fn parse_table(cur: &mut Reader) -> (r: Result<Vec<MarginTier>, MsgpackError>)
    ensures
        parsed(
            in_map(old(cur)@, Seq::<MarginTier>::empty(), |k, a, s| table_field(k, a, s)),
            r,
            final(cur)@,
        ),
{
    let ghost f: spec_fn(Seq<char>, Seq<MarginTier>, Seq<u8>) -> Option<
        (Seq<MarginTier>, Seq<u8>),
    > = |k, a, s| table_field(k, a, s);
    let ghost whole = in_map(cur@, Seq::<MarginTier>::empty(), f);
    let n: u32 = cur.read_map_len()?;
    let mut acc: Vec<MarginTier> = Vec::new();
    let mut i: u32 = 0;
    while i < n
        invariant
            i <= n,
            whole == fields(cur@, (n - i) as nat, acc@, f),
        decreases n - i,
    {
        let k = cur.read_str_ref()?;
        if str_eq(k, "margin_tiers") {
            parse_tiers(cur, &mut acc)?;
        } else {
            cur.skip_value()?;
        }
        i = i + 1;
    }
    Ok(acc)
}

#[verifier::loop_isolation(false)]
pub(crate) fn parse_margin_tables(cur: &mut Reader) -> (r: Result<AssetMap<Vec<MarginTier>>, MsgpackError>)
    ensures
        parsed(tables_at(old(cur)@), r, final(cur)@),
{
    let ghost g: spec_fn(Map<u32, Seq<MarginTier>>, Seq<u8>) -> Option<
        (Map<u32, Seq<MarginTier>>, Seq<u8>),
    > = |a, s| one_table(a, s);
    let ghost f: spec_fn(Map<u32, Seq<MarginTier>>, Seq<u8>) -> Option<
        (Map<u32, Seq<MarginTier>>, Seq<u8>),
    > = |a, s| in_pair(s, a, |a, s| one_table(a, s));
    let ghost whole = tables_at(cur@);
    let n: u32 = cur.read_array_len()?;
    let mut acc: AssetMap<Vec<MarginTier>> = AssetMap::new();
    let mut i: u32 = 0;
    while i < n
        invariant
            i <= n,
            whole == items(cur@, (n - i) as nat, acc@, f),
        decreases n - i,
    {
        assert(f(acc@, cur@) == in_pair(cur@, acc@, g));
        let p: u32 = cur.read_array_len()?;
        if p < 2 {
            cur.skip_rest(p, 0)?;
        } else {
            let id: u32 = low32(cur.read_int()?);
            let tiers = parse_table(cur)?;
            cur.skip_rest(p, 2)?;
            acc.insert(id, tiers);
        }
        i = i + 1;
    }
    Ok(acc)
}

/// The margin mode that a text stands for.
pub open spec fn margin_mode_of(s: Seq<char>) -> MarginMode {
    if s == "noCross"@ {
        MarginMode::NoCross
    } else if s == "strictIsolated"@ {
        MarginMode::StrictIsolated
    } else {
        MarginMode::Normal
    }
}

/// The fields of an asset.
pub open spec fn asset_field(k: Seq<char>, a: AssetModel, s: Seq<u8>) -> Option<
    (AssetModel, Seq<u8>),
> {
    if k == "name"@ {
        match a_text(s) {
            Some((v, t)) => Some((AssetModel { name: v, ..a }, t)),
            None => None,
        }
    } else if k == "szDecimals"@ {
        match an_int(s) {
            Some((v, t)) => Some((AssetModel { sz_decimals: v as u32, ..a }, t)),
            None => None,
        }
    } else if k == "marginTableId"@ {
        match an_int(s) {
            Some((v, t)) => Some((AssetModel { margin_table_id: v as u32, ..a }, t)),
            None => None,
        }
    } else if k == "marginMode"@ {
        match a_text(s) {
            Some((v, t)) => Some((AssetModel { margin_mode: margin_mode_of(v), ..a }, t)),
            None => None,
        }
    } else {
        skip_then(s, a)
    }
}

/// One more asset of a universe.
pub open spec fn one_asset(a: Seq<AssetModel>, s: Seq<u8>) -> Option<(Seq<AssetModel>, Seq<u8>)> {
    match in_map(
        s,
        AssetModel {
            name: Seq::empty(),
            sz_decimals: 0,
            margin_table_id: 0,
            margin_mode: MarginMode::Normal,
        },
        |k, a, s| asset_field(k, a, s),
    ) {
        Some((v, t)) => Some((a.push(v), t)),
        None => None,
    }
}

/// The assets of a dex.
pub open spec fn universe_at(s: Seq<u8>) -> Option<(Seq<AssetModel>, Seq<u8>)> {
    in_array(s, Seq::empty(), |a, s| one_asset(a, s))
}

#[verifier::loop_isolation(false)]
fn parse_asset(cur: &mut Reader) -> (r: Result<AssetMeta, MsgpackError>)
    ensures
        parsed(
            in_map(
                old(cur)@,
                AssetModel {
                    name: Seq::empty(),
                    sz_decimals: 0,
                    margin_table_id: 0,
                    margin_mode: MarginMode::Normal,
                },
                |k, a, s| asset_field(k, a, s),
            ),
            r,
            final(cur)@,
        ),
{
    let ghost f: spec_fn(Seq<char>, AssetModel, Seq<u8>) -> Option<(AssetModel, Seq<u8>)> =
        |k, a, s| asset_field(k, a, s);
    let ghost whole = in_map(
        cur@,
        AssetModel {
            name: Seq::empty(),
            sz_decimals: 0,
            margin_table_id: 0,
            margin_mode: MarginMode::Normal,
        },
        f,
    );
    let n: u32 = cur.read_map_len()?;
    let mut acc = AssetMeta {
        name: String::new(),
        sz_decimals: 0,
        margin_table_id: 0,
        margin_mode: MarginMode::Normal,
    };
    let mut i: u32 = 0;
    while i < n
        invariant
            i <= n,
            whole == fields(cur@, (n - i) as nat, acc@, f),
        decreases n - i,
    {
        let k = cur.read_str_ref()?;
        if str_eq(k, "name") {
            acc.name = cur.read_str()?;
        } else if str_eq(k, "szDecimals") {
            acc.sz_decimals = low32(cur.read_int()?);
        } else if str_eq(k, "marginTableId") {
            acc.margin_table_id = low32(cur.read_int()?);
        } else if str_eq(k, "marginMode") {
            let m = cur.read_str_ref()?;
            acc.margin_mode = if str_eq(m, "noCross") {
                MarginMode::NoCross
            } else if str_eq(m, "strictIsolated") {
                MarginMode::StrictIsolated
            } else {
                MarginMode::Normal
            };
        } else {
            cur.skip_value()?;
        }
        i = i + 1;
    }
    Ok(acc)
}

/// What the assets of a list hold.
pub open spec fn asset_views(v: Seq<AssetMeta>) -> Seq<AssetModel> {
    v.map_values(|a: AssetMeta| a@)
}

#[verifier::loop_isolation(false)]
pub(crate) fn parse_universe(cur: &mut Reader) -> (r: Result<Vec<AssetMeta>, MsgpackError>)
    ensures
        match universe_at(old(cur)@) {
            Some((v, t)) => r is Ok && asset_views(r->Ok_0@) == v && final(cur)@ == t,
            None => r is Err,
        },
{
    let ghost f: spec_fn(Seq<AssetModel>, Seq<u8>) -> Option<(Seq<AssetModel>, Seq<u8>)> = |a, s|
        one_asset(a, s);
    let ghost whole = universe_at(cur@);
    let n: u32 = cur.read_array_len()?;
    let mut acc: Vec<AssetMeta> = Vec::new();
    assert(asset_views(acc@) =~= Seq::<AssetModel>::empty());
    let mut i: u32 = 0;
    while i < n
        invariant
            i <= n,
            whole == items(cur@, (n - i) as nat, asset_views(acc@), f),
        decreases n - i,
    {
        let ghost seen = asset_views(acc@);
        let a = parse_asset(cur)?;
        acc.push(a);
        assert(asset_views(acc@) =~= seen.push(a@));
        i = i + 1;
    }
    Ok(acc)
}

/// The fields of an oracle price.
pub open spec fn price_field(k: Seq<char>, a: i64, s: Seq<u8>) -> Option<(i64, Seq<u8>)> {
    if k == "px"@ {
        an_int(s)
    } else {
        skip_then(s, a)
    }
}

/// One more oracle price: that of the first of a list of samples; zero for an empty list.
pub open spec fn one_price(a: Seq<i64>, s: Seq<u8>) -> Option<(Seq<i64>, Seq<u8>)> {
    match crate::msgpack::array_length(s) {
        Out::Good(p, t) => if p == 0 {
            Some((a.push(0), t))
        } else {
            match in_map(t, 0i64, |k, a, s| price_field(k, a, s)) {
                Some((px, u)) => skip_n_then(u, p - 1, a.push(px)),
                None => None,
            }
        },
        _ => None,
    }
}

/// The oracle prices of a dex.
pub open spec fn prices_at(s: Seq<u8>) -> Option<(Seq<i64>, Seq<u8>)> {
    in_array(s, Seq::empty(), |a, s| one_price(a, s))
}

#[verifier::loop_isolation(false)]
fn parse_price(cur: &mut Reader) -> (r: Result<i64, MsgpackError>)
    ensures
        parsed(in_map(old(cur)@, 0i64, |k, a, s| price_field(k, a, s)), r, final(cur)@),
{
    let ghost f: spec_fn(Seq<char>, i64, Seq<u8>) -> Option<(i64, Seq<u8>)> = |k, a, s|
        price_field(k, a, s);
    let ghost whole = in_map(cur@, 0i64, f);
    let n: u32 = cur.read_map_len()?;
    let mut acc: i64 = 0;
    let mut i: u32 = 0;
    while i < n
        invariant
            i <= n,
            whole == fields(cur@, (n - i) as nat, acc, f),
        decreases n - i,
    {
        let k = cur.read_str_ref()?;
        if str_eq(k, "px") {
            acc = cur.read_int()?;
        } else {
            cur.skip_value()?;
        }
        i = i + 1;
    }
    Ok(acc)
}

#[verifier::loop_isolation(false)]
pub(crate) fn parse_oracle_prices(cur: &mut Reader) -> (r: Result<Vec<i64>, MsgpackError>)
    ensures
        parsed(prices_at(old(cur)@), r, final(cur)@),
{
    let ghost f: spec_fn(Seq<i64>, Seq<u8>) -> Option<(Seq<i64>, Seq<u8>)> = |a, s|
        one_price(a, s);
    let ghost whole = prices_at(cur@);
    let n: u32 = cur.read_array_len()?;
    let mut acc: Vec<i64> = Vec::new();
    let mut i: u32 = 0;
    while i < n
        invariant
            i <= n,
            whole == items(cur@, (n - i) as nat, acc@, f),
        decreases n - i,
    {
        assert(f(acc@, cur@) == one_price(acc@, cur@));
        let p: u32 = cur.read_array_len()?;
        if p == 0 {
            acc.push(0);
        } else {
            let px: i64 = parse_price(cur)?;
            cur.skip_rest(p, 1)?;
            acc.push(px);
        }
        i = i + 1;
    }
    Ok(acc)
}

// ── Users of a dex ───────────────────────────────────────────────────────

/// What has been read of one user.
#[verifier::ext_equal]
pub struct UserFields {
    pub usdc_balance: i64,
    pub positions: Map<u32, Position>,
    pub preferences: Map<u32, Leverage>,
}

/// One more entry of a user's positions: a position, or a preference for an asset without one.
pub open spec fn one_position(a: UserFields, s: Seq<u8>) -> Option<(UserFields, Seq<u8>)> {
    match an_int(s) {
        Some((v, t)) => match position_at(t) {
            Some((p, u)) => {
                let asset = (v as u32) % 10000;
                match position_of(p) {
                    Some(pos) => Some(
                        (UserFields { positions: a.positions.insert(asset, pos), ..a }, u),
                    ),
                    None => match p.leverage {
                        Some(l) => Some(
                            (UserFields { preferences: a.preferences.insert(asset, l), ..a }, u),
                        ),
                        None => Some((a, u)),
                    },
                }
            },
            None => None,
        },
        None => None,
    }
}

/// The inner fields of a user's positions.
pub open spec fn positions_field(k: Seq<char>, a: UserFields, s: Seq<u8>) -> Option<
    (UserFields, Seq<u8>),
> {
    if k == "p"@ {
        in_array(s, a, |a, s| in_pair(s, a, |a, s| one_position(a, s)))
    } else {
        skip_then(s, a)
    }
}

/// The fields of a user: balance and positions. A balance of another type counts as zero.
pub open spec fn user_field(k: Seq<char>, a: UserFields, s: Seq<u8>) -> Option<
    (UserFields, Seq<u8>),
> {
    if k == "u"@ {
        let (v, t) = int_or_zero(s);
        Some((UserFields { usdc_balance: v, ..a }, t))
    } else if k == "p"@ {
        in_map(s, a, |k, a, s| positions_field(k, a, s))
    } else {
        skip_then(s, a)
    }
}

/// The fields of the user that stands first.
pub open spec fn user_at(s: Seq<u8>) -> Option<(UserFields, Seq<u8>)> {
    in_map(
        s,
        UserFields { usdc_balance: 0, positions: Map::empty(), preferences: Map::empty() },
        |k, a, s| user_field(k, a, s),
    )
}

/// The settings of a user with positions: the leverage of each position, and the preferences for
/// other assets.
pub open spec fn all_settings(positions: Map<u32, Position>, prefs: Map<u32, Leverage>) -> Map<
    u32,
    Leverage,
> {
    Map::new(
        |a: u32| positions.contains_key(a) || prefs.contains_key(a),
        |a: u32|
            if positions.contains_key(a) {
                positions[a].leverage
            } else {
                prefs[a]
            },
    )
}

/// The full user that the fields stand for.
pub open spec fn full_user(a: UserFields) -> UserModel {
    UserModel {
        usdc_balance: a.usdc_balance,
        spot_collateral: 0,
        spot_collateral_decimals: 8,
        account_mode: AccountMode::Standard,
        positions: a.positions,
        leverage_settings: all_settings(a.positions, a.preferences),
    }
}

/// The user without positions that the fields stand for.
pub open spec fn partial_user(a: UserFields) -> PartialModel {
    PartialModel {
        usdc_balance: a.usdc_balance,
        leverage_settings: a.preferences,
        ..PartialModel::fresh()
    }
}

/// The users of a dex, with and without positions.
#[verifier::ext_equal]
pub struct UsersModel {
    pub users: Map<Seq<char>, UserModel>,
    pub partials: Map<Seq<char>, PartialModel>,
}

/// One more user of a dex: the address and the state.
pub open spec fn one_user(a: UsersModel, s: Seq<u8>) -> Option<(UsersModel, Seq<u8>)> {
    match a_text(s) {
        Some((addr, t)) => match user_at(t) {
            Some((v, u)) => Some(
                (
                    if v.positions.dom() == Set::<u32>::empty() {
                        UsersModel { partials: a.partials.insert(addr, partial_user(v)), ..a }
                    } else {
                        UsersModel { users: a.users.insert(addr, full_user(v)), ..a }
                    },
                    u,
                ),
            ),
            None => None,
        },
        None => None,
    }
}

/// No users.
pub open spec fn no_users() -> UsersModel {
    UsersModel { users: Map::empty(), partials: Map::empty() }
}

/// The users of a dex.
pub open spec fn user_list_at(s: Seq<u8>) -> Option<(UsersModel, Seq<u8>)> {
    in_array(s, no_users(), |a, s| in_pair(s, a, |a, s| one_user(a, s)))
}

/// The users of a dex as far as they have been read: whether any user is said to have positions, and
/// the bytes of a list that came before that was known.
#[verifier::ext_equal]
pub struct UserStatesFields {
    pub some_listed: bool,
    pub found: UsersModel,
    pub deferred: Option<Seq<u8>>,
}

/// One more listed user.
pub open spec fn one_listed(a: bool, s: Seq<u8>) -> Option<(bool, Seq<u8>)> {
    match a_text(s) {
        Some((_, t)) => Some((true, t)),
        None => None,
    }
}

/// The fields of a dex's users.
pub open spec fn user_states_field(k: Seq<char>, a: UserStatesFields, s: Seq<u8>) -> Option<
    (UserStatesFields, Seq<u8>),
> {
    if k == "users_with_positions"@ {
        match in_array(s, a.some_listed, |a, s| one_listed(a, s)) {
            Some((b, t)) => Some((UserStatesFields { some_listed: b, ..a }, t)),
            None => None,
        }
    } else if k == "user_to_state"@ {
        if a.some_listed {
            match user_list_at(s) {
                Some((v, t)) => Some((UserStatesFields { found: v, ..a }, t)),
                None => None,
            }
        } else {
            match crate::msgpack::skipped(s) {
                Out::Good(_, t) => Some(
                    (
                        UserStatesFields {
                            deferred: Some(s.take(s.len() - t.len())),
                            ..a
                        },
                        t,
                    ),
                ),
                _ => None,
            }
        }
    } else {
        skip_then(s, a)
    }
}

/// The users of a dex, with a list that came early read at the end.
pub open spec fn user_states_at(s: Seq<u8>) -> Option<(UsersModel, Seq<u8>)> {
    match in_map(
        s,
        UserStatesFields { some_listed: false, found: no_users(), deferred: None },
        |k, a, s| user_states_field(k, a, s),
    ) {
        Some((a, t)) => match a.deferred {
            Some(raw) => match user_list_at(raw) {
                Some((v, _)) => Some((v, t)),
                None => None,
            },
            None => Some((a.found, t)),
        },
        None => None,
    }
}

/// What has been read of one user.
struct UserParts {
    usdc_balance: i64,
    positions: AssetMap<Position>,
    preferences: AssetMap<Leverage>,
}

impl View for UserParts {
    type V = UserFields;

    closed spec fn view(&self) -> UserFields {
        UserFields {
            usdc_balance: self.usdc_balance,
            positions: self.positions@,
            preferences: self.preferences@,
        }
    }
}

#[verifier::loop_isolation(false)]
fn parse_position_list(cur: &mut Reader, acc: &mut UserParts) -> (r: Result<(), MsgpackError>)
    ensures
        match in_array(
            old(cur)@,
            old(acc)@,
            |a, s| in_pair(s, a, |a, s| one_position(a, s)),
        ) {
            Some((v, t)) => r is Ok && final(acc)@ == v && final(cur)@ == t,
            None => r is Err,
        },
{
    let ghost g: spec_fn(UserFields, Seq<u8>) -> Option<(UserFields, Seq<u8>)> = |a, s|
        one_position(a, s);
    let ghost f: spec_fn(UserFields, Seq<u8>) -> Option<(UserFields, Seq<u8>)> = |a, s|
        in_pair(s, a, |a, s| one_position(a, s));
    let ghost whole = in_array(cur@, acc@, f);
    let n: u32 = cur.read_array_len()?;
    let mut i: u32 = 0;
    while i < n
        invariant
            i <= n,
            whole == items(cur@, (n - i) as nat, acc@, f),
        decreases n - i,
    {
        let ghost before = acc@;
        assert(f(acc@, cur@) == in_pair(cur@, acc@, g));
        let p: u32 = cur.read_array_len()?;
        if p < 2 {
            cur.skip_rest(p, 0)?;
        } else {
            let asset: u32 = low32(cur.read_int()?) % 10000;
            let (pos, pref) = parse_position(cur)?;
            if let Some(pos) = pos {
                acc.positions.insert(asset, pos);
            } else if let Some(lev) = pref {
                acc.preferences.insert(asset, lev);
            }
            cur.skip_rest(p, 2)?;
        }
        i = i + 1;
    }
    Ok(())
}

#[verifier::loop_isolation(false)]
fn parse_user_positions(cur: &mut Reader, acc: &mut UserParts) -> (r: Result<(), MsgpackError>)
    ensures
        match in_map(old(cur)@, old(acc)@, |k, a, s| positions_field(k, a, s)) {
            Some((v, t)) => r is Ok && final(acc)@ == v && final(cur)@ == t,
            None => r is Err,
        },
{
    let ghost f: spec_fn(Seq<char>, UserFields, Seq<u8>) -> Option<(UserFields, Seq<u8>)> =
        |k, a, s| positions_field(k, a, s);
    let ghost whole = in_map(cur@, acc@, f);
    let n: u32 = cur.read_map_len()?;
    let mut i: u32 = 0;
    while i < n
        invariant
            i <= n,
            whole == fields(cur@, (n - i) as nat, acc@, f),
        decreases n - i,
    {
        let k = cur.read_str_ref()?;
        if str_eq(k, "p") {
            parse_position_list(cur, acc)?;
        } else {
            cur.skip_value()?;
        }
        i = i + 1;
    }
    Ok(())
}

#[verifier::loop_isolation(false)]
fn parse_user_parts(cur: &mut Reader) -> (r: Result<UserParts, MsgpackError>)
    ensures
        parsed(user_at(old(cur)@), r, final(cur)@),
{
    let ghost f: spec_fn(Seq<char>, UserFields, Seq<u8>) -> Option<(UserFields, Seq<u8>)> =
        |k, a, s| user_field(k, a, s);
    let ghost whole = user_at(cur@);
    let n: u32 = cur.read_map_len()?;
    let mut acc = UserParts {
        usdc_balance: 0,
        positions: AssetMap::new(),
        preferences: AssetMap::new(),
    };
    let mut i: u32 = 0;
    while i < n
        invariant
            i <= n,
            whole == fields(cur@, (n - i) as nat, acc@, f),
        decreases n - i,
    {
        let k = cur.read_str_ref()?;
        if str_eq(k, "u") {
            acc.usdc_balance = cur.read_int_or_zero();
        } else if str_eq(k, "p") {
            parse_user_positions(cur, &mut acc)?;
        } else {
            cur.skip_value()?;
        }
        i = i + 1;
    }
    Ok(acc)
}

/// The settings of a user with positions.
fn merge_settings(positions: &AssetMap<Position>, preferences: AssetMap<Leverage>) -> (r: AssetMap<
    Leverage,
>)
    ensures
        r@ == all_settings(positions@, preferences@),
{
    let ghost prefs = preferences@;
    let mut r = preferences;
    let n: usize = positions.len();
    let ghost ks = positions.keys();
    let mut i: usize = 0;
    while i < n
        invariant
            i <= n == ks.len(),
            ks == positions.keys(),
            positions@.dom() == ks.to_set(),
            forall|a: u32| #[trigger]
                r@.contains_key(a) <==> prefs.contains_key(a) || ks.take(i as int).contains(a),
            forall|a: u32| #[trigger]
                r@.contains_key(a) ==> r@[a] == (if ks.take(i as int).contains(a) {
                    positions@[a].leverage
                } else {
                    prefs[a]
                }),
        decreases n - i,
    {
        let a: u32 = positions.key_at(i);
        let lev = positions.val_at(i).leverage;
        r.insert(a, lev);
        proof {
            crate::strmap::lemma_take_one(ks, i as int);
        }
        i = i + 1;
    }
    proof {
        crate::strmap::lemma_take_all(ks);
        assert(r@ =~= all_settings(positions@, prefs));
    }
    r
}

#[verifier::loop_isolation(false)]
fn parse_user_to_state(cur: &mut Reader) -> (r: Result<
    (StrMap<UserState>, StrMap<UserStatePartial>),
    MsgpackError,
>)
    ensures
        match user_list_at(old(cur)@) {
            Some((v, t)) => r is Ok && r->Ok_0.0@ == v.users && r->Ok_0.1@ == v.partials && final(
                cur
            )@ == t,
            None => r is Err,
        },
{
    let ghost g: spec_fn(UsersModel, Seq<u8>) -> Option<(UsersModel, Seq<u8>)> = |a, s|
        one_user(a, s);
    let ghost f: spec_fn(UsersModel, Seq<u8>) -> Option<(UsersModel, Seq<u8>)> = |a, s|
        in_pair(s, a, |a, s| one_user(a, s));
    let ghost whole = user_list_at(cur@);
    let n: u32 = cur.read_array_len()?;
    let mut users: StrMap<UserState> = StrMap::new();
    let mut partials: StrMap<UserStatePartial> = StrMap::new();
    let mut i: u32 = 0;
    while i < n
        invariant
            i <= n,
            whole == items(
                cur@,
                (n - i) as nat,
                UsersModel { users: users@, partials: partials@ },
                f,
            ),
        decreases n - i,
    {
        let ghost acc = UsersModel { users: users@, partials: partials@ };
        assert(f(acc, cur@) == in_pair(cur@, acc, g));
        let p: u32 = cur.read_array_len()?;
        if p < 2 {
            cur.skip_rest(p, 0)?;
        } else {
            let addr = cur.read_str()?;
            let parts = parse_user_parts(cur)?;
            cur.skip_rest(p, 2)?;
            let ghost v = parts@;
            let UserParts { usdc_balance, positions, preferences } = parts;
            let held: usize = positions.len();
            if held == 0 {
                proof {
                    assert(v.positions.dom() =~= Set::<u32>::empty());
                }
                let mut u = UserStatePartial::fresh();
                u.usdc_balance = usdc_balance;
                u.leverage_settings = preferences;
                assert(u@ == partial_user(v));
                partials.insert(addr, u);
            } else {
                proof {
                    assert(v.positions.dom().contains(positions.keys()[0]));
                }
                let settings = merge_settings(&positions, preferences);
                let u = UserState {
                    usdc_balance,
                    spot_collateral: 0,
                    spot_collateral_decimals: 8,
                    account_mode: AccountMode::Standard,
                    positions,
                    leverage_settings: settings,
                };
                assert(u@ == full_user(v));
                users.insert(addr, u);
            }
        }
        i = i + 1;
    }
    Ok((users, partials))
}

#[verifier::loop_isolation(false)]
fn parse_listed(cur: &mut Reader, some: bool) -> (r: Result<bool, MsgpackError>)
    ensures
        parsed(in_array(old(cur)@, some, |a, s| one_listed(a, s)), r, final(cur)@),
{
    let ghost f: spec_fn(bool, Seq<u8>) -> Option<(bool, Seq<u8>)> = |a, s| one_listed(a, s);
    let ghost whole = in_array(cur@, some, f);
    let n: u32 = cur.read_array_len()?;
    let mut acc = some;
    let mut i: u32 = 0;
    while i < n
        invariant
            i <= n,
            whole == items(cur@, (n - i) as nat, acc, f),
        decreases n - i,
    {
        let _ = cur.read_str_ref()?;
        acc = true;
        i = i + 1;
    }
    Ok(acc)
}

#[verifier::loop_isolation(false)]
pub(crate) fn parse_user_states(cur: &mut Reader) -> (r: Result<
    (StrMap<UserState>, StrMap<UserStatePartial>),
    MsgpackError,
>)
    ensures
        match user_states_at(old(cur)@) {
            Some((v, t)) => r is Ok && r->Ok_0.0@ == v.users && r->Ok_0.1@ == v.partials && final(
                cur
            )@ == t,
            None => r is Err,
        },
{
    let ghost f: spec_fn(Seq<char>, UserStatesFields, Seq<u8>) -> Option<
        (UserStatesFields, Seq<u8>),
    > = |k, a, s| user_states_field(k, a, s);
    let ghost whole = in_map(
        cur@,
        UserStatesFields { some_listed: false, found: no_users(), deferred: None },
        f,
    );
    let n: u32 = cur.read_map_len()?;
    let mut some = false;
    let mut users: StrMap<UserState> = StrMap::new();
    let mut partials: StrMap<UserStatePartial> = StrMap::new();
    let mut deferred: Option<&[u8]> = None;
    let mut i: u32 = 0;
    while i < n
        invariant
            i <= n,
            whole == fields(
                cur@,
                (n - i) as nat,
                UserStatesFields {
                    some_listed: some,
                    found: UsersModel { users: users@, partials: partials@ },
                    deferred: match deferred {
                        Some(d) => Some(d@),
                        None => None,
                    },
                },
                f,
            ),
        decreases n - i,
    {
        let k = cur.read_str_ref()?;
        if str_eq(k, "users_with_positions") {
            some = parse_listed(cur, some)?;
        } else if str_eq(k, "user_to_state") {
            if some {
                let (u, p) = parse_user_to_state(cur)?;
                users = u;
                partials = p;
            } else {
                let ghost s = cur@;
                let raw = cur.capture_subtree()?;
                assert(raw@ =~= s.take(s.len() - cur@.len()));
                deferred = Some(raw);
            }
        } else {
            cur.skip_value()?;
        }
        i = i + 1;
    }
    match deferred {
        Some(raw) => {
            let mut inner = Reader::new(raw);
            parse_user_to_state(&mut inner)
        },
        None => Ok((users, partials)),
    }
}

// ── Account modes ────────────────────────────────────────────────────────

/// The fields of a user's mode: the letter under "a". Where something else than a text stands there,
/// one value is skipped from behind its marker.
pub open spec fn mode_field(k: Seq<char>, a: AccountMode, s: Seq<u8>) -> Option<
    (AccountMode, Seq<u8>),
> {
    if k == "a"@ {
        match crate::msgpack::text(s) {
            Out::Good(v, t) => Some((crate::clearing_house::state::mode_of(v), t)),
            Out::Bad(t) => skip_then(t, a),
            Out::Cut => None,
        }
    } else {
        skip_then(s, a)
    }
}

/// The modes of users who are not in standard mode, and the users under portfolio margin.
#[verifier::ext_equal]
pub struct ModesModel {
    pub modes: Map<Seq<char>, AccountMode>,
    pub portfolio_margin: Map<Seq<char>, ()>,
}

/// One more user's mode.
pub open spec fn one_mode(a: ModesModel, s: Seq<u8>) -> Option<(ModesModel, Seq<u8>)> {
    match a_text(s) {
        Some((addr, t)) => match in_map(
            t,
            AccountMode::Standard,
            |k, a, s| mode_field(k, a, s),
        ) {
            Some((m, u)) => Some(
                (
                    ModesModel {
                        modes: if m is Standard {
                            a.modes
                        } else {
                            a.modes.insert(addr, m)
                        },
                        portfolio_margin: if m is PortfolioMargin {
                            a.portfolio_margin.insert(addr, ())
                        } else {
                            a.portfolio_margin
                        },
                    },
                    u,
                ),
            ),
            None => None,
        },
        None => None,
    }
}

/// The account modes.
pub open spec fn modes_at(s: Seq<u8>) -> Option<(ModesModel, Seq<u8>)> {
    in_array(
        s,
        ModesModel { modes: Map::empty(), portfolio_margin: Map::empty() },
        |a, s| in_pair(s, a, |a, s| one_mode(a, s)),
    )
}

fn mode_of_letter(v: &str) -> (m: AccountMode)
    ensures
        m == crate::clearing_house::state::mode_of(v@),
{
    if str_eq(v, "u") {
        AccountMode::Unified
    } else if str_eq(v, "d") {
        AccountMode::DexAbstraction
    } else if str_eq(v, "p") {
        AccountMode::PortfolioMargin
    } else {
        AccountMode::Standard
    }
}

#[verifier::loop_isolation(false)]
fn parse_mode(cur: &mut Reader) -> (r: Result<AccountMode, MsgpackError>)
    ensures
        parsed(
            in_map(old(cur)@, AccountMode::Standard, |k, a, s| mode_field(k, a, s)),
            r,
            final(cur)@,
        ),
{
    let ghost f: spec_fn(Seq<char>, AccountMode, Seq<u8>) -> Option<(AccountMode, Seq<u8>)> =
        |k, a, s| mode_field(k, a, s);
    let ghost whole = in_map(cur@, AccountMode::Standard, f);
    let n: u32 = cur.read_map_len()?;
    let mut acc = AccountMode::Standard;
    let mut i: u32 = 0;
    while i < n
        invariant
            i <= n,
            whole == fields(cur@, (n - i) as nat, acc, f),
        decreases n - i,
    {
        let k = cur.read_str_ref()?;
        if str_eq(k, "a") {
            match cur.read_str_ref() {
                Ok(v) => {
                    acc = mode_of_letter(v);
                },
                Err(MsgpackError::Mismatch) => {
                    cur.skip_value()?;
                },
                Err(e) => {
                    return Err(e);
                },
            }
        } else {
            cur.skip_value()?;
        }
        i = i + 1;
    }
    Ok(acc)
}

#[verifier::loop_isolation(false)]
pub(crate) fn parse_ust(cur: &mut Reader) -> (r: Result<(StrMap<AccountMode>, StrMap<()>), MsgpackError>)
    ensures
        match modes_at(old(cur)@) {
            Some((v, t)) => r is Ok && r->Ok_0.0@ == v.modes && r->Ok_0.1@ == v.portfolio_margin
                && final(cur)@ == t,
            None => r is Err,
        },
{
    let ghost g: spec_fn(ModesModel, Seq<u8>) -> Option<(ModesModel, Seq<u8>)> = |a, s|
        one_mode(a, s);
    let ghost f: spec_fn(ModesModel, Seq<u8>) -> Option<(ModesModel, Seq<u8>)> = |a, s|
        in_pair(s, a, |a, s| one_mode(a, s));
    let ghost whole = modes_at(cur@);
    let n: u32 = cur.read_array_len()?;
    let mut modes: StrMap<AccountMode> = StrMap::new();
    let mut pm: StrMap<()> = StrMap::new();
    let mut i: u32 = 0;
    while i < n
        invariant
            i <= n,
            whole == items(
                cur@,
                (n - i) as nat,
                ModesModel { modes: modes@, portfolio_margin: pm@ },
                f,
            ),
        decreases n - i,
    {
        let ghost acc = ModesModel { modes: modes@, portfolio_margin: pm@ };
        assert(f(acc, cur@) == in_pair(cur@, acc, g));
        let p: u32 = cur.read_array_len()?;
        if p < 2 {
            cur.skip_rest(p, 0)?;
        } else {
            let addr = cur.read_str()?;
            let m = parse_mode(cur)?;
            cur.skip_rest(p, 2)?;
            match m {
                AccountMode::Standard => {},
                AccountMode::PortfolioMargin => {
                    modes.insert(addr.clone(), m);
                    pm.insert(addr, ());
                },
                _ => {
                    modes.insert(addr, m);
                },
            }
        }
        i = i + 1;
    }
    Ok((modes, pm))
}

// ── Spot balances ────────────────────────────────────────────────────────

/// The fields of a balance: its total, kept where it is not zero.
pub open spec fn balance_field(token: u32, k: Seq<char>, a: Map<u32, i64>, s: Seq<u8>) -> Option<
    (Map<u32, i64>, Seq<u8>),
> {
    if k == "t"@ {
        match an_int(s) {
            Some((v, t)) => Some(
                (
                    if v != 0 {
                        a.insert(token, v)
                    } else {
                        a
                    },
                    t,
                ),
            ),
            None => None,
        }
    } else {
        skip_then(s, a)
    }
}

/// One more balance, of a token that is wanted.
pub open spec fn one_balance(wanted: Set<u32>, a: Map<u32, i64>, s: Seq<u8>) -> Option<
    (Map<u32, i64>, Seq<u8>),
> {
    match an_int(s) {
        Some((v, t)) => if wanted.contains(v as u32) {
            in_map(t, a, |k, a, s| balance_field(v as u32, k, a, s))
        } else {
            skip_then(t, a)
        },
        None => None,
    }
}

/// The balances of one user.
pub open spec fn balances_at(wanted: Set<u32>, s: Seq<u8>) -> Option<(Map<u32, i64>, Seq<u8>)> {
    in_array(s, Map::empty(), |a, s| in_pair(s, a, |a, s| one_balance(wanted, a, s)))
}

/// The fields of a user on the spot exchange.
pub open spec fn spot_user_field(
    wanted: Set<u32>,
    k: Seq<char>,
    a: Map<u32, i64>,
    s: Seq<u8>,
) -> Option<(Map<u32, i64>, Seq<u8>)> {
    if k == "b"@ {
        balances_at(wanted, s)
    } else {
        skip_then(s, a)
    }
}

/// One more user on the spot exchange, kept where a balance is.
pub open spec fn one_spot_user(
    wanted: Set<u32>,
    a: Map<Seq<char>, Map<u32, i64>>,
    s: Seq<u8>,
) -> Option<(Map<Seq<char>, Map<u32, i64>>, Seq<u8>)> {
    match a_text(s) {
        Some((addr, t)) => match in_map(
            t,
            Map::empty(),
            |k, a, s| spot_user_field(wanted, k, a, s),
        ) {
            Some((b, u)) => Some(
                (
                    if b.dom() == Set::<u32>::empty() {
                        a
                    } else {
                        a.insert(addr, b)
                    },
                    u,
                ),
            ),
            None => None,
        },
        None => None,
    }
}

/// The fields of the spot exchange.
pub open spec fn spot_field(
    wanted: Set<u32>,
    k: Seq<char>,
    a: Map<Seq<char>, Map<u32, i64>>,
    s: Seq<u8>,
) -> Option<(Map<Seq<char>, Map<u32, i64>>, Seq<u8>)> {
    if k == "user_states"@ {
        in_array(s, a, |a, s| in_pair(s, a, |a, s| one_spot_user(wanted, a, s)))
    } else {
        skip_then(s, a)
    }
}

/// The spot balances of the wanted tokens.
pub open spec fn spot_at(wanted: Set<u32>, s: Seq<u8>) -> Option<
    (Map<Seq<char>, Map<u32, i64>>, Seq<u8>),
> {
    in_map(s, Map::empty(), |k, a, s| spot_field(wanted, k, a, s))
}

#[verifier::loop_isolation(false)]
fn parse_balance(cur: &mut Reader, token: u32, acc: &mut AssetMap<i64>) -> (r: Result<
    (),
    MsgpackError,
>)
    ensures
        match in_map(old(cur)@, old(acc)@, |k, a, s| balance_field(token, k, a, s)) {
            Some((v, t)) => r is Ok && final(acc)@ == v && final(cur)@ == t,
            None => r is Err,
        },
{
    let ghost f: spec_fn(Seq<char>, Map<u32, i64>, Seq<u8>) -> Option<(Map<u32, i64>, Seq<u8>)> =
        |k, a, s| balance_field(token, k, a, s);
    let ghost whole = in_map(cur@, acc@, f);
    let n: u32 = cur.read_map_len()?;
    let mut i: u32 = 0;
    while i < n
        invariant
            i <= n,
            whole == fields(cur@, (n - i) as nat, acc@, f),
        decreases n - i,
    {
        let k = cur.read_str_ref()?;
        if str_eq(k, "t") {
            let v: i64 = cur.read_int()?;
            if v != 0 {
                acc.insert(token, v);
            }
        } else {
            cur.skip_value()?;
        }
        i = i + 1;
    }
    Ok(())
}

/// Whether the token is among the wanted ones.
fn is_wanted(wanted: &Vec<u32>, token: u32) -> (r: bool)
    ensures
        r == wanted@.to_set().contains(token),
{
    let mut i: usize = 0;
    while i < wanted.len()
        invariant
            i <= wanted@.len(),
            forall|j: int| 0 <= j < i ==> wanted@[j] != token,
        decreases wanted@.len() - i,
    {
        if wanted[i] == token {
            assert(wanted@.contains(token));
            return true;
        }
        i = i + 1;
    }
    false
}

#[verifier::loop_isolation(false)]
fn parse_spot_balances(cur: &mut Reader, wanted: &Vec<u32>) -> (r: Result<
    AssetMap<i64>,
    MsgpackError,
>)
    ensures
        parsed(balances_at(wanted@.to_set(), old(cur)@), r, final(cur)@),
{
    let ghost w = wanted@.to_set();
    let ghost g: spec_fn(Map<u32, i64>, Seq<u8>) -> Option<(Map<u32, i64>, Seq<u8>)> = |a, s|
        one_balance(w, a, s);
    let ghost f: spec_fn(Map<u32, i64>, Seq<u8>) -> Option<(Map<u32, i64>, Seq<u8>)> = |a, s|
        in_pair(s, a, |a, s| one_balance(w, a, s));
    let ghost whole = balances_at(w, cur@);
    let n: u32 = cur.read_array_len()?;
    let mut acc: AssetMap<i64> = AssetMap::new();
    let mut i: u32 = 0;
    while i < n
        invariant
            i <= n,
            whole == items(cur@, (n - i) as nat, acc@, f),
        decreases n - i,
    {
        assert(f(acc@, cur@) == in_pair(cur@, acc@, g));
        let p: u32 = cur.read_array_len()?;
        if p < 2 {
            cur.skip_rest(p, 0)?;
        } else {
            let token: u32 = low32(cur.read_int()?);
            if is_wanted(wanted, token) {
                parse_balance(cur, token, &mut acc)?;
            } else {
                cur.skip_value()?;
            }
            cur.skip_rest(p, 2)?;
        }
        i = i + 1;
    }
    Ok(acc)
}

#[verifier::loop_isolation(false)]
fn parse_spot_user(cur: &mut Reader, wanted: &Vec<u32>) -> (r: Result<AssetMap<i64>, MsgpackError>)
    ensures
        parsed(
            in_map(
                old(cur)@,
                Map::<u32, i64>::empty(),
                |k, a, s| spot_user_field(wanted@.to_set(), k, a, s),
            ),
            r,
            final(cur)@,
        ),
{
    let ghost w = wanted@.to_set();
    let ghost f: spec_fn(Seq<char>, Map<u32, i64>, Seq<u8>) -> Option<(Map<u32, i64>, Seq<u8>)> =
        |k, a, s| spot_user_field(w, k, a, s);
    let ghost whole = in_map(cur@, Map::<u32, i64>::empty(), f);
    let n: u32 = cur.read_map_len()?;
    let mut acc: AssetMap<i64> = AssetMap::new();
    let mut i: u32 = 0;
    while i < n
        invariant
            i <= n,
            whole == fields(cur@, (n - i) as nat, acc@, f),
        decreases n - i,
    {
        let k = cur.read_str_ref()?;
        if str_eq(k, "b") {
            acc = parse_spot_balances(cur, wanted)?;
        } else {
            cur.skip_value()?;
        }
        i = i + 1;
    }
    Ok(acc)
}

#[verifier::loop_isolation(false)]
fn parse_spot_users(
    cur: &mut Reader,
    wanted: &Vec<u32>,
    acc: &mut StrMap<AssetMap<i64>>,
) -> (r: Result<(), MsgpackError>)
    ensures
        match in_array(
            old(cur)@,
            old(acc)@,
            |a, s| in_pair(s, a, |a, s| one_spot_user(wanted@.to_set(), a, s)),
        ) {
            Some((v, t)) => r is Ok && final(acc)@ == v && final(cur)@ == t,
            None => r is Err,
        },
{
    let ghost w = wanted@.to_set();
    let ghost g: spec_fn(Map<Seq<char>, Map<u32, i64>>, Seq<u8>) -> Option<
        (Map<Seq<char>, Map<u32, i64>>, Seq<u8>),
    > = |a, s| one_spot_user(w, a, s);
    let ghost f: spec_fn(Map<Seq<char>, Map<u32, i64>>, Seq<u8>) -> Option<
        (Map<Seq<char>, Map<u32, i64>>, Seq<u8>),
    > = |a, s| in_pair(s, a, |a, s| one_spot_user(w, a, s));
    let ghost whole = in_array(cur@, acc@, f);
    let n: u32 = cur.read_array_len()?;
    let mut i: u32 = 0;
    while i < n
        invariant
            i <= n,
            whole == items(cur@, (n - i) as nat, acc@, f),
        decreases n - i,
    {
        assert(f(acc@, cur@) == in_pair(cur@, acc@, g));
        let p: u32 = cur.read_array_len()?;
        if p < 2 {
            cur.skip_rest(p, 0)?;
        } else {
            let addr = cur.read_str()?;
            let b = parse_spot_user(cur, wanted)?;
            cur.skip_rest(p, 2)?;
            let held: usize = b.len();
            if held > 0 {
                assert(b@.dom().contains(b.keys()[0]));
                acc.insert(addr, b);
            } else {
                assert(b@.dom() =~= Set::<u32>::empty());
            }
        }
        i = i + 1;
    }
    Ok(())
}

#[verifier::loop_isolation(false)]
pub(crate) fn parse_scl_balances(cur: &mut Reader, wanted: &Vec<u32>) -> (r: Result<
    StrMap<AssetMap<i64>>,
    MsgpackError,
>)
    ensures
        parsed(spot_at(wanted@.to_set(), old(cur)@), r, final(cur)@),
{
    let ghost w = wanted@.to_set();
    let ghost f: spec_fn(Seq<char>, Map<Seq<char>, Map<u32, i64>>, Seq<u8>) -> Option<
        (Map<Seq<char>, Map<u32, i64>>, Seq<u8>),
    > = |k, a, s| spot_field(w, k, a, s);
    let ghost whole = spot_at(w, cur@);
    let n: u32 = cur.read_map_len()?;
    let mut acc: StrMap<AssetMap<i64>> = StrMap::new();
    let mut i: u32 = 0;
    while i < n
        invariant
            i <= n,
            whole == fields(cur@, (n - i) as nat, acc@, f),
        decreases n - i,
    {
        let k = cur.read_str_ref()?;
        if str_eq(k, "user_states") {
            parse_spot_users(cur, wanted, &mut acc)?;
        } else {
            cur.skip_value()?;
        }
        i = i + 1;
    }
    Ok(acc)
}

} // verus!

//! A report on what a snapshot holds of chosen users, each value written out as it stands.
use crate::clearing_house::notes::{blank, Notes};
use crate::clearing_house::rmp_streaming as walk;
use crate::clearing_house::rmp_streaming::root::SnapshotError;
use crate::msgpack::{MsgpackError, Out, Reader};
use crate::strmap::StrMap;
use crate::text::{push_char, push_decimal, push_signed, push_text, str_eq, to_lowercase};
use vstd::prelude::*;

verus! {

// ── Writing a value out, mathematically ──────────────────────────────────

/// A float of four bytes, given by its bits, as text.
pub uninterp spec fn single_shown(bits: nat) -> Seq<char>;

/// A float of eight bytes, given by its bits, as text.
pub uninterp spec fn double_shown(bits: nat) -> Seq<char>;

/// A text in double quotes, with what is special in it escaped.
pub uninterp spec fn debug_shown(text: Seq<char>) -> Seq<char>;

/// The number of length bytes behind the marker of raw bytes or of an extension.
pub open spec fn length_bytes(b: u8) -> int {
    if b == 0xc4 || b == 0xc7 {
        1
    } else if b == 0xc5 || b == 0xc8 {
        2
    } else if b == 0xc6 || b == 0xc9 {
        4
    } else {
        0
    }
}

/// Whether the marker is one of an extension.
pub open spec fn is_ext(b: u8) -> bool {
    0xc7 <= b <= 0xc9 || 0xd4 <= b <= 0xd8
}

/// Whether the marker is one of an integer.
pub open spec fn is_int(b: u8) -> bool {
    b <= 0x7f || b >= 0xe0 || 0xcc <= b <= 0xcf || 0xd0 <= b <= 0xd3
}

/// Whether the marker is one of an array.
pub open spec fn is_array(b: u8) -> bool {
    0x90 <= b <= 0x9f || b == 0xdc || b == 0xdd
}

/// Whether the marker is one of a map.
pub open spec fn is_map(b: u8) -> bool {
    0x80 <= b <= 0x8f || b == 0xde || b == 0xdf
}

/// Null or a truth value, written out, and the bytes behind it.
pub open spec fn constant_shown(s: Seq<u8>) -> Option<(Seq<char>, Seq<u8>)> {
    Some(
        (
            if s[0] == 0xc0 {
                "null"@
            } else if s[0] == 0xc3 {
                "true"@
            } else {
                "false"@
            },
            s.skip(1),
        ),
    )
}

/// An integer, written out, and the bytes behind it.
pub open spec fn int_shown(s: Seq<u8>) -> Option<(Seq<char>, Seq<u8>)> {
    if s[0] == 0xcf {
        match crate::msgpack::number(s, 8) {
            Out::Good(n, t) => Some((crate::text::decimal_text(n), t)),
            _ => None,
        }
    } else {
        match walk::an_int(s) {
            Some((v, t)) => Some((crate::text::signed_text(v as int), t)),
            None => None,
        }
    }
}

/// A float, written out, and the bytes behind it.
pub open spec fn float_shown(s: Seq<u8>) -> Option<(Seq<char>, Seq<u8>)> {
    if s[0] == 0xca {
        match crate::msgpack::number(s, 4) {
            Out::Good(n, t) => Some((single_shown(n), t)),
            _ => None,
        }
    } else {
        match crate::msgpack::number(s, 8) {
            Out::Good(n, t) => Some((double_shown(n), t)),
            _ => None,
        }
    }
}

/// Raw bytes, written out as their number, and the bytes behind them.
pub open spec fn bin_shown(s: Seq<u8>) -> Option<(Seq<char>, Seq<u8>)> {
    match crate::msgpack::skipped(s) {
        Out::Good(_, t) => Some(
            (
                "<bin len="@ + crate::text::decimal_text(
                    (s.len() - t.len() - 1 - length_bytes(s[0])) as nat,
                ) + ">"@,
                t,
            ),
        ),
        _ => None,
    }
}

/// An extension, written out as its type and the number of its bytes, and the bytes behind it.
pub open spec fn ext_shown(s: Seq<u8>) -> Option<(Seq<char>, Seq<u8>)> {
    match crate::msgpack::skipped(s) {
        Out::Good(_, t) => Some(
            (
                "<ext type="@ + crate::text::signed_text(
                    crate::msgpack::signed(s[1 + length_bytes(s[0])] as nat, 0x80),
                ) + " len="@ + crate::text::decimal_text(
                    (s.len() - t.len() - 2 - length_bytes(s[0])) as nat,
                ) + ">"@,
                t,
            ),
        ),
        _ => None,
    }
}

/// A text, written out, and the bytes behind it.
pub open spec fn text_shown(s: Seq<u8>) -> Option<(Seq<char>, Seq<u8>)> {
    match walk::a_text(s) {
        Some((v, t)) => Some((debug_shown(v), t)),
        None => None,
    }
}

/// A value written out, and the bytes behind it; `None` where the data is not of the right form.
pub open spec fn shown(s: Seq<u8>) -> Option<(Seq<char>, Seq<u8>)>
    decreases s.len(), 0int,
{
    if s.len() == 0 {
        None
    } else if is_array(s[0]) {
        match crate::msgpack::array_length(s) {
            Out::Good(n, t) => if t.len() < s.len() {
                match items_shown(t, 0, n, "["@) {
                    Some((v, u)) => Some((v + "]"@, u)),
                    None => None,
                }
            } else {
                None
            },
            _ => None,
        }
    } else if is_map(s[0]) {
        match crate::msgpack::map_length(s) {
            Out::Good(n, t) => if t.len() < s.len() {
                match entries_shown(t, 0, n, "{"@) {
                    Some((v, u)) => Some((v + "}"@, u)),
                    None => None,
                }
            } else {
                None
            },
            _ => None,
        }
    } else if s[0] == 0xc0 || s[0] == 0xc2 || s[0] == 0xc3 {
        constant_shown(s)
    } else if is_int(s[0]) {
        int_shown(s)
    } else if s[0] == 0xca || s[0] == 0xcb {
        float_shown(s)
    } else if 0xc4 <= s[0] <= 0xc6 {
        bin_shown(s)
    } else if is_ext(s[0]) {
        ext_shown(s)
    } else {
        text_shown(s)
    }
}

/// The text so far, with a comma where it is not the first item that follows.
pub open spec fn separated(acc: Seq<char>, i: nat) -> Seq<char> {
    if i == 0 {
        acc
    } else {
        acc + ", "@
    }
}

/// The text so far, with the items from `i` up to `n` behind it.
pub open spec fn items_shown(s: Seq<u8>, i: nat, n: nat, acc: Seq<char>) -> Option<
    (Seq<char>, Seq<u8>),
>
    decreases s.len(), n - i + 1,
{
    if i >= n {
        Some((acc, s))
    } else {
        match shown(s) {
            Some((v, t)) => if t.len() < s.len() {
                items_shown(t, i + 1, n, separated(acc, i) + v)
            } else {
                None
            },
            None => None,
        }
    }
}

/// The text so far, with the entries from `i` up to `n` behind it.
pub open spec fn entries_shown(s: Seq<u8>, i: nat, n: nat, acc: Seq<char>) -> Option<
    (Seq<char>, Seq<u8>),
>
    decreases s.len(), n - i + 1,
{
    if i >= n {
        Some((acc, s))
    } else {
        match shown(s) {
            Some((k, t)) => if t.len() < s.len() {
                match shown(t) {
                    Some((v, u)) => if u.len() < t.len() {
                        entries_shown(u, i + 1, n, separated(acc, i) + k + ": "@ + v)
                    } else {
                        None
                    },
                    None => None,
                }
            } else {
                None
            },
            None => None,
        }
    }
}

// ── Writing a value out ──────────────────────────────────────────────────

/// Calls `rmp::decode::read_f32` on data that starts with a float of four bytes, and `to_string` on
/// what it gives. The result is named `single_shown`.
#[verifier::external_body]
fn single_text(data: &[u8]) -> (r: String)
    requires
        data@.len() >= 5,
        data@[0] == 0xca,
    ensures
        r@ == single_shown(crate::msgpack::be(data@.skip(1), 4)),
{
    let mut cur = data;
    rmp::decode::read_f32(&mut cur).map(|v| v.to_string()).unwrap_or_default()
}

/// Calls `rmp::decode::read_f64` on data that starts with a float of eight bytes, and `to_string` on
/// what it gives. The result is named `double_shown`.
#[verifier::external_body]
fn double_text(data: &[u8]) -> (r: String)
    requires
        data@.len() >= 9,
        data@[0] == 0xcb,
    ensures
        r@ == double_shown(crate::msgpack::be(data@.skip(1), 8)),
{
    let mut cur = data;
    rmp::decode::read_f64(&mut cur).map(|v| v.to_string()).unwrap_or_default()
}

/// Writes a text with the `Debug` of `str` from std: in double quotes, escaped. The result is named
/// `debug_shown`; what is escaped, and how, is not stated.
#[verifier::external_body]
fn debug_text(s: &str) -> (r: String)
    ensures
        r@ == debug_shown(s@),
{
    format!("{s:?}")
}

/// A number of eight bytes is below two to the power of 64.
proof fn lemma_be8(s: Seq<u8>)
    ensures
        crate::msgpack::be(s, 8) < 0x1_0000_0000_0000_0000,
{
    reveal_with_fuel(crate::msgpack::be, 9);
}

/// Whether a value was written out behind the text as the bytes ask for.
spec fn wrote(
    o: Option<(Seq<char>, Seq<u8>)>,
    before: Seq<char>,
    len: nat,
    r: Result<(), MsgpackError>,
    after: Seq<char>,
    rest: Seq<u8>,
) -> bool {
    match o {
        Some((v, t)) => r is Ok && after == before + v && rest == t && t.len() < len,
        None => r is Err,
    }
}

fn render_constant(cur: &mut Reader, out: &mut String) -> (r: Result<(), MsgpackError>)
    requires
        old(cur)@.len() > 0,
        old(cur)@[0] == 0xc0 || old(cur)@[0] == 0xc2 || old(cur)@[0] == 0xc3,
    ensures
        wrote(
            constant_shown(old(cur)@),
            old(out)@,
            old(cur)@.len(),
            r,
            final(out)@,
            final(cur)@,
        ),
{
    let ghost s = cur@;
    let b: u8 = cur.rest[0];
    cur.skip_value()?;
    assert(cur@ =~= s.skip(1));
    if b == 0xc0 {
        push_text(out, "null");
    } else if b == 0xc3 {
        push_text(out, "true");
    } else {
        push_text(out, "false");
    }
    Ok(())
}

fn render_int(cur: &mut Reader, out: &mut String) -> (r: Result<(), MsgpackError>)
    requires
        old(cur)@.len() > 0,
        is_int(old(cur)@[0]),
    ensures
        wrote(int_shown(old(cur)@), old(out)@, old(cur)@.len(), r, final(out)@, final(cur)@),
{
    let ghost s = cur@;
    let b: u8 = cur.rest[0];
    let v: i64 = cur.read_int()?;
    if b == 0xcf {
        proof {
            lemma_be8(s.skip(1));
        }
        let n: u64 = if v >= 0 {
            v as u64
        } else {
            (v as i128 + 0x1_0000_0000_0000_0000) as u64
        };
        push_decimal(out, n);
    } else {
        push_signed(out, v);
    }
    Ok(())
}

fn render_float(cur: &mut Reader, out: &mut String) -> (r: Result<(), MsgpackError>)
    requires
        old(cur)@.len() > 0,
        old(cur)@[0] == 0xca || old(cur)@[0] == 0xcb,
    ensures
        wrote(float_shown(old(cur)@), old(out)@, old(cur)@.len(), r, final(out)@, final(cur)@),
{
    let data = cur.rest;
    cur.read_float()?;
    if data[0] == 0xca {
        let t = single_text(data);
        push_text(out, t.as_str());
    } else {
        let t = double_text(data);
        push_text(out, t.as_str());
    }
    Ok(())
}

fn length_size(b: u8) -> (k: usize)
    ensures
        k == length_bytes(b),
{
    if b == 0xc4 || b == 0xc7 {
        1
    } else if b == 0xc5 || b == 0xc8 {
        2
    } else if b == 0xc6 || b == 0xc9 {
        4
    } else {
        0
    }
}

fn render_bin(cur: &mut Reader, out: &mut String) -> (r: Result<(), MsgpackError>)
    requires
        old(cur)@.len() > 0,
        0xc4 <= old(cur)@[0] <= 0xc6,
    ensures
        wrote(bin_shown(old(cur)@), old(out)@, old(cur)@.len(), r, final(out)@, final(cur)@),
{
    let ghost s = cur@;
    let ghost before = out@;
    let data = cur.rest;
    cur.skip_value()?;
    let k: usize = length_size(data[0]);
    let n: usize = data.len() - cur.rest.len() - 1 - k;
    push_text(out, "<bin len=");
    push_decimal(out, n as u64);
    push_text(out, ">");
    assert(out@ =~= before + ("<bin len="@ + crate::text::decimal_text(n as nat) + ">"@));
    Ok(())
}

fn render_ext(cur: &mut Reader, out: &mut String) -> (r: Result<(), MsgpackError>)
    requires
        old(cur)@.len() > 0,
        is_ext(old(cur)@[0]),
    ensures
        wrote(ext_shown(old(cur)@), old(out)@, old(cur)@.len(), r, final(out)@, final(cur)@),
{
    let ghost s = cur@;
    let ghost before = out@;
    let data = cur.rest;
    cur.skip_value()?;
    let k: usize = length_size(data[0]);
    let n: usize = data.len() - cur.rest.len() - 2 - k;
    let kind: u8 = data[1 + k];
    let signed: i64 = if kind < 0x80 {
        kind as i64
    } else {
        kind as i64 - 0x100
    };
    push_text(out, "<ext type=");
    push_signed(out, signed);
    push_text(out, " len=");
    push_decimal(out, n as u64);
    push_text(out, ">");
    assert(out@ =~= before + ("<ext type="@ + crate::text::signed_text(signed as int) + " len="@
        + crate::text::decimal_text(n as nat) + ">"@));
    Ok(())
}

fn render_string(cur: &mut Reader, out: &mut String) -> (r: Result<(), MsgpackError>)
    ensures
        wrote(text_shown(old(cur)@), old(out)@, old(cur)@.len(), r, final(out)@, final(cur)@),
{
    let v = cur.read_str_ref()?;
    let t = debug_text(v);
    push_text(out, t.as_str());
    Ok(())
}

/// Writes out the items of an array, behind a text that has begun.
#[verifier::loop_isolation(false)]
fn render_array(cur: &mut Reader, n: u32, out: &mut String) -> (r: Result<(), MsgpackError>)
    ensures
        match items_shown(old(cur)@, 0, n as nat, old(out)@) {
            Some((v, t)) => r is Ok && final(out)@ == v && final(cur)@ == t && t.len() <= old(
                cur
            )@.len(),
            None => r is Err,
        },
    decreases old(cur)@.len(), 1int,
{
    let ghost s = cur@;
    let ghost whole = items_shown(cur@, 0, n as nat, out@);
    let mut i: u32 = 0;
    while i < n
        invariant
            i <= n,
            cur@.len() <= s.len(),
            whole == items_shown(cur@, i as nat, n as nat, out@),
        decreases n - i,
    {
        let ghost held = out@;
        if i > 0 {
            push_text(out, ", ");
        }
        assert(out@ == separated(held, i as nat));
        render_value(cur, out)?;
        i = i + 1;
    }
    Ok(())
}

/// Writes out the entries of a map, behind a text that has begun.
#[verifier::loop_isolation(false)]
fn render_map(cur: &mut Reader, n: u32, out: &mut String) -> (r: Result<(), MsgpackError>)
    ensures
        match entries_shown(old(cur)@, 0, n as nat, old(out)@) {
            Some((v, t)) => r is Ok && final(out)@ == v && final(cur)@ == t && t.len() <= old(
                cur
            )@.len(),
            None => r is Err,
        },
    decreases old(cur)@.len(), 1int,
{
    let ghost s = cur@;
    let ghost whole = entries_shown(cur@, 0, n as nat, out@);
    let mut i: u32 = 0;
    while i < n
        invariant
            i <= n,
            cur@.len() <= s.len(),
            whole == entries_shown(cur@, i as nat, n as nat, out@),
        decreases n - i,
    {
        let ghost held = out@;
        if i > 0 {
            push_text(out, ", ");
        }
        assert(out@ == separated(held, i as nat));
        render_value(cur, out)?;
        push_text(out, ": ");
        render_value(cur, out)?;
        i = i + 1;
    }
    Ok(())
}

/// What is written behind a text does not depend on the text.
proof fn lemma_items_behind(s: Seq<u8>, i: nat, n: nat, base: Seq<char>, acc: Seq<char>)
    ensures
        items_shown(s, i, n, base + acc) == (match items_shown(s, i, n, acc) {
            Some((v, t)) => Some((base + v, t)),
            None => None,
        }),
    decreases s.len(), n - i,
{
    if i < n {
        if let Some((v, t)) = shown(s) {
            assert(separated(base + acc, i) + v =~= base + (separated(acc, i) + v));
            if t.len() < s.len() {
                lemma_items_behind(t, i + 1, n, base, separated(acc, i) + v);
            }
        }
    }
}

proof fn lemma_entries_behind(s: Seq<u8>, i: nat, n: nat, base: Seq<char>, acc: Seq<char>)
    ensures
        entries_shown(s, i, n, base + acc) == (match entries_shown(s, i, n, acc) {
            Some((v, t)) => Some((base + v, t)),
            None => None,
        }),
    decreases s.len(), n - i,
{
    if i < n {
        if let Some((k, t)) = shown(s) {
            if let Some((v, u)) = shown(t) {
                assert(separated(base + acc, i) + k + ": "@ + v =~= base + (separated(acc, i) + k
                    + ": "@ + v));
                if t.len() < s.len() && u.len() < t.len() {
                    lemma_entries_behind(u, i + 1, n, base, separated(acc, i) + k + ": "@ + v);
                }
            }
        }
    }
}

/// Writes out the value that stands first.
fn render_value(cur: &mut Reader, out: &mut String) -> (r: Result<(), MsgpackError>)
    ensures
        wrote(shown(old(cur)@), old(out)@, old(cur)@.len(), r, final(out)@, final(cur)@),
    decreases old(cur)@.len(), 0int,
{
    let ghost base = out@;
    let b: u8 = match cur.peek_marker() {
        Some(b) => b,
        None => {
            return Err(MsgpackError::CutShort);
        },
    };
    if (0x90 <= b && b <= 0x9f) || b == 0xdc || b == 0xdd {
        let n: u32 = cur.read_array_len()?;
        push_text(out, "[");
        let ghost t = cur@;
        proof {
            lemma_items_behind(t, 0, n as nat, base, "["@);
        }
        render_array(cur, n, out)?;
        push_text(out, "]");
        proof {
            let v = items_shown(t, 0, n as nat, "["@)->Some_0.0;
            assert(out@ =~= base + (v + "]"@));
        }
        Ok(())
    } else if (0x80 <= b && b <= 0x8f) || b == 0xde || b == 0xdf {
        let n: u32 = cur.read_map_len()?;
        push_text(out, "{");
        let ghost t = cur@;
        proof {
            lemma_entries_behind(t, 0, n as nat, base, "{"@);
        }
        render_map(cur, n, out)?;
        push_text(out, "}");
        proof {
            let v = entries_shown(t, 0, n as nat, "{"@)->Some_0.0;
            assert(out@ =~= base + (v + "}"@));
        }
        Ok(())
    } else if b == 0xc0 || b == 0xc2 || b == 0xc3 {
        render_constant(cur, out)
    } else if b <= 0x7f || b >= 0xe0 || (0xcc <= b && b <= 0xd3) {
        render_int(cur, out)
    } else if b == 0xca || b == 0xcb {
        render_float(cur, out)
    } else if 0xc4 <= b && b <= 0xc6 {
        render_bin(cur, out)
    } else if (0xc7 <= b && b <= 0xc9) || (0xd4 <= b && b <= 0xd8) {
        render_ext(cur, out)
    } else {
        render_string(cur, out)
    }
}

// ── What is noted of each user, mathematically ───────────────────────────

/// One more user: where notes are taken of them, what stands of them is written out behind a
/// heading. The heading is `yes` for users in `listed` and `no` for others.
pub open spec fn one_noted(
    listed: Map<Seq<char>, ()>,
    yes: Seq<char>,
    no: Seq<char>,
    a: Map<Seq<char>, Seq<Seq<char>>>,
    s: Seq<u8>,
) -> Option<(Map<Seq<char>, Seq<Seq<char>>>, Seq<u8>)> {
    match walk::a_text(s) {
        Some((addr, t)) => {
            let u = crate::text::lowercase(addr);
            if a.contains_key(u) {
                match crate::msgpack::skipped(t) {
                    Out::Good(_, w) => match shown(t.take(t.len() - w.len())) {
                        Some((v, _)) => Some(
                            (
                                a.insert(
                                    u,
                                    a[u].push(
                                        (if listed.contains_key(u) {
                                            yes
                                        } else {
                                            no
                                        }) + v,
                                    ),
                                ),
                                w,
                            ),
                        ),
                        None => None,
                    },
                    _ => None,
                }
            } else {
                walk::skip_then(t, a)
            }
        },
        None => None,
    }
}

/// What is noted of the users in a list.
pub open spec fn noted(
    listed: Map<Seq<char>, ()>,
    yes: Seq<char>,
    no: Seq<char>,
    a: Map<Seq<char>, Seq<Seq<char>>>,
    s: Seq<u8>,
) -> Option<(Map<Seq<char>, Seq<Seq<char>>>, Seq<u8>)> {
    walk::in_array(s, a, |a, s| walk::in_pair(s, a, |a, s| one_noted(listed, yes, no, a, s)))
}

/// The users of a dex as far as they have been read.
#[verifier::ext_equal]
pub struct DebugUsers {
    pub listed: Map<Seq<char>, ()>,
    pub notes: Map<Seq<char>, Seq<Seq<char>>>,
    pub deferred: Option<Seq<u8>>,
}

/// One more user that is said to have positions.
pub open spec fn one_with_positions(a: Map<Seq<char>, ()>, s: Seq<u8>) -> Option<
    (Map<Seq<char>, ()>, Seq<u8>),
> {
    match walk::a_text(s) {
        Some((u, t)) => Some((a.insert(crate::text::lowercase(u), ()), t)),
        None => None,
    }
}

/// The heading of what stands of a user in a dex.
pub open spec fn dex_heading(di: nat, pdi: u32, with_positions: bool) -> Seq<char> {
    "  locus.cls["@ + crate::text::decimal_text(di) + "] pdi="@ + crate::text::decimal_text(
        pdi as nat,
    ) + " users_with_positions="@ + (if with_positions {
        "true"@
    } else {
        "false"@
    }) + " user_to_state="@
}

/// The fields of a dex's users.
pub open spec fn debug_users_field(
    di: nat,
    pdi: u32,
    k: Seq<char>,
    a: DebugUsers,
    s: Seq<u8>,
) -> Option<(DebugUsers, Seq<u8>)> {
    if k == "users_with_positions"@ {
        match walk::in_array(s, a.listed, |a, s| one_with_positions(a, s)) {
            Some((v, t)) => Some((DebugUsers { listed: v, ..a }, t)),
            None => None,
        }
    } else if k == "user_to_state"@ {
        if a.listed == Map::<Seq<char>, ()>::empty() {
            match crate::msgpack::skipped(s) {
                Out::Good(_, t) => Some(
                    (DebugUsers { deferred: Some(s.take(s.len() - t.len())), ..a }, t),
                ),
                _ => None,
            }
        } else {
            match noted(
                a.listed,
                dex_heading(di, pdi, true),
                dex_heading(di, pdi, false),
                a.notes,
                s,
            ) {
                Some((v, t)) => Some((DebugUsers { notes: v, ..a }, t)),
                None => None,
            }
        }
    } else {
        walk::skip_then(s, a)
    }
}

/// What is noted of the users of a dex, with a list that came early read at the end.
pub open spec fn dex_users_noted(
    di: nat,
    pdi: u32,
    a: Map<Seq<char>, Seq<Seq<char>>>,
    s: Seq<u8>,
) -> Option<Map<Seq<char>, Seq<Seq<char>>>> {
    match walk::in_map(
        s,
        DebugUsers { listed: Map::empty(), notes: a, deferred: None },
        |k, a, s| debug_users_field(di, pdi, k, a, s),
    ) {
        Some((d, _)) => match d.deferred {
            Some(raw) => match noted(
                d.listed,
                dex_heading(di, pdi, true),
                dex_heading(di, pdi, false),
                d.notes,
                raw,
            ) {
                Some((v, _)) => Some(v),
                None => None,
            },
            None => Some(d.notes),
        },
        None => None,
    }
}

/// The pdi of a dex, and the bytes of its users, as far as they have been read.
#[verifier::ext_equal]
pub struct DebugDex {
    pub pdi: u32,
    pub users: Option<Seq<u8>>,
}

/// The fields of a dex's market: the pdi.
pub open spec fn debug_meta_field(k: Seq<char>, a: DebugDex, s: Seq<u8>) -> Option<
    (DebugDex, Seq<u8>),
> {
    if k == "pdi"@ {
        match walk::an_int(s) {
            Some((v, t)) => Some((DebugDex { pdi: v as u32, ..a }, t)),
            None => None,
        }
    } else {
        walk::skip_then(s, a)
    }
}

/// The fields of a dex.
pub open spec fn debug_dex_field(k: Seq<char>, a: DebugDex, s: Seq<u8>) -> Option<
    (DebugDex, Seq<u8>),
> {
    if k == "meta"@ {
        walk::in_map(s, a, |k, a, s| debug_meta_field(k, a, s))
    } else if k == "user_states"@ {
        match crate::msgpack::skipped(s) {
            Out::Good(_, t) => Some(
                (DebugDex { users: Some(s.take(s.len() - t.len())), ..a }, t),
            ),
            _ => None,
        }
    } else {
        walk::skip_then(s, a)
    }
}

/// What is noted of the users of the dex that stands first.
pub open spec fn dex_noted(
    di: nat,
    a: Map<Seq<char>, Seq<Seq<char>>>,
    s: Seq<u8>,
) -> Option<(Map<Seq<char>, Seq<Seq<char>>>, Seq<u8>)> {
    match walk::in_map(
        s,
        DebugDex { pdi: 0, users: None },
        |k, a, s| debug_dex_field(k, a, s),
    ) {
        Some((d, t)) => match d.users {
            Some(raw) => match dex_users_noted(di, d.pdi, a, raw) {
                Some(v) => Some((v, t)),
                None => None,
            },
            None => Some((a, t)),
        },
        None => None,
    }
}

/// What is noted in the next `n` dexes, the first of which has the number `di`.
pub open spec fn dexes_noted(
    s: Seq<u8>,
    di: nat,
    n: nat,
    a: Map<Seq<char>, Seq<Seq<char>>>,
) -> Option<(Map<Seq<char>, Seq<Seq<char>>>, Seq<u8>)>
    decreases n,
{
    if n == 0 {
        Some((a, s))
    } else {
        match dex_noted(di, a, s) {
            Some((v, t)) => dexes_noted(t, di + 1, (n - 1) as nat, v),
            None => None,
        }
    }
}

/// The fields of the spot exchange.
pub open spec fn debug_spot_field(
    k: Seq<char>,
    a: Map<Seq<char>, Seq<Seq<char>>>,
    s: Seq<u8>,
) -> Option<(Map<Seq<char>, Seq<Seq<char>>>, Seq<u8>)> {
    if k == "user_states"@ {
        noted(
            Map::empty(),
            "  locus.scl.user_states="@,
            "  locus.scl.user_states="@,
            a,
            s,
        )
    } else {
        walk::skip_then(s, a)
    }
}

/// The fields of the ledger.
pub open spec fn debug_locus_field(
    k: Seq<char>,
    a: Map<Seq<char>, Seq<Seq<char>>>,
    s: Seq<u8>,
) -> Option<(Map<Seq<char>, Seq<Seq<char>>>, Seq<u8>)> {
    if k == "cls"@ {
        match crate::msgpack::array_length(s) {
            Out::Good(n, t) => dexes_noted(t, 0, n, a),
            _ => None,
        }
    } else if k == "ust"@ {
        noted(Map::empty(), "  locus.ust="@, "  locus.ust="@, a, s)
    } else if k == "scl"@ {
        walk::in_map(s, a, |k, a, s| debug_spot_field(k, a, s))
    } else {
        walk::skip_then(s, a)
    }
}

/// The heading of what stands of a user in an order book.
pub open spec fn book_heading(di: nat, bi: nat) -> Seq<char> {
    "  perp_dexs["@ + crate::text::decimal_text(di) + "].books["@ + crate::text::decimal_text(bi)
        + "].user_states="@
}

/// The fields of an order book.
pub open spec fn debug_book_field(
    di: nat,
    bi: nat,
    k: Seq<char>,
    a: Map<Seq<char>, Seq<Seq<char>>>,
    s: Seq<u8>,
) -> Option<(Map<Seq<char>, Seq<Seq<char>>>, Seq<u8>)> {
    if k == "user_states"@ {
        noted(Map::empty(), book_heading(di, bi), book_heading(di, bi), a, s)
    } else {
        walk::skip_then(s, a)
    }
}

/// What is noted in the next `n` order books of a dex, the first of which has the number `bi`.
pub open spec fn books_noted(
    di: nat,
    s: Seq<u8>,
    bi: nat,
    n: nat,
    a: Map<Seq<char>, Seq<Seq<char>>>,
) -> Option<(Map<Seq<char>, Seq<Seq<char>>>, Seq<u8>)>
    decreases n,
{
    if n == 0 {
        Some((a, s))
    } else {
        match walk::in_map(s, a, |k, a, s| debug_book_field(di, bi, k, a, s)) {
            Some((v, t)) => books_noted(di, t, bi + 1, (n - 1) as nat, v),
            None => None,
        }
    }
}

/// The fields of a dex with order books.
pub open spec fn debug_books_field(
    di: nat,
    k: Seq<char>,
    a: Map<Seq<char>, Seq<Seq<char>>>,
    s: Seq<u8>,
) -> Option<(Map<Seq<char>, Seq<Seq<char>>>, Seq<u8>)> {
    if k == "books"@ {
        match crate::msgpack::array_length(s) {
            Out::Good(n, t) => books_noted(di, t, 0, n, a),
            _ => None,
        }
    } else {
        walk::skip_then(s, a)
    }
}

/// What is noted in the next `n` dexes with order books, the first of which has the number `di`.
pub open spec fn perp_dexes_noted(
    s: Seq<u8>,
    di: nat,
    n: nat,
    a: Map<Seq<char>, Seq<Seq<char>>>,
) -> Option<(Map<Seq<char>, Seq<Seq<char>>>, Seq<u8>)>
    decreases n,
{
    if n == 0 {
        Some((a, s))
    } else {
        match walk::in_map(s, a, |k, a, s| debug_books_field(di, k, a, s)) {
            Some((v, t)) => perp_dexes_noted(t, di + 1, (n - 1) as nat, v),
            None => None,
        }
    }
}

/// The fields of the exchange.
pub open spec fn debug_exchange_field(
    k: Seq<char>,
    a: Map<Seq<char>, Seq<Seq<char>>>,
    s: Seq<u8>,
) -> Option<(Map<Seq<char>, Seq<Seq<char>>>, Seq<u8>)> {
    if k == "locus"@ {
        walk::in_map(s, a, |k, a, s| debug_locus_field(k, a, s))
    } else if k == "perp_dexs"@ {
        match crate::msgpack::array_length(s) {
            Out::Good(n, t) => perp_dexes_noted(t, 0, n, a),
            _ => None,
        }
    } else {
        walk::skip_then(s, a)
    }
}

/// What a snapshot holds of the users.
pub open spec fn notes_of(s: Seq<u8>, users: Map<Seq<char>, ()>) -> Option<
    Map<Seq<char>, Seq<Seq<char>>>,
> {
    match crate::msgpack::seek_map(s, "exchange"@) {
        Some(t) => match walk::in_map(
            t,
            crate::clearing_house::notes::blank_notes(users),
            |k, a, s| debug_exchange_field(k, a, s),
        ) {
            Some((v, _)) => Some(v),
            None => None,
        },
        None => None,
    }
}

/// The text so far, with the first `n` notes behind it, each on a line of its own.
pub open spec fn lines_written(acc: Seq<char>, notes: Seq<Seq<char>>, n: int) -> Seq<char>
    decreases n,
{
    if n <= 0 {
        acc
    } else {
        let line = lines_written(acc, notes, n - 1) + notes[n - 1];
        if notes[n - 1].len() > 0 && notes[n - 1].last() == '\n' {
            line
        } else {
            line.push('\n')
        }
    }
}

/// The text so far, with the notes on a user behind it.
pub open spec fn user_written(acc: Seq<char>, u: Seq<char>, notes: Seq<Seq<char>>) -> Seq<char> {
    let head = acc + "=== USER "@ + u + " ===\n"@;
    (if notes.len() == 0 {
        head + "  (no raw snapshot entries found)\n"@
    } else {
        lines_written(head, notes, notes.len() as int)
    }).push('\n')
}

/// The report on the first `n` of the users.
pub open spec fn report_on(
    us: Seq<Seq<char>>,
    notes: Map<Seq<char>, Seq<Seq<char>>>,
    n: int,
) -> Seq<char>
    decreases n,
{
    if n <= 0 {
        "=== RAW INITIAL SNAPSHOT DEBUG ===\n"@
    } else {
        user_written(report_on(us, notes, n - 1), us[n - 1], notes[us[n - 1]])
    }
}

// ── Taking notes ─────────────────────────────────────────────────────────

#[verifier::loop_isolation(false)]
fn note_users(
    cur: &mut Reader,
    listed: &StrMap<()>,
    yes: &str,
    no: &str,
    acc: &mut StrMap<Notes>,
) -> (r: Result<(), MsgpackError>)
    ensures
        match noted(listed@, yes@, no@, old(acc)@, old(cur)@) {
            Some((v, t)) => r is Ok && final(acc)@ == v && final(cur)@ == t,
            None => r is Err,
        },
{
    let ghost l = listed@;
    let ghost y = yes@;
    let ghost x = no@;
    let ghost g: spec_fn(Map<Seq<char>, Seq<Seq<char>>>, Seq<u8>) -> Option<
        (Map<Seq<char>, Seq<Seq<char>>>, Seq<u8>),
    > = |a, s| one_noted(l, y, x, a, s);
    let ghost f: spec_fn(Map<Seq<char>, Seq<Seq<char>>>, Seq<u8>) -> Option<
        (Map<Seq<char>, Seq<Seq<char>>>, Seq<u8>),
    > = |a, s| walk::in_pair(s, a, |a, s| one_noted(l, y, x, a, s));
    let ghost whole = noted(l, y, x, acc@, cur@);
    let n: u32 = cur.read_array_len()?;
    let mut i: u32 = 0;
    while i < n
        invariant
            i <= n,
            whole == walk::items(cur@, (n - i) as nat, acc@, f),
        decreases n - i,
    {
        assert(f(acc@, cur@) == walk::in_pair(cur@, acc@, g));
        let p: u32 = cur.read_array_len()?;
        if p < 2 {
            cur.skip_rest(p, 0)?;
        } else {
            let u = to_lowercase(cur.read_str_ref()?);
            let ghost t = cur@;
            match acc.get_mut(u.as_str()) {
                Some(notes) => {
                    let raw = cur.capture_subtree()?;
                    assert(raw@ =~= t.take(t.len() - cur@.len()));
                    let mut line = if listed.contains_key(u.as_str()) {
                        yes.to_owned()
                    } else {
                        no.to_owned()
                    };
                    let mut inner = Reader::new(raw);
                    render_value(&mut inner, &mut line)?;
                    notes.take(line);
                },
                None => {
                    cur.skip_value()?;
                },
            }
            cur.skip_rest(p, 2)?;
        }
        i = i + 1;
    }
    Ok(())
}

#[verifier::loop_isolation(false)]
fn parse_with_positions(cur: &mut Reader, acc: &mut StrMap<()>) -> (r: Result<(), MsgpackError>)
    ensures
        match walk::in_array(old(cur)@, old(acc)@, |a, s| one_with_positions(a, s)) {
            Some((v, t)) => r is Ok && final(acc)@ == v && final(cur)@ == t,
            None => r is Err,
        },
{
    let ghost f: spec_fn(Map<Seq<char>, ()>, Seq<u8>) -> Option<(Map<Seq<char>, ()>, Seq<u8>)> =
        |a, s| one_with_positions(a, s);
    let ghost whole = walk::in_array(cur@, acc@, f);
    let n: u32 = cur.read_array_len()?;
    let mut i: u32 = 0;
    while i < n
        invariant
            i <= n,
            whole == walk::items(cur@, (n - i) as nat, acc@, f),
        decreases n - i,
    {
        let u = to_lowercase(cur.read_str_ref()?);
        acc.insert(u, ());
        i = i + 1;
    }
    Ok(())
}

fn write_dex_heading(di: u32, pdi: u32, with_positions: bool) -> (r: String)
    ensures
        r@ == dex_heading(di as nat, pdi, with_positions),
{
    let mut r = "  locus.cls[".to_owned();
    push_decimal(&mut r, di as u64);
    push_text(&mut r, "] pdi=");
    push_decimal(&mut r, pdi as u64);
    push_text(&mut r, " users_with_positions=");
    push_text(
        &mut r,
        if with_positions {
            "true"
        } else {
            "false"
        },
    );
    push_text(&mut r, " user_to_state=");
    r
}

#[verifier::loop_isolation(false)]
fn parse_debug_user_states(raw: &[u8], di: u32, pdi: u32, acc: &mut StrMap<Notes>) -> (r: Result<
    (),
    MsgpackError,
>)
    ensures
        match dex_users_noted(di as nat, pdi, old(acc)@, raw@) {
            Some(v) => r is Ok && final(acc)@ == v,
            None => r is Err,
        },
{
    let mut cur = Reader::new(raw);
    let ghost d = di as nat;
    let ghost f: spec_fn(Seq<char>, DebugUsers, Seq<u8>) -> Option<(DebugUsers, Seq<u8>)> =
        |k, a, s| debug_users_field(d, pdi, k, a, s);
    let ghost whole = walk::in_map(
        cur@,
        DebugUsers { listed: Map::empty(), notes: acc@, deferred: None },
        f,
    );
    let yes = write_dex_heading(di, pdi, true);
    let no = write_dex_heading(di, pdi, false);
    let n: u32 = cur.read_map_len()?;
    let mut listed: StrMap<()> = StrMap::new();
    let mut deferred: Option<&[u8]> = None;
    let mut i: u32 = 0;
    while i < n
        invariant
            i <= n,
            whole == walk::fields(
                cur@,
                (n - i) as nat,
                DebugUsers {
                    listed: listed@,
                    notes: acc@,
                    deferred: match deferred {
                        Some(d) => Some(d@),
                        None => None,
                    },
                },
                f,
            ),
        decreases n - i,
    {
        let k = cur.read_str_ref()?;
        if str_eq(k, "users_with_positions") {
            parse_with_positions(&mut cur, &mut listed)?;
        } else if str_eq(k, "user_to_state") {
            if listed.is_empty() {
                let ghost s = cur@;
                let part = cur.capture_subtree()?;
                assert(part@ =~= s.take(s.len() - cur@.len()));
                deferred = Some(part);
            } else {
                note_users(&mut cur, &listed, yes.as_str(), no.as_str(), acc)?;
            }
        } else {
            cur.skip_value()?;
        }
        i = i + 1;
    }
    match deferred {
        Some(part) => {
            let mut inner = Reader::new(part);
            note_users(&mut inner, &listed, yes.as_str(), no.as_str(), acc)
        },
        None => Ok(()),
    }
}

#[verifier::loop_isolation(false)]
fn parse_debug_pdi(cur: &mut Reader, start: u32, Ghost(users): Ghost<Option<Seq<u8>>>) -> (r:
    Result<u32, MsgpackError>)
    ensures
        match walk::in_map(
            old(cur)@,
            (DebugDex { pdi: start, users }),
            |k, a, s| debug_meta_field(k, a, s),
        ) {
            Some((v, t)) => r is Ok && v == (DebugDex { pdi: r->Ok_0, users }) && final(cur)@ == t,
            None => r is Err,
        },
{
    let ghost f: spec_fn(Seq<char>, DebugDex, Seq<u8>) -> Option<(DebugDex, Seq<u8>)> = |k, a, s|
        debug_meta_field(k, a, s);
    let ghost whole = walk::in_map(cur@, DebugDex { pdi: start, users }, f);
    let n: u32 = cur.read_map_len()?;
    let mut pdi: u32 = start;
    let mut i: u32 = 0;
    while i < n
        invariant
            i <= n,
            whole == walk::fields(cur@, (n - i) as nat, DebugDex { pdi, users }, f),
        decreases n - i,
    {
        let k = cur.read_str_ref()?;
        if str_eq(k, "pdi") {
            pdi = walk::low32(cur.read_int()?);
        } else {
            cur.skip_value()?;
        }
        i = i + 1;
    }
    Ok(pdi)
}

#[verifier::loop_isolation(false)]
fn parse_debug_clearinghouse(cur: &mut Reader, di: u32, acc: &mut StrMap<Notes>) -> (r: Result<
    (),
    MsgpackError,
>)
    ensures
        match dex_noted(di as nat, old(acc)@, old(cur)@) {
            Some((v, t)) => r is Ok && final(acc)@ == v && final(cur)@ == t,
            None => r is Err,
        },
{
    let ghost f: spec_fn(Seq<char>, DebugDex, Seq<u8>) -> Option<(DebugDex, Seq<u8>)> = |k, a, s|
        debug_dex_field(k, a, s);
    let ghost whole = walk::in_map(cur@, DebugDex { pdi: 0, users: None }, f);
    let n: u32 = cur.read_map_len()?;
    let mut pdi: u32 = 0;
    let mut users: Option<&[u8]> = None;
    let mut i: u32 = 0;
    while i < n
        invariant
            i <= n,
            whole == walk::fields(
                cur@,
                (n - i) as nat,
                DebugDex {
                    pdi,
                    users: match users {
                        Some(u) => Some(u@),
                        None => None,
                    },
                },
                f,
            ),
        decreases n - i,
    {
        let k = cur.read_str_ref()?;
        if str_eq(k, "meta") {
            let ghost held = match users {
                Some(u) => Some(u@),
                None => None,
            };
            pdi = parse_debug_pdi(cur, pdi, Ghost(held))?;
        } else if str_eq(k, "user_states") {
            let ghost s = cur@;
            let part = cur.capture_subtree()?;
            assert(part@ =~= s.take(s.len() - cur@.len()));
            users = Some(part);
        } else {
            cur.skip_value()?;
        }
        i = i + 1;
    }
    match users {
        Some(raw) => parse_debug_user_states(raw, di, pdi, acc),
        None => Ok(()),
    }
}

#[verifier::loop_isolation(false)]
fn parse_debug_spot(cur: &mut Reader, acc: &mut StrMap<Notes>) -> (r: Result<(), MsgpackError>)
    ensures
        match walk::in_map(old(cur)@, old(acc)@, |k, a, s| debug_spot_field(k, a, s)) {
            Some((v, t)) => r is Ok && final(acc)@ == v && final(cur)@ == t,
            None => r is Err,
        },
{
    let ghost f: spec_fn(Seq<char>, Map<Seq<char>, Seq<Seq<char>>>, Seq<u8>) -> Option<(Map<Seq<char>, Seq<Seq<char>>>, Seq<u8>)> = |k, a, s|
        debug_spot_field(k, a, s);
    let ghost whole = walk::in_map(cur@, acc@, f);
    let none: StrMap<()> = StrMap::new();
    let n: u32 = cur.read_map_len()?;
    let mut i: u32 = 0;
    while i < n
        invariant
            i <= n,
            whole == walk::fields(cur@, (n - i) as nat, acc@, f),
        decreases n - i,
    {
        let k = cur.read_str_ref()?;
        if str_eq(k, "user_states") {
            let head = "  locus.scl.user_states=";
            note_users(cur, &none, head, head, acc)?;
        } else {
            cur.skip_value()?;
        }
        i = i + 1;
    }
    Ok(())
}

#[verifier::loop_isolation(false)]
fn parse_debug_dexes(cur: &mut Reader, acc: &mut StrMap<Notes>) -> (r: Result<(), MsgpackError>)
    ensures
        match crate::msgpack::array_length(old(cur)@) {
            Out::Good(n, u) => match dexes_noted(u, 0, n, old(acc)@) {
                Some((v, t)) => r is Ok && final(acc)@ == v && final(cur)@ == t,
                None => r is Err,
            },
            _ => r is Err,
        },
{
    let n: u32 = cur.read_array_len()?;
    let ghost whole = dexes_noted(cur@, 0, n as nat, acc@);
    let mut i: u32 = 0;
    while i < n
        invariant
            i <= n,
            whole == dexes_noted(cur@, i as nat, (n - i) as nat, acc@),
        decreases n - i,
    {
        parse_debug_clearinghouse(cur, i, acc)?;
        i = i + 1;
    }
    Ok(())
}

#[verifier::loop_isolation(false)]
fn parse_debug_locus(cur: &mut Reader, acc: &mut StrMap<Notes>) -> (r: Result<(), MsgpackError>)
    ensures
        match walk::in_map(old(cur)@, old(acc)@, |k, a, s| debug_locus_field(k, a, s)) {
            Some((v, t)) => r is Ok && final(acc)@ == v && final(cur)@ == t,
            None => r is Err,
        },
{
    let ghost f: spec_fn(Seq<char>, Map<Seq<char>, Seq<Seq<char>>>, Seq<u8>) -> Option<(Map<Seq<char>, Seq<Seq<char>>>, Seq<u8>)> = |k, a, s|
        debug_locus_field(k, a, s);
    let ghost whole = walk::in_map(cur@, acc@, f);
    let none: StrMap<()> = StrMap::new();
    let n: u32 = cur.read_map_len()?;
    let mut i: u32 = 0;
    while i < n
        invariant
            i <= n,
            whole == walk::fields(cur@, (n - i) as nat, acc@, f),
        decreases n - i,
    {
        let k = cur.read_str_ref()?;
        if str_eq(k, "cls") {
            parse_debug_dexes(cur, acc)?;
        } else if str_eq(k, "ust") {
            let head = "  locus.ust=";
            note_users(cur, &none, head, head, acc)?;
        } else if str_eq(k, "scl") {
            parse_debug_spot(cur, acc)?;
        } else {
            cur.skip_value()?;
        }
        i = i + 1;
    }
    Ok(())
}

fn write_book_heading(di: u32, bi: u32) -> (r: String)
    ensures
        r@ == book_heading(di as nat, bi as nat),
{
    let mut r = "  perp_dexs[".to_owned();
    push_decimal(&mut r, di as u64);
    push_text(&mut r, "].books[");
    push_decimal(&mut r, bi as u64);
    push_text(&mut r, "].user_states=");
    r
}

#[verifier::loop_isolation(false)]
fn parse_debug_book(cur: &mut Reader, di: u32, bi: u32, acc: &mut StrMap<Notes>) -> (r: Result<
    (),
    MsgpackError,
>)
    ensures
        match walk::in_map(
            old(cur)@,
            old(acc)@,
            |k, a, s| debug_book_field(di as nat, bi as nat, k, a, s),
        ) {
            Some((v, t)) => r is Ok && final(acc)@ == v && final(cur)@ == t,
            None => r is Err,
        },
{
    let ghost d = di as nat;
    let ghost b = bi as nat;
    let ghost f: spec_fn(Seq<char>, Map<Seq<char>, Seq<Seq<char>>>, Seq<u8>) -> Option<(Map<Seq<char>, Seq<Seq<char>>>, Seq<u8>)> = |k, a, s|
        debug_book_field(d, b, k, a, s);
    let ghost whole = walk::in_map(cur@, acc@, f);
    let none: StrMap<()> = StrMap::new();
    let head = write_book_heading(di, bi);
    let n: u32 = cur.read_map_len()?;
    let mut i: u32 = 0;
    while i < n
        invariant
            i <= n,
            whole == walk::fields(cur@, (n - i) as nat, acc@, f),
        decreases n - i,
    {
        let k = cur.read_str_ref()?;
        if str_eq(k, "user_states") {
            note_users(cur, &none, head.as_str(), head.as_str(), acc)?;
        } else {
            cur.skip_value()?;
        }
        i = i + 1;
    }
    Ok(())
}

#[verifier::loop_isolation(false)]
fn parse_debug_books(cur: &mut Reader, di: u32, acc: &mut StrMap<Notes>) -> (r: Result<
    (),
    MsgpackError,
>)
    ensures
        match crate::msgpack::array_length(old(cur)@) {
            Out::Good(n, u) => match books_noted(di as nat, u, 0, n, old(acc)@) {
                Some((v, t)) => r is Ok && final(acc)@ == v && final(cur)@ == t,
                None => r is Err,
            },
            _ => r is Err,
        },
{
    let n: u32 = cur.read_array_len()?;
    let ghost whole = books_noted(di as nat, cur@, 0, n as nat, acc@);
    let mut i: u32 = 0;
    while i < n
        invariant
            i <= n,
            whole == books_noted(di as nat, cur@, i as nat, (n - i) as nat, acc@),
        decreases n - i,
    {
        parse_debug_book(cur, di, i, acc)?;
        i = i + 1;
    }
    Ok(())
}

#[verifier::loop_isolation(false)]
fn parse_debug_perp_dex(cur: &mut Reader, di: u32, acc: &mut StrMap<Notes>) -> (r: Result<
    (),
    MsgpackError,
>)
    ensures
        match walk::in_map(
            old(cur)@,
            old(acc)@,
            |k, a, s| debug_books_field(di as nat, k, a, s),
        ) {
            Some((v, t)) => r is Ok && final(acc)@ == v && final(cur)@ == t,
            None => r is Err,
        },
{
    let ghost d = di as nat;
    let ghost f: spec_fn(Seq<char>, Map<Seq<char>, Seq<Seq<char>>>, Seq<u8>) -> Option<(Map<Seq<char>, Seq<Seq<char>>>, Seq<u8>)> = |k, a, s|
        debug_books_field(d, k, a, s);
    let ghost whole = walk::in_map(cur@, acc@, f);
    let n: u32 = cur.read_map_len()?;
    let mut i: u32 = 0;
    while i < n
        invariant
            i <= n,
            whole == walk::fields(cur@, (n - i) as nat, acc@, f),
        decreases n - i,
    {
        let k = cur.read_str_ref()?;
        if str_eq(k, "books") {
            parse_debug_books(cur, di, acc)?;
        } else {
            cur.skip_value()?;
        }
        i = i + 1;
    }
    Ok(())
}

#[verifier::loop_isolation(false)]
fn parse_debug_perp_dexs(cur: &mut Reader, acc: &mut StrMap<Notes>) -> (r: Result<
    (),
    MsgpackError,
>)
    ensures
        match crate::msgpack::array_length(old(cur)@) {
            Out::Good(n, u) => match perp_dexes_noted(u, 0, n, old(acc)@) {
                Some((v, t)) => r is Ok && final(acc)@ == v && final(cur)@ == t,
                None => r is Err,
            },
            _ => r is Err,
        },
{
    let n: u32 = cur.read_array_len()?;
    let ghost whole = perp_dexes_noted(cur@, 0, n as nat, acc@);
    let mut i: u32 = 0;
    while i < n
        invariant
            i <= n,
            whole == perp_dexes_noted(cur@, i as nat, (n - i) as nat, acc@),
        decreases n - i,
    {
        parse_debug_perp_dex(cur, i, acc)?;
        i = i + 1;
    }
    Ok(())
}

#[verifier::loop_isolation(false)]
fn parse_debug_root(data: &[u8], users: &StrMap<()>) -> (r: Result<StrMap<Notes>, MsgpackError>)
    ensures
        match notes_of(data@, users@) {
            Some(v) => r is Ok && r->Ok_0@ == v,
            None => r is Err,
        },
{
    let mut cur = Reader::new(data);
    cur.map_seek("exchange")?;
    let mut acc = blank(users);
    let ghost f: spec_fn(Seq<char>, Map<Seq<char>, Seq<Seq<char>>>, Seq<u8>) -> Option<(Map<Seq<char>, Seq<Seq<char>>>, Seq<u8>)> = |k, a, s|
        debug_exchange_field(k, a, s);
    let ghost whole = walk::in_map(cur@, acc@, f);
    let n: u32 = cur.read_map_len()?;
    let mut i: u32 = 0;
    while i < n
        invariant
            i <= n,
            whole == walk::fields(cur@, (n - i) as nat, acc@, f),
        decreases n - i,
    {
        let k = cur.read_str_ref()?;
        if str_eq(k, "locus") {
            parse_debug_locus(&mut cur, &mut acc)?;
        } else if str_eq(k, "perp_dexs") {
            parse_debug_perp_dexs(&mut cur, &mut acc)?;
        } else {
            cur.skip_value()?;
        }
        i = i + 1;
    }
    Ok(acc)
}

fn write_user(out: &mut String, u: &str, notes: Option<&Notes>)
    requires
        notes is Some,
    ensures
        final(out)@ == user_written(old(out)@, u@, notes->Some_0@),
{
    let ghost acc = out@;
    push_text(out, "=== USER ");
    push_text(out, u);
    push_text(out, " ===\n");
    let ghost head = out@;
    match notes {
        Some(n) => {
            let ghost v = n@;
            if n.lines.len() == 0 {
                push_text(out, "  (no raw snapshot entries found)\n");
            } else {
                let mut i: usize = 0;
                while i < n.lines.len()
                    invariant
                        i <= n.lines@.len(),
                        v == n@,
                        out@ == lines_written(head, v, i as int),
                    decreases n.lines@.len() - i,
                {
                    let line = n.lines[i].as_str();
                    assert(v[i as int] == line@);
                    push_text(out, line);
                    if !crate::text::ends_with_char(line, '\n') {
                        push_char(out, '\n');
                    }
                    i = i + 1;
                }
            }
        },
        None => {},
    }
    push_char(out, '\n');
}

/// A report on what a snapshot holds of the users, in dictionary order of their addresses. Nothing
/// where there are no users.
pub fn extract_raw_debug_users_from_rmp(data: &[u8], debug_users: &StrMap<()>) -> (r: Result<
    String,
    SnapshotError,
>)
    ensures
        if debug_users@ == Map::<Seq<char>, ()>::empty() {
            r is Ok && r->Ok_0@ == Seq::<char>::empty()
        } else {
            match notes_of(data@, debug_users@) {
                Some(notes) => r is Ok && exists|us: Seq<Seq<char>>| #[trigger]
                    crate::strmap::listing(us, notes.dom()) && r->Ok_0@ == report_on(
                        us,
                        notes,
                        us.len() as int,
                    ),
                None => r == Err::<String, SnapshotError>(SnapshotError),
            }
        },
{
    if debug_users.is_empty() {
        let r = String::new();
        assert(r@ =~= Seq::<char>::empty());
        return Ok(r);
    }
    let notes = match parse_debug_root(data, debug_users) {
        Ok(notes) => notes,
        Err(_) => {
            return Err(SnapshotError);
        },
    };
    let users = notes.sorted_keys();
    let ghost us = crate::json::texts(users@);
    let mut out = "=== RAW INITIAL SNAPSHOT DEBUG ===\n".to_owned();
    let mut i: usize = 0;
    while i < users.len()
        invariant
            i <= users@.len(),
            us == crate::json::texts(users@),
            crate::strmap::listing(us, notes@.dom()),
            out@ == report_on(us, notes@, i as int),
        decreases users@.len() - i,
    {
        let u = users[i].as_str();
        assert(us[i as int] == u@);
        assert(us.to_set().contains(u@));
        write_user(&mut out, u, notes.get(u));
        i = i + 1;
    }
    Ok(out)
}

} // verus!

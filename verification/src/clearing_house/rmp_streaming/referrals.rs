//! Searches in a snapshot: who signed up under a referral code, who approved a builder's fees, and
//! which keys there are.
use crate::clearing_house::rmp_streaming as walk;
use crate::clearing_house::rmp_streaming::root::SnapshotError;
use crate::msgpack::{MsgpackError, Out, Reader};
use crate::strmap::StrMap;
use crate::text::{eq_ignore_ascii_case, str_eq, to_lowercase};
use vstd::prelude::*;
use vstd::slice::slice_subrange;

verus! {

// ── Searching maps, mathematically ───────────────────────────────────────

/// What is found among the next `n` entries of a map. `f` looks into each value under the key; the
/// search ends where it finds something. `None` where the data is not of the expected form, else what
/// was found and the bytes behind it.
pub open spec fn find<R>(
    s: Seq<u8>,
    n: nat,
    key: Seq<char>,
    f: spec_fn(Seq<u8>) -> Option<(Option<R>, Seq<u8>)>,
) -> Option<(Option<R>, Seq<u8>)>
    decreases n,
{
    if n == 0 {
        Some((None, s))
    } else {
        match crate::msgpack::text(s) {
            Out::Good(k, t) => if k == key {
                match f(t) {
                    Some((None, u)) => find(u, (n - 1) as nat, key, f),
                    o => o,
                }
            } else {
                match crate::msgpack::skipped(t) {
                    Out::Good(_, u) => find(u, (n - 1) as nat, key, f),
                    _ => None,
                }
            },
            _ => None,
        }
    }
}

/// What is found in a map.
pub open spec fn find_in<R>(
    s: Seq<u8>,
    key: Seq<char>,
    f: spec_fn(Seq<u8>) -> Option<(Option<R>, Seq<u8>)>,
) -> Option<(Option<R>, Seq<u8>)> {
    match crate::msgpack::map_length(s) {
        Out::Good(n, t) => find(t, n, key, f),
        _ => None,
    }
}

/// The place under the key in a map.
pub open spec fn place_in(s: Seq<u8>, key: Seq<char>) -> Option<(Option<Seq<u8>>, Seq<u8>)> {
    find_in(s, key, |s: Seq<u8>| Some((Some(s), s)))
}

/// The place under "ftr" and the key.
pub open spec fn place_in_ftr(s: Seq<u8>, key: Seq<char>) -> Option<(Option<Seq<u8>>, Seq<u8>)> {
    find_in(s, "ftr"@, |s: Seq<u8>| place_in(s, key))
}

/// The place under "locus", "ftr" and the key.
pub open spec fn place_in_locus(s: Seq<u8>, key: Seq<char>) -> Option<(Option<Seq<u8>>, Seq<u8>)> {
    find_in(s, "locus"@, |s: Seq<u8>| place_in_ftr(s, key))
}

/// The place under "exchange", "locus", "ftr" and the key: `None` where the data is not of the
/// expected form, `Some(None)` where there is no such place.
pub open spec fn place_at(s: Seq<u8>, key: Seq<char>) -> Option<Option<Seq<u8>>> {
    match crate::msgpack::seek_map(s, "exchange"@) {
        Some(t) => match place_in_locus(t, key) {
            Some((o, _)) => Some(o),
            None => None,
        },
        None => None,
    }
}

/// Whether the outcome, and where the reader stands, are what a search gives.
pub open spec fn sought(
    o: Option<(Option<Seq<u8>>, Seq<u8>)>,
    r: Result<bool, MsgpackError>,
    rest: Seq<u8>,
) -> bool {
    match o {
        Some((Some(p), _)) => r == Ok::<bool, MsgpackError>(true) && rest == p,
        Some((None, t)) => r == Ok::<bool, MsgpackError>(false) && rest == t,
        None => r is Err,
    }
}

#[verifier::loop_isolation(false)]
fn seek_in(cur: &mut Reader, key: &str) -> (r: Result<bool, MsgpackError>)
    ensures
        sought(place_in(old(cur)@, key@), r, final(cur)@),
{
    let ghost f: spec_fn(Seq<u8>) -> Option<(Option<Seq<u8>>, Seq<u8>)> = |s: Seq<u8>|
        Some((Some(s), s));
    let ghost whole = place_in(cur@, key@);
    let n: u32 = cur.read_map_len()?;
    let mut i: u32 = 0;
    while i < n
        invariant
            i <= n,
            whole == find(cur@, (n - i) as nat, key@, f),
        decreases n - i,
    {
        let k = cur.read_str_ref()?;
        if str_eq(k, key) {
            assert(f(cur@) == Some((Some(cur@), cur@)));
            return Ok(true);
        }
        cur.skip_value()?;
        i = i + 1;
    }
    Ok(false)
}

#[verifier::loop_isolation(false)]
fn seek_in_ftr(cur: &mut Reader, key: &str) -> (r: Result<bool, MsgpackError>)
    ensures
        sought(place_in_ftr(old(cur)@, key@), r, final(cur)@),
{
    let ghost want = key@;
    let ghost f: spec_fn(Seq<u8>) -> Option<(Option<Seq<u8>>, Seq<u8>)> = |s: Seq<u8>|
        place_in(s, want);
    let ghost whole = place_in_ftr(cur@, key@);
    let n: u32 = cur.read_map_len()?;
    let mut i: u32 = 0;
    while i < n
        invariant
            i <= n,
            whole == find(cur@, (n - i) as nat, "ftr"@, f),
        decreases n - i,
    {
        let k = cur.read_str_ref()?;
        if str_eq(k, "ftr") {
            assert(f(cur@) == place_in(cur@, want));
            if seek_in(cur, key)? {
                return Ok(true);
            }
        } else {
            cur.skip_value()?;
        }
        i = i + 1;
    }
    Ok(false)
}

#[verifier::loop_isolation(false)]
fn seek_in_locus(cur: &mut Reader, key: &str) -> (r: Result<bool, MsgpackError>)
    ensures
        sought(place_in_locus(old(cur)@, key@), r, final(cur)@),
{
    let ghost want = key@;
    let ghost f: spec_fn(Seq<u8>) -> Option<(Option<Seq<u8>>, Seq<u8>)> = |s: Seq<u8>|
        place_in_ftr(s, want);
    let ghost whole = place_in_locus(cur@, key@);
    let n: u32 = cur.read_map_len()?;
    let mut i: u32 = 0;
    while i < n
        invariant
            i <= n,
            whole == find(cur@, (n - i) as nat, "locus"@, f),
        decreases n - i,
    {
        let k = cur.read_str_ref()?;
        if str_eq(k, "locus") {
            assert(f(cur@) == place_in_ftr(cur@, want));
            if seek_in_ftr(cur, key)? {
                return Ok(true);
            }
        } else {
            cur.skip_value()?;
        }
        i = i + 1;
    }
    Ok(false)
}

/// Goes to the place under "exchange", "locus", "ftr" and the key; says whether there is one.
fn seek_ftr(cur: &mut Reader, key: &str) -> (r: Result<bool, MsgpackError>)
    ensures
        match place_at(old(cur)@, key@) {
            Some(Some(p)) => r == Ok::<bool, MsgpackError>(true) && final(cur)@ == p,
            Some(None) => r == Ok::<bool, MsgpackError>(false),
            None => r is Err,
        },
{
    cur.map_seek("exchange")?;
    seek_in_locus(cur, key)
}

// ── Referral codes ───────────────────────────────────────────────────────

/// What has been read of a referrer: the code, and who signed up under it.
#[verifier::ext_equal]
pub struct ReferrerModel {
    pub code: Seq<char>,
    pub users: Map<Seq<char>, ()>,
}

/// One more user who signed up.
pub open spec fn one_referred(a: ReferrerModel, s: Seq<u8>) -> Option<(ReferrerModel, Seq<u8>)> {
    match crate::msgpack::array_length(s) {
        Out::Good(p, t) => if p < 1 {
            Some((a, t))
        } else {
            match walk::a_text(t) {
                Some((u, v)) => walk::skip_n_then(
                    v,
                    p - 1,
                    ReferrerModel { users: a.users.insert(crate::text::lowercase(u), ()), ..a },
                ),
                None => None,
            }
        },
        _ => None,
    }
}

/// The fields of a referrer.
pub open spec fn referrer_field(k: Seq<char>, a: ReferrerModel, s: Seq<u8>) -> Option<
    (ReferrerModel, Seq<u8>),
> {
    if k == "c"@ {
        match walk::a_text(s) {
            Some((v, t)) => Some((ReferrerModel { code: v, ..a }, t)),
            None => None,
        }
    } else if k == "s"@ {
        walk::in_array(s, a, |a, s| one_referred(a, s))
    } else {
        walk::skip_then(s, a)
    }
}

/// The referrer that stands first.
pub open spec fn referrer_at(s: Seq<u8>) -> Option<(ReferrerModel, Seq<u8>)> {
    walk::in_map(
        s,
        ReferrerModel { code: Seq::empty(), users: Map::empty() },
        |k, a, s| referrer_field(k, a, s),
    )
}

/// Whether two codes are the same but for the case of ASCII letters.
pub open spec fn same_code(a: Seq<char>, b: Seq<char>) -> bool {
    crate::text::ascii_lower(a) == crate::text::ascii_lower(b)
}

/// Who owns a code, and who signed up under it.
#[verifier::ext_equal]
pub struct ReferralModel {
    pub owner: Option<Seq<char>>,
    pub users: Map<Seq<char>, ()>,
}

/// Nobody.
pub open spec fn no_referral() -> ReferralModel {
    ReferralModel { owner: None, users: Map::empty() }
}

/// The first of the next `n` referrers that has the code; nobody where none has. The bytes behind
/// what was read do not matter.
pub open spec fn referral_among(s: Seq<u8>, n: nat, code: Seq<char>) -> Option<ReferralModel>
    decreases n,
{
    if n == 0 {
        Some(no_referral())
    } else {
        match crate::msgpack::array_length(s) {
            Out::Good(p, t) => if p < 2 {
                match walk::skip_n_then(t, p as int, ()) {
                    Some((_, u)) => referral_among(u, (n - 1) as nat, code),
                    None => None,
                }
            } else {
                match walk::a_text(t) {
                    Some((owner, u)) => match crate::msgpack::skipped(u) {
                        Out::Good(_, v) => match walk::skip_n_then(v, p - 2, ()) {
                            Some((_, w)) => match referrer_at(u.take(u.len() - v.len())) {
                                Some((r, _)) => if same_code(r.code, code) {
                                    Some(
                                        ReferralModel {
                                            owner: Some(crate::text::lowercase(owner)),
                                            users: r.users,
                                        },
                                    )
                                } else {
                                    referral_among(w, (n - 1) as nat, code)
                                },
                                None => None,
                            },
                            None => None,
                        },
                        _ => None,
                    },
                    None => None,
                }
            },
            _ => None,
        }
    }
}

/// The referrer with the code, in the list that stands first.
pub open spec fn referral_in(s: Seq<u8>, code: Seq<char>) -> Option<ReferralModel> {
    match crate::msgpack::array_length(s) {
        Out::Good(n, t) => referral_among(t, n, code),
        _ => None,
    }
}

/// The referral of a code in a snapshot; nobody where there is no list of referrers.
pub open spec fn referral_by_code(s: Seq<u8>, code: Seq<char>) -> Option<ReferralModel> {
    match place_at(s, "referrer_states"@) {
        Some(Some(p)) => referral_in(p, code),
        Some(None) => Some(no_referral()),
        None => None,
    }
}

#[verifier::loop_isolation(false)]
fn parse_referred(cur: &mut Reader, users: &mut StrMap<()>, Ghost(code): Ghost<Seq<char>>) -> (r:
    Result<(), MsgpackError>)
    ensures
        match walk::in_array(
            old(cur)@,
            (ReferrerModel { code, users: old(users)@ }),
            |a, s| one_referred(a, s),
        ) {
            Some((v, t)) => r is Ok && v == (ReferrerModel { code, users: final(users)@ }) && final(
                cur
            )@ == t,
            None => r is Err,
        },
{
    let ghost f: spec_fn(ReferrerModel, Seq<u8>) -> Option<(ReferrerModel, Seq<u8>)> = |a, s|
        one_referred(a, s);
    let ghost whole = walk::in_array(cur@, ReferrerModel { code, users: users@ }, f);
    let n: u32 = cur.read_array_len()?;
    let mut i: u32 = 0;
    while i < n
        invariant
            i <= n,
            whole == walk::items(
                cur@,
                (n - i) as nat,
                ReferrerModel { code, users: users@ },
                f,
            ),
        decreases n - i,
    {
        let p: u32 = cur.read_array_len()?;
        if p >= 1 {
            let u = to_lowercase(cur.read_str_ref()?);
            users.insert(u, ());
            cur.skip_rest(p, 1)?;
        }
        i = i + 1;
    }
    Ok(())
}

/// The code of a referrer, and who signed up under it.
#[verifier::loop_isolation(false)]
fn parse_referrer_entry(raw: &[u8]) -> (r: Result<(String, StrMap<()>), MsgpackError>)
    ensures
        match referrer_at(raw@) {
            Some((v, _)) => r is Ok && r->Ok_0.0@ == v.code && r->Ok_0.1@ == v.users,
            None => r is Err,
        },
{
    let mut cur = Reader::new(raw);
    let ghost f: spec_fn(Seq<char>, ReferrerModel, Seq<u8>) -> Option<(ReferrerModel, Seq<u8>)> =
        |k, a, s| referrer_field(k, a, s);
    let ghost whole = referrer_at(cur@);
    let n: u32 = cur.read_map_len()?;
    let mut code = String::new();
    let mut users: StrMap<()> = StrMap::new();
    assert(code@ =~= Seq::<char>::empty());
    let mut i: u32 = 0;
    while i < n
        invariant
            i <= n,
            whole == walk::fields(
                cur@,
                (n - i) as nat,
                ReferrerModel { code: code@, users: users@ },
                f,
            ),
        decreases n - i,
    {
        let k = cur.read_str_ref()?;
        if str_eq(k, "c") {
            code = cur.read_str()?;
        } else if str_eq(k, "s") {
            parse_referred(&mut cur, &mut users, Ghost(code@))?;
        } else {
            cur.skip_value()?;
        }
        i = i + 1;
    }
    Ok((code, users))
}

#[verifier::loop_isolation(false)]
fn search_referrers(cur: &mut Reader, code: &str) -> (r: Result<
    (Option<String>, StrMap<()>),
    MsgpackError,
>)
    ensures
        match referral_in(old(cur)@, code@) {
            Some(v) => r is Ok && crate::json::text_opt(r->Ok_0.0) == v.owner && r->Ok_0.1@
                == v.users,
            None => r is Err,
        },
{
    let n: u32 = cur.read_array_len()?;
    let ghost whole = referral_among(cur@, n as nat, code@);
    let mut i: u32 = 0;
    while i < n
        invariant
            i <= n,
            whole == referral_among(cur@, (n - i) as nat, code@),
        decreases n - i,
    {
        let p: u32 = cur.read_array_len()?;
        if p < 2 {
            cur.skip_rest(p, 0)?;
        } else {
            let owner = to_lowercase(cur.read_str_ref()?);
            let ghost s = cur@;
            let raw = cur.capture_subtree()?;
            assert(raw@ =~= s.take(s.len() - cur@.len()));
            cur.skip_rest(p, 2)?;
            let (entry_code, users) = parse_referrer_entry(raw)?;
            if eq_ignore_ascii_case(entry_code.as_str(), code) {
                return Ok((Some(owner), users));
            }
        }
        i = i + 1;
    }
    Ok((None, StrMap::new()))
}

/// Looks for the code, whatever the case of its letters, among the referrers of a snapshot. Gives
/// its owner and those who signed up under it, in lower case.
pub fn extract_referrer_users_by_code(data: &[u8], code: &str) -> (r: Result<
    (Option<String>, StrMap<()>),
    SnapshotError,
>)
    ensures
        match referral_by_code(data@, code@) {
            Some(v) => r is Ok && crate::json::text_opt(r->Ok_0.0) == v.owner && r->Ok_0.1@
                == v.users,
            None => r == Err::<(Option<String>, StrMap<()>), SnapshotError>(SnapshotError),
        },
{
    let mut cur = Reader::new(data);
    match seek_ftr(&mut cur, "referrer_states") {
        Ok(true) => match search_referrers(&mut cur, code) {
            Ok(found) => Ok(found),
            Err(_) => Err(SnapshotError),
        },
        Ok(false) => Ok((None, StrMap::new())),
        Err(_) => Err(SnapshotError),
    }
}

// ── Builder approvals ────────────────────────────────────────────────────

/// Whether the bytes stand somewhere in the data.
pub open spec fn holds_bytes(data: Seq<u8>, part: Seq<u8>) -> bool {
    exists|i: int|
        0 <= i && i + part.len() <= data.len() && #[trigger] data.subrange(i, i + part.len())
            == part
}

/// Whether the key that stands first is "m", and the bytes behind it. A key that is no text is
/// another one.
pub open spec fn key_is_m(s: Seq<u8>) -> Option<(bool, Seq<u8>)> {
    match crate::msgpack::text(s) {
        Out::Good(k, t) => Some((k == "m"@, t)),
        Out::Bad(t) => Some((false, t)),
        Out::Cut => None,
    }
}

/// Whether a value under "m" among the next `n` entries of a map holds the bytes. A value that cannot
/// be skipped counts as empty.
pub open spec fn approves(s: Seq<u8>, n: nat, needle: Seq<u8>) -> bool
    decreases n,
{
    if n == 0 {
        false
    } else {
        match key_is_m(s) {
            Some((is_m, t)) => match crate::msgpack::skipped(t) {
                Out::Good(_, u) => is_m && holds_bytes(t.take(t.len() - u.len()), needle)
                    || approves(u, (n - 1) as nat, needle),
                Out::Bad(u) => is_m && holds_bytes(Seq::empty(), needle) || approves(
                    u,
                    (n - 1) as nat,
                    needle,
                ),
                Out::Cut => is_m && holds_bytes(Seq::empty(), needle),
            },
            None => false,
        }
    }
}

/// Whether a part of a user's state approves: it is a map with the bytes under "m".
pub open spec fn part_approves(raw: Seq<u8>, needle: Seq<u8>) -> bool {
    match crate::msgpack::map_length(raw) {
        Out::Good(n, t) => approves(t, n, needle),
        _ => false,
    }
}

/// Whether one of the next `n` parts of a user's state approves.
pub open spec fn parts_approve(s: Seq<u8>, n: nat, found: bool, needle: Seq<u8>) -> Option<
    (bool, Seq<u8>),
>
    decreases n,
{
    if n == 0 {
        Some((found, s))
    } else {
        match crate::msgpack::skipped(s) {
            Out::Good(_, t) => parts_approve(
                t,
                (n - 1) as nat,
                found || part_approves(s.take(s.len() - t.len()), needle),
                needle,
            ),
            _ => None,
        }
    }
}

/// One user: the address, and whether a part of the state approves.
pub open spec fn approver_at(s: Seq<u8>, needle: Seq<u8>) -> Option<((Seq<char>, bool), Seq<u8>)> {
    match crate::msgpack::array_length(s) {
        Out::Good(p, t) => match walk::a_text(t) {
            Some((addr, u)) => match parts_approve(
                u,
                if p > 0 {
                    (p - 1) as nat
                } else {
                    0
                },
                false,
                needle,
            ) {
                Some((b, v)) => Some(((addr, b), v)),
                None => None,
            },
            None => None,
        },
        _ => None,
    }
}

/// One more user, kept where a part of the state approves.
pub open spec fn one_approver(needle: Seq<u8>, a: Map<Seq<char>, ()>, s: Seq<u8>) -> Option<
    (Map<Seq<char>, ()>, Seq<u8>),
> {
    match approver_at(s, needle) {
        Some(((addr, b), t)) => Some(
            (
                if b {
                    a.insert(crate::text::lowercase(addr), ())
                } else {
                    a
                },
                t,
            ),
        ),
        None => None,
    }
}

/// The users of a snapshot that approve the builder; none where there is no list of users.
pub open spec fn approvers_of(s: Seq<u8>, builder: Seq<char>) -> Option<Map<Seq<char>, ()>> {
    let needle = vstd::utf8::encode_utf8(crate::text::lowercase(builder));
    match place_at(s, "user_states"@) {
        Some(Some(p)) => match walk::in_array(
            p,
            Map::empty(),
            |a, s| one_approver(needle, a, s),
        ) {
            Some((m, _)) => Some(m),
            None => None,
        },
        Some(None) => Some(Map::empty()),
        None => None,
    }
}

/// Whether the bytes stand somewhere in the data.
fn contains_subslice(haystack: &[u8], needle: &[u8]) -> (r: bool)
    ensures
        r == holds_bytes(haystack@, needle@),
{
    let all: usize = haystack.len();
    if all < needle.len() {
        return false;
    }
    let last: usize = all - needle.len();
    let mut i: usize = 0;
    loop
        invariant
            i <= last == haystack@.len() - needle@.len(),
            all == haystack@.len(),
            forall|j: int|
                0 <= j < i ==> #[trigger] haystack@.subrange(j, j + needle@.len()) != needle@,
        decreases last - i,
    {
        let mut k: usize = 0;
        let mut same = true;
        while k < needle.len() && same
            invariant
                i <= last == haystack@.len() - needle@.len(),
                all == haystack@.len(),
                k <= needle@.len(),
                same ==> forall|j: int| 0 <= j < k ==> haystack@[i + j] == needle@[j],
                !same ==> haystack@.subrange(i as int, i + needle@.len()) != needle@,
            decreases needle@.len() - k, same as int,
        {
            if haystack[i + k] == needle[k] {
                k = k + 1;
            } else {
                assert(haystack@.subrange(i as int, i + needle@.len())[k as int] != needle@[k as int]);
                same = false;
            }
        }
        if same {
            assert(haystack@.subrange(i as int, i + needle@.len()) =~= needle@);
            return true;
        }
        if i == last {
            return false;
        }
        i = i + 1;
    }
}

/// Whether a part of a user's state approves.
#[verifier::loop_isolation(false)]
fn is_approval(raw: &[u8], needle: &[u8]) -> (r: bool)
    ensures
        r == part_approves(raw@, needle@),
{
    let mut cur = Reader::new(raw);
    let n: u32 = match cur.read_map_len() {
        Ok(n) => n,
        Err(_) => {
            return false;
        },
    };
    let ghost whole = approves(cur@, n as nat, needle@);
    let mut found = false;
    let mut i: u32 = 0;
    let none: &[u8] = slice_subrange(raw, 0, 0);
    assert(none@ =~= Seq::<u8>::empty());
    while i < n
        invariant
            i <= n,
            whole == (found || approves(cur@, (n - i) as nat, needle@)),
        decreases n - i,
    {
        let is_m = match cur.read_str_ref() {
            Ok(k) => str_eq(k, "m"),
            Err(MsgpackError::Mismatch) => false,
            Err(_) => {
                return found;
            },
        };
        let ghost t = cur@;
        let taken = cur.capture_subtree();
        let value = match taken {
            Ok(v) => {
                assert(v@ =~= t.take(t.len() - cur@.len()));
                v
            },
            Err(_) => none,
        };
        if is_m && contains_subslice(value, needle) {
            found = true;
        }
        match taken {
            Err(MsgpackError::CutShort) => {
                return found;
            },
            _ => {},
        }
        i = i + 1;
    }
    found
}

/// The address of the user that stands first, and whether a part of the state approves.
#[verifier::loop_isolation(false)]
fn read_approver<'a>(cur: &mut Reader<'a>, needle: &[u8]) -> (r: Result<
    (&'a str, bool),
    MsgpackError,
>)
    ensures
        match approver_at(old(cur)@, needle@) {
            Some((v, t)) => r is Ok && r->Ok_0.0@ == v.0 && r->Ok_0.1 == v.1 && final(cur)@ == t,
            None => r is Err,
        },
{
    let p: u32 = cur.read_array_len()?;
    let addr = cur.read_str_ref()?;
    let n: u32 = if p > 0 {
        p - 1
    } else {
        0
    };
    let ghost whole = parts_approve(cur@, n as nat, false, needle@);
    let mut found = false;
    let mut i: u32 = 0;
    while i < n
        invariant
            i <= n,
            whole == parts_approve(cur@, (n - i) as nat, found, needle@),
        decreases n - i,
    {
        let ghost s = cur@;
        let sub = cur.capture_subtree()?;
        assert(sub@ =~= s.take(s.len() - cur@.len()));
        if is_approval(sub, needle) {
            found = true;
        }
        i = i + 1;
    }
    Ok((addr, found))
}

#[verifier::loop_isolation(false)]
fn parse_approvers(cur: &mut Reader, needle: &[u8]) -> (r: Result<StrMap<()>, MsgpackError>)
    ensures
        walk::parsed(
            walk::in_array(
                old(cur)@,
                Map::<Seq<char>, ()>::empty(),
                |a, s| one_approver(needle@, a, s),
            ),
            r,
            final(cur)@,
        ),
{
    let ghost bytes = needle@;
    let ghost f: spec_fn(Map<Seq<char>, ()>, Seq<u8>) -> Option<(Map<Seq<char>, ()>, Seq<u8>)> =
        |a, s| one_approver(bytes, a, s);
    let ghost whole = walk::in_array(cur@, Map::<Seq<char>, ()>::empty(), f);
    let n: u32 = cur.read_array_len()?;
    let mut acc: StrMap<()> = StrMap::new();
    let mut i: u32 = 0;
    while i < n
        invariant
            i <= n,
            whole == walk::items(cur@, (n - i) as nat, acc@, f),
        decreases n - i,
    {
        let (addr, found) = read_approver(cur, needle)?;
        if found {
            acc.insert(to_lowercase(addr), ());
        }
        i = i + 1;
    }
    Ok(acc)
}

/// The users of a snapshot who approved the builder's fees, in lower case: those whose state holds
/// the builder's address under "m".
pub fn extract_builder_approval_users(data: &[u8], builder_hex: &str) -> (r: Result<
    StrMap<()>,
    SnapshotError,
>)
    ensures
        match approvers_of(data@, builder_hex@) {
            Some(m) => r is Ok && r->Ok_0@ == m,
            None => r == Err::<StrMap<()>, SnapshotError>(SnapshotError),
        },
{
    let builder = to_lowercase(builder_hex);
    let needle = builder.as_str().as_bytes();
    let mut cur = Reader::new(data);
    match seek_ftr(&mut cur, "user_states") {
        Ok(true) => match parse_approvers(&mut cur, needle) {
            Ok(found) => Ok(found),
            Err(_) => Err(SnapshotError),
        },
        Ok(false) => Ok(StrMap::new()),
        Err(_) => Err(SnapshotError),
    }
}

// ── Which keys there are ─────────────────────────────────────────────────

/// A line on the keys of a snapshot.
pub enum KeyLine {
    /// A key under "locus".
    Locus(String),
    /// A key under "ftr".
    Ftr(String),
    /// How many of the users approve the builder.
    Approvers { approvers: u32, users: u32 },
}

/// What a line on the keys holds.
pub enum KeyModel {
    Locus(Seq<char>),
    Ftr(Seq<char>),
    Approvers { approvers: u32, users: u32 },
}

impl View for KeyLine {
    type V = KeyModel;

    open spec fn view(&self) -> KeyModel {
        match self {
            KeyLine::Locus(k) => KeyModel::Locus(k@),
            KeyLine::Ftr(k) => KeyModel::Ftr(k@),
            KeyLine::Approvers { approvers, users } => KeyModel::Approvers {
                approvers: *approvers,
                users: *users,
            },
        }
    }
}

/// The builder whose approvals are counted.
pub const BUILDER: &'static str = "0x74c362cd3a141769f38c48d66ee51b1938ea4bd0";

/// One more user, counted where a part of the state approves.
pub open spec fn one_counted(a: u32, s: Seq<u8>) -> Option<(u32, Seq<u8>)> {
    match approver_at(s, vstd::utf8::encode_utf8(BUILDER@)) {
        Some(((_, b), t)) => Some(
            (
                if b {
                    (a + 1) as u32
                } else {
                    a
                },
                t,
            ),
        ),
        None => None,
    }
}

/// The lines on the next `n` keys under "ftr", and the bytes behind them; no bytes where the data is
/// not of the expected form.
pub open spec fn ftr_lines(s: Seq<u8>, n: nat, acc: Seq<KeyModel>) -> (
    Seq<KeyModel>,
    Option<Seq<u8>>,
)
    decreases n,
{
    if n == 0 {
        (acc, Some(s))
    } else {
        match walk::a_text(s) {
            Some((k, t)) => {
                let seen = acc.push(KeyModel::Ftr(k));
                if k == "user_states"@ {
                    match crate::msgpack::array_length(t) {
                        Out::Good(users, u) => match walk::items(
                            u,
                            users,
                            0u32,
                            |a, s| one_counted(a, s),
                        ) {
                            Some((approvers, v)) => ftr_lines(
                                v,
                                (n - 1) as nat,
                                seen.push(
                                    KeyModel::Approvers { approvers, users: users as u32 },
                                ),
                            ),
                            None => (seen, None),
                        },
                        _ => (seen, None),
                    }
                } else {
                    match crate::msgpack::skipped(t) {
                        Out::Good(_, u) => ftr_lines(u, (n - 1) as nat, seen),
                        _ => (seen, None),
                    }
                }
            },
            None => (acc, None),
        }
    }
}

/// The lines on the next `n` keys under "locus".
pub open spec fn locus_lines(s: Seq<u8>, n: nat, acc: Seq<KeyModel>) -> (
    Seq<KeyModel>,
    Option<Seq<u8>>,
)
    decreases n,
{
    if n == 0 {
        (acc, Some(s))
    } else {
        match walk::a_text(s) {
            Some((k, t)) => {
                let seen = acc.push(KeyModel::Locus(k));
                if k == "ftr"@ {
                    match crate::msgpack::map_length(t) {
                        Out::Good(m, u) => match ftr_lines(u, m, seen) {
                            (lines, Some(v)) => locus_lines(v, (n - 1) as nat, lines),
                            (lines, None) => (lines, None),
                        },
                        _ => (seen, None),
                    }
                } else {
                    match crate::msgpack::skipped(t) {
                        Out::Good(_, u) => locus_lines(u, (n - 1) as nat, seen),
                        _ => (seen, None),
                    }
                }
            },
            None => (acc, None),
        }
    }
}

/// The lines on a snapshot's keys, and whether the data was of the expected form to the end.
pub open spec fn key_lines(s: Seq<u8>) -> (Seq<KeyModel>, bool) {
    match crate::msgpack::seek_map(s, "exchange"@) {
        Some(t) => match place_in(t, "locus"@) {
            Some((Some(p), _)) => match crate::msgpack::map_length(p) {
                Out::Good(n, u) => {
                    let (lines, end) = locus_lines(u, n, Seq::empty());
                    (lines, end is Some)
                },
                _ => (Seq::empty(), false),
            },
            Some((None, _)) => (Seq::empty(), true),
            None => (Seq::empty(), false),
        },
        None => (Seq::empty(), false),
    }
}

/// What the lines hold.
pub open spec fn line_views(v: Seq<KeyLine>) -> Seq<KeyModel> {
    v.map_values(|l: KeyLine| l@)
}

fn add_line(lines: &mut Vec<KeyLine>, line: KeyLine)
    ensures
        line_views(final(lines)@) == line_views(old(lines)@).push(line@),
{
    let ghost before = lines@;
    lines.push(line);
    assert(line_views(lines@) =~= line_views(before).push(line@));
}

#[verifier::loop_isolation(false)]
fn count_approvers(cur: &mut Reader, n: u32) -> (r: Result<u32, MsgpackError>)
    ensures
        walk::parsed(
            walk::items(old(cur)@, n as nat, 0u32, |a, s| one_counted(a, s)),
            r,
            final(cur)@,
        ),
{
    let ghost f: spec_fn(u32, Seq<u8>) -> Option<(u32, Seq<u8>)> = |a, s| one_counted(a, s);
    let ghost whole = walk::items(cur@, n as nat, 0u32, f);
    let needle = BUILDER.as_bytes();
    let mut count: u32 = 0;
    let mut i: u32 = 0;
    while i < n
        invariant
            count <= i <= n,
            whole == walk::items(cur@, (n - i) as nat, count, f),
        decreases n - i,
    {
        let (_, found) = read_approver(cur, needle)?;
        if found {
            count = count + 1;
        }
        i = i + 1;
    }
    Ok(count)
}

#[verifier::loop_isolation(false)]
fn dump_ftr(cur: &mut Reader, n: u32, lines: &mut Vec<KeyLine>) -> (r: bool)
    ensures
        ({
            let (v, end) = ftr_lines(old(cur)@, n as nat, line_views(old(lines)@));
            line_views(final(lines)@) == v && match end {
                Some(t) => r && final(cur)@ == t,
                None => !r,
            }
        }),
{
    let ghost whole = ftr_lines(cur@, n as nat, line_views(lines@));
    let mut i: u32 = 0;
    while i < n
        invariant
            i <= n,
            whole == ftr_lines(cur@, (n - i) as nat, line_views(lines@)),
        decreases n - i,
    {
        let k = match cur.read_str_ref() {
            Ok(k) => k,
            Err(_) => {
                return false;
            },
        };
        add_line(lines, KeyLine::Ftr(k.to_owned()));
        if str_eq(k, "user_states") {
            let users: u32 = match cur.read_array_len() {
                Ok(users) => users,
                Err(_) => {
                    return false;
                },
            };
            match count_approvers(cur, users) {
                Ok(approvers) => {
                    add_line(lines, KeyLine::Approvers { approvers, users });
                },
                Err(_) => {
                    return false;
                },
            }
        } else if cur.skip_value().is_err() {
            return false;
        }
        i = i + 1;
    }
    true
}

#[verifier::loop_isolation(false)]
fn dump_locus(cur: &mut Reader, n: u32, lines: &mut Vec<KeyLine>) -> (r: bool)
    ensures
        ({
            let (v, end) = locus_lines(old(cur)@, n as nat, line_views(old(lines)@));
            line_views(final(lines)@) == v && r == (end is Some)
        }),
{
    let ghost whole = locus_lines(cur@, n as nat, line_views(lines@));
    let mut i: u32 = 0;
    while i < n
        invariant
            i <= n,
            whole == locus_lines(cur@, (n - i) as nat, line_views(lines@)),
        decreases n - i,
    {
        let k = match cur.read_str_ref() {
            Ok(k) => k,
            Err(_) => {
                return false;
            },
        };
        add_line(lines, KeyLine::Locus(k.to_owned()));
        if str_eq(k, "ftr") {
            let m: u32 = match cur.read_map_len() {
                Ok(m) => m,
                Err(_) => {
                    return false;
                },
            };
            if !dump_ftr(cur, m, lines) {
                return false;
            }
        } else if cur.skip_value().is_err() {
            return false;
        }
        i = i + 1;
    }
    true
}

/// Lists the keys under "locus" and "ftr" of a snapshot, with the number of users who approve the
/// builder. Says too whether the data was of the expected form to the end.
pub fn dump_locus_ftr_keys(data: &[u8]) -> (r: (Vec<KeyLine>, bool))
    ensures
        (line_views(r.0@), r.1) == key_lines(data@),
{
    let mut lines: Vec<KeyLine> = Vec::new();
    assert(line_views(lines@) =~= Seq::<KeyModel>::empty());
    let mut cur = Reader::new(data);
    if cur.map_seek("exchange").is_err() {
        return (lines, false);
    }
    match seek_in(&mut cur, "locus") {
        Ok(true) => match cur.read_map_len() {
            Ok(n) => {
                let whole = dump_locus(&mut cur, n, &mut lines);
                (lines, whole)
            },
            Err(_) => (lines, false),
        },
        Ok(false) => (lines, true),
        Err(_) => (lines, false),
    }
}

/// The next `n` keys of a map, each with the first byte of its value, and whether the data was of the
/// expected form to the end.
pub open spec fn first_bytes(s: Seq<u8>, n: nat, acc: Seq<(Seq<char>, u8)>) -> (
    Seq<(Seq<char>, u8)>,
    bool,
)
    decreases n,
{
    if n == 0 {
        (acc, true)
    } else {
        match walk::a_text(s) {
            Some((k, t)) => if t.len() == 0 {
                (acc, false)
            } else {
                match crate::msgpack::skipped(t) {
                    Out::Good(_, u) => first_bytes(u, (n - 1) as nat, acc.push((k, t[0]))),
                    _ => (acc.push((k, t[0])), false),
                }
            },
            None => (acc, false),
        }
    }
}

/// The keys at the root of a snapshot; nothing where the root is no map.
pub open spec fn root_keys(s: Seq<u8>) -> Option<(u32, Seq<(Seq<char>, u8)>, bool)> {
    match crate::msgpack::map_length(s) {
        Out::Good(n, t) => {
            let (keys, whole) = first_bytes(t, n, Seq::empty());
            Some((n as u32, keys, whole))
        },
        _ => None,
    }
}

/// What a list of keys holds.
pub open spec fn key_views(v: Seq<(String, u8)>) -> Seq<(Seq<char>, u8)> {
    v.map_values(|k: (String, u8)| (k.0@, k.1))
}

/// Lists the keys at the root of a snapshot, each with the first byte of its value: their number, the
/// keys, and whether the data was of the expected form to the end. Nothing where the root is no map.
#[verifier::loop_isolation(false)]
pub fn probe_book_structure(data: &[u8]) -> (r: Option<(u32, Vec<(String, u8)>, bool)>)
    ensures
        match (root_keys(data@), r) {
            (Some((n, keys, whole)), Some(found)) => found.0 == n && key_views(found.1@) == keys
                && found.2 == whole,
            (None, None) => true,
            _ => false,
        },
{
    let mut cur = Reader::new(data);
    let n: u32 = match cur.read_map_len() {
        Ok(n) => n,
        Err(_) => {
            return None;
        },
    };
    let mut keys: Vec<(String, u8)> = Vec::new();
    assert(key_views(keys@) =~= Seq::<(Seq<char>, u8)>::empty());
    let ghost all = first_bytes(cur@, n as nat, key_views(keys@));
    let mut i: u32 = 0;
    while i < n
        invariant
            i <= n,
            all == first_bytes(cur@, (n - i) as nat, key_views(keys@)),
        decreases n - i,
    {
        let k = match cur.read_str_ref() {
            Ok(k) => k,
            Err(_) => {
                return Some((n, keys, false));
            },
        };
        match cur.peek_marker() {
            Some(b) => {
                let ghost before = keys@;
                keys.push((k.to_owned(), b));
                assert(key_views(keys@) =~= key_views(before).push((k@, b)));
            },
            None => {
                return Some((n, keys, false));
            },
        }
        if cur.skip_value().is_err() {
            return Some((n, keys, false));
        }
        i = i + 1;
    }
    Some((n, keys, true))
}

} // verus!

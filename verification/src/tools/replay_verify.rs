//! Choosing two snapshots and the recorded files between them, and reporting what differs.
use crate::clearing_house::compare::BalanceDrift;
use crate::clearing_house::replay::{block_height_from_rmp, extract_block_number};
use crate::order::stable_order;
use crate::strmap::StrMap;
use crate::text::{
    chars_of, decimal_string, push_char, push_text, starts_with, str_eq, text_of, to_lowercase, trim,
};
use vstd::prelude::*;

verus! {

// ── Snapshots ────────────────────────────────────────────────────────────

/// The height that the name of a snapshot gives.
pub open spec fn height_of(stem: Seq<char>) -> Option<u64> {
    match crate::text::decimal(stem, u64::MAX as nat) {
        Some(n) => Some(n as u64),
        None => None,
    }
}

/// Whether one snapshot comes before another: by height, those whose names give none first, and of
/// equals as they were listed.
pub open spec fn lower(stems: Seq<Seq<char>>, a: int, b: int) -> bool {
    match (height_of(stems[a]), height_of(stems[b])) {
        (Some(x), Some(y)) => x < y || x == y && a < b,
        (None, Some(_)) => true,
        (Some(_), None) => false,
        (None, None) => a < b,
    }
}

/// The places of the snapshots, from their names without endings, in the order of their heights. Every
/// snapshot comes once.
pub fn snapshot_order(stems: &Vec<String>) -> (r: Vec<usize>)
    ensures
        r@.len() == stems@.len(),
        r@.no_duplicates(),
        forall|x: usize| r@.contains(x) <==> x < stems@.len(),
        forall|i: int, j: int|
            0 <= i < j < r@.len() ==> lower(
                crate::json::texts(stems@),
                #[trigger] r@[i] as int,
                #[trigger] r@[j] as int,
            ),
{
    let ghost names = crate::json::texts(stems@);
    let mut ranks: Vec<u128> = Vec::new();
    let mut i: usize = 0;
    while i < stems.len()
        invariant
            i <= stems@.len(),
            names == crate::json::texts(stems@),
            ranks@.len() == i,
            forall|k: int|
                0 <= k < i ==> #[trigger] ranks@[k] == match height_of(names[k]) {
                    Some(h) => h + 1,
                    None => 0,
                },
        decreases stems@.len() - i,
    {
        assert(names[i as int] == stems@[i as int]@);
        let rank: u128 = match block_height_from_rmp(stems[i].as_str()) {
            Some(h) => h as u128 + 1,
            None => 0,
        };
        ranks.push(rank);
        i = i + 1;
    }
    let r = stable_order(&ranks);
    proof {
        assert forall|i: int, j: int| 0 <= i < j < r@.len() implies lower(
            names,
            #[trigger] r@[i] as int,
            #[trigger] r@[j] as int,
        ) by {
            assert(r@.contains(r@[i]) && r@.contains(r@[j]));
            assert(crate::order::ranked_before(ranks@, r@[i] as int, r@[j] as int));
        }
        assert forall|i: int, j: int| 0 <= i < j < r@.len() implies r@[i] != r@[j] by {
            assert(lower(names, r@[i] as int, r@[j] as int));
        }
    }
    r
}

/// The first of the snapshots that has the height, from a place on.
pub open spec fn first_with(stems: Seq<Seq<char>>, block: u64, from: int) -> Option<int>
    decreases stems.len() - from,
{
    if from < 0 || from >= stems.len() {
        None
    } else if height_of(stems[from]) == Some(block) {
        Some(from)
    } else {
        first_with(stems, block, from + 1)
    }
}

/// What is said of a height that no snapshot has.
pub open spec fn not_found_text(block: u64) -> Seq<char> {
    "Snapshot block "@ + crate::text::decimal_text(block as nat)
        + " not found in periodic_abci_states"@
}

/// What is said of a height that only the last snapshot has.
pub open spec fn last_text(block: u64) -> Seq<char> {
    "Snapshot block "@ + crate::text::decimal_text(block as nat)
        + " is the last available snapshot and has no following snapshot to compare against"@
}

fn about_snapshot(block: u64, rest: &str) -> (r: String)
    ensures
        r@ == "Snapshot block "@ + crate::text::decimal_text(block as nat) + rest@,
{
    let mut r = "Snapshot block ".to_owned();
    let b = decimal_string(block);
    push_text(&mut r, b.as_str());
    push_text(&mut r, rest);
    r
}

/// Chooses two snapshots that follow each other, from their names without endings, in order. The
/// first is the one of the given height, or the last but one.
pub fn select_snapshot_pair(stems: &Vec<String>, from_block: Option<u64>) -> (r: Result<
    (usize, usize),
    String,
>)
    requires
        from_block is None ==> stems@.len() >= 2,
    ensures
        match from_block {
            None => r is Ok && r->Ok_0 == ((stems@.len() - 2) as usize, (stems@.len() - 1) as usize),
            Some(block) => match first_with(crate::json::texts(stems@), block, 0) {
                None => r is Err && r->Err_0@ == not_found_text(block),
                Some(i) => if i + 1 >= stems@.len() {
                    r is Err && r->Err_0@ == last_text(block)
                } else {
                    r is Ok && r->Ok_0 == (i as usize, (i + 1) as usize)
                },
            },
        },
{
    let block: u64 = match from_block {
        None => {
            return Ok((stems.len() - 2, stems.len() - 1));
        },
        Some(b) => b,
    };
    let ghost names = crate::json::texts(stems@);
    let mut i: usize = 0;
    while i < stems.len()
        invariant
            i <= stems@.len(),
            names == crate::json::texts(stems@),
            from_block == Some(block),
            first_with(names, block, i as int) == first_with(names, block, 0),
        decreases stems@.len() - i,
    {
        let found = match block_height_from_rmp(stems[i].as_str()) {
            Some(h) => h == block,
            None => false,
        };
        assert(names[i as int] == stems@[i as int]@);
        if found {
            let all: usize = stems.len();
            if i == all - 1 {
                return Err(
                    about_snapshot(
                        block,
                        " is the last available snapshot and has no following snapshot to compare against",
                    ),
                );
            }
            return Ok((i, i + 1));
        }
        i = i + 1;
    }
    Err(about_snapshot(block, " not found in periodic_abci_states"))
}

// ── Paths ────────────────────────────────────────────────────────────────

/// A path below another. A path that starts at the root is not below any.
pub open spec fn path_below(base: Seq<char>, rest: Seq<char>) -> Seq<char> {
    if rest.len() > 0 && rest[0] == '/' {
        rest
    } else if base.len() == 0 || base.last() == '/' {
        base + rest
    } else {
        base.push('/') + rest
    }
}

/// The path with the home directory in place of a tilde at its start.
pub open spec fn expanded(path: Seq<char>, home: Option<Seq<char>>) -> Seq<char> {
    match home {
        Some(h) => if path == "~"@ {
            h
        } else if "~/"@.is_prefix_of(path) {
            path_below(h, path.skip(2))
        } else {
            path
        },
        None => path,
    }
}

/// The path with the home directory in place of a tilde at its start.
pub fn expand_tilde_path(path: &str, home: &Option<String>) -> (r: String)
    ensures
        r@ == expanded(path@, crate::json::text_opt(*home)),
{
    let h = match home {
        Some(h) => h,
        None => {
            return path.to_owned();
        },
    };
    if str_eq(path, "~") {
        return h.clone();
    }
    if !starts_with(path, "~/") {
        return path.to_owned();
    }
    proof {
        reveal_strlit("~/");
    }
    let cs = chars_of(path);
    let all: usize = cs.len();
    let rest = text_of(&cs, 2, all);
    assert(rest@ =~= path@.skip(2));
    let hs = chars_of(h.as_str());
    let n: usize = hs.len();
    if all > 2 && cs[2] == '/' {
        return rest;
    }
    let mut r = h.clone();
    if !(n == 0 || hs[n - 1] == '/') {
        push_char(&mut r, '/');
    }
    push_text(&mut r, rest.as_str());
    r
}

// ── Users ────────────────────────────────────────────────────────────────

/// The parts of a text between the separators.
pub open spec fn pieces(s: Seq<char>, c: char) -> Seq<Seq<char>>
    decreases s.len(),
{
    if s.len() == 0 {
        seq![Seq::<char>::empty()]
    } else {
        let before = pieces(s.drop_last(), c);
        if s.last() == c {
            before.push(Seq::empty())
        } else {
            before.update(before.len() - 1, before.last().push(s.last()))
        }
    }
}

/// The parts of a text between the separators.
pub fn split_on(s: &str, c: char) -> (r: Vec<String>)
    ensures
        crate::json::texts(r@) == pieces(s@, c),
{
    let cs = chars_of(s);
    let mut r: Vec<String> = Vec::new();
    let mut piece = String::new();
    let mut i: usize = 0;
    proof {
        assert(cs@.take(0) =~= Seq::<char>::empty());
        assert(crate::json::texts(r@).push(piece@) =~= seq![Seq::<char>::empty()]);
    }
    while i < cs.len()
        invariant
            i <= cs@.len(),
            crate::json::texts(r@).push(piece@) == pieces(cs@.take(i as int), c),
        decreases cs@.len() - i,
    {
        let ghost was = crate::json::texts(r@);
        let ghost old_piece = piece@;
        proof {
            assert(cs@.take(i + 1).drop_last() =~= cs@.take(i as int));
        }
        if cs[i] == c {
            r.push(piece);
            piece = String::new();
            proof {
                assert(piece@ =~= Seq::<char>::empty());
                assert(crate::json::texts(r@) =~= was.push(old_piece));
            }
        } else {
            push_char(&mut piece, cs[i]);
            proof {
                let before = was.push(old_piece);
                assert(was.push(piece@) =~= before.update(
                    before.len() - 1,
                    before.last().push(cs@[i as int]),
                ));
            }
        }
        i = i + 1;
    }
    let ghost was = crate::json::texts(r@);
    let ghost last = piece@;
    r.push(piece);
    proof {
        assert(crate::json::texts(r@) =~= was.push(last));
        assert(cs@.take(cs@.len() as int) =~= s@);
    }
    r
}

/// Whether a user is named by one of the first `n` parts of a list.
pub open spec fn user_listed(ps: Seq<Seq<char>>, u: Seq<char>, n: int) -> bool {
    exists|i: int|
        0 <= i < n && (#[trigger] ps[i]).len() > 0 && crate::text::lowercase(
            crate::text::trimmed(ps[i]),
        ) == u
}

/// The users of a list with commas, in small letters.
pub fn parse_user_list(text: &str) -> (r: StrMap<()>)
    ensures
        forall|u: Seq<char>| #[trigger]
            r@.contains_key(u) <==> user_listed(pieces(text@, ','), u, pieces(text@, ',').len() as int),
{
    let ps = split_on(text, ',');
    let ghost all = crate::json::texts(ps@);
    let mut r: StrMap<()> = StrMap::new();
    proof {
        reveal_strlit("");
        assert(""@ =~= Seq::<char>::empty());
    }
    let mut i: usize = 0;
    while i < ps.len()
        invariant
            i <= ps@.len(),
            all == crate::json::texts(ps@),
            ""@ == Seq::<char>::empty(),
            forall|u: Seq<char>| #[trigger]
                r@.contains_key(u) <==> user_listed(all, u, i as int),
        decreases ps@.len() - i,
    {
        let ghost before = r@;
        let p = ps[i].as_str();
        assert(all[i as int] == p@);
        if !str_eq(p, "") {
            let t = trim(p);
            let u = to_lowercase(t.as_str());
            r.insert(u, ());
        }
        proof {
            let new = crate::text::lowercase(crate::text::trimmed(p@));
            if p@.len() == 0 {
                assert(p@ =~= ""@);
            }
            assert forall|u: Seq<char>| #[trigger] r@.contains_key(u) <==> user_listed(all, u, i + 1) by {
                assert(before.contains_key(u) <==> user_listed(all, u, i as int));
                if user_listed(all, u, i + 1) {
                    let j = choose|j: int|
                        0 <= j < i + 1 && (#[trigger] all[j]).len() > 0 && crate::text::lowercase(
                            crate::text::trimmed(all[j]),
                        ) == u;
                    if j < i {
                        assert(user_listed(all, u, i as int));
                    }
                }
                if user_listed(all, u, i as int) {
                    let j = choose|j: int|
                        0 <= j < i && (#[trigger] all[j]).len() > 0 && crate::text::lowercase(
                            crate::text::trimmed(all[j]),
                        ) == u;
                    assert(all[j].len() > 0);
                }
            }
        }
        i = i + 1;
    }
    r
}

// ── Recorded files ───────────────────────────────────────────────────────

/// How much of the end of a file is read to find its last block.
pub const TAIL_BYTES: u64 = 32_768;

/// Where the end of a file starts that is read.
pub fn tail_start(size: u64) -> (r: u64)
    ensures
        r == if size > TAIL_BYTES {
            size - TAIL_BYTES
        } else {
            0
        },
{
    if size > TAIL_BYTES {
        size - TAIL_BYTES
    } else {
        0
    }
}

/// The block number of the last of the first `n` lines that starts an object and has one.
pub open spec fn last_block(ls: Seq<Seq<char>>, n: int) -> Option<u64>
    decreases n,
{
    if n <= 0 {
        None
    } else {
        let l = ls[n - 1];
        if "{"@.is_prefix_of(l) && crate::clearing_house::replay::block_number_in(l) is Some {
            crate::clearing_house::replay::block_number_in(l)
        } else {
            last_block(ls, n - 1)
        }
    }
}

/// The block number of the last line that starts an object and has one. A line that was cut at its
/// start does not count.
pub fn last_block_in(lines: &Vec<String>) -> (r: Option<u64>)
    ensures
        r == last_block(crate::json::texts(lines@), lines@.len() as int),
{
    let ghost ls = crate::json::texts(lines@);
    let mut n: usize = lines.len();
    while n > 0
        invariant
            n <= lines@.len(),
            ls == crate::json::texts(lines@),
            last_block(ls, n as int) == last_block(ls, lines@.len() as int),
        decreases n,
    {
        let l = lines[n - 1].as_str();
        assert(ls[n - 1] == l@);
        if starts_with(l, "{") {
            if let Some(b) = extract_block_number(l) {
                return Some(b);
            }
        }
        n = n - 1;
    }
    None
}

/// Whether a file with the given first and last blocks may hold a block of the range; a block that is
/// not known rules nothing out.
pub fn file_overlaps_range(first: Option<u64>, last: Option<u64>, from_block: u64, to_block: u64) -> (r:
    bool)
    ensures
        r == ((match last {
            Some(b) => b,
            None => u64::MAX,
        }) > from_block && (match first {
            Some(b) => b,
            None => 0,
        }) <= to_block),
{
    let f: u64 = match first {
        Some(b) => b,
        None => 0,
    };
    let l: u64 = match last {
        Some(b) => b,
        None => u64::MAX,
    };
    l > from_block && f <= to_block
}

// ── Drifts ───────────────────────────────────────────────────────────────

/// How far two balances are apart.
pub open spec fn apart(d: BalanceDrift) -> int {
    if d.replay_balance >= d.truth_balance {
        d.replay_balance - d.truth_balance
    } else {
        d.truth_balance - d.replay_balance
    }
}

/// The rank of a drift: the larger comes first.
pub open spec fn drift_ranks(ds: Seq<BalanceDrift>) -> Seq<u128> {
    ds.map_values(|d: BalanceDrift| (u64::MAX - apart(d)) as u128)
}

/// The drifts by size, the largest first; equal ones stay in order.
pub fn by_drift(drifts: &Vec<BalanceDrift>) -> (r: Vec<usize>)
    ensures
        r@.len() == drifts@.len(),
        forall|x: usize| r@.contains(x) <==> x < drifts@.len(),
        crate::order::in_rank_order(drift_ranks(drifts@), r@),
{
    let mut ranks: Vec<u128> = Vec::new();
    let mut i: usize = 0;
    while i < drifts.len()
        invariant
            i <= drifts@.len(),
            ranks@ == drift_ranks(drifts@).take(i as int),
        decreases drifts@.len() - i,
    {
        let d = &drifts[i];
        let a: i128 = d.replay_balance as i128 - d.truth_balance as i128;
        let size: u64 = if a >= 0 {
            a as u64
        } else {
            (-a) as u64
        };
        ranks.push((u64::MAX - size) as u128);
        assert(ranks@ =~= drift_ranks(drifts@).take(i + 1));
        i = i + 1;
    }
    assert(ranks@ =~= drift_ranks(drifts@));
    stable_order(&ranks)
}

/// Of two drifts the one that comes first is not the smaller one.
pub proof fn law_largest_drift_first(ds: Seq<BalanceDrift>, order: Seq<usize>, i: int, j: int)
    requires
        crate::order::in_rank_order(drift_ranks(ds), order),
        forall|x: usize| order.contains(x) <==> x < ds.len(),
        0 <= i < j < order.len(),
    ensures
        apart(ds[order[i] as int]) >= apart(ds[order[j] as int]),
{
    assert(order.contains(order[i]));
    assert(order.contains(order[j]));
    assert(crate::order::ranked_before(drift_ranks(ds), order[i] as int, order[j] as int));
}

} // verus!

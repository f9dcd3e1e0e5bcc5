//! What holds of the tools, whatever they are given.
use crate::arrivals::ArrivalsModel;
use crate::clearing_house::DexModel;
use crate::tools::node_sync::{
    advance_ms_of,
    advanced,
    down_count,
    known_lags,
    lag_of,
    status_of,
    two_digits,
    wrapped_sum,
    Reading,
};
use crate::tools::replay_verify::{expanded, first_with, height_of, last_block, lower, pieces};
use crate::tools::rmp_inspect::{listed, plain_args, tables_of};
use crate::tools::user_trace::{
    fills_of,
    fitting,
    fundings_of,
    is_shown,
    misc_of,
    role_of,
    side_named,
    signer_start,
    Ties,
    TraceModel,
};
use vstd::prelude::*;

verus! {

// ── How far a node is behind ─────────────────────────────────────────────

/// The status of a node goes by how many seconds it is behind: under five, under thirty, under two
/// minutes, or more.
pub proof fn law_status_goes_by_the_lag(lag: u64)
    ensures
        lag < 5 ==> status_of(lag) == "SYNCED"@,
        5 <= lag < 30 ==> status_of(lag) == "BEHIND"@,
        30 <= lag < 120 ==> status_of(lag) == "LAGGING"@,
        120 <= lag ==> status_of(lag) == "FAR_BEHIND"@,
{
}

/// The lag is the number of whole seconds since the block; a block of the future is none behind.
pub proof fn law_lag_is_whole_seconds(now: u64, block: u64)
    ensures
        now >= block ==> lag_of(now, block) * 1_000 <= now - block < (lag_of(now, block) + 1) * 1_000,
        now < block ==> lag_of(now, block) == 0,
{
}

/// A node advances by the time between two blocks, and stalls where there is none.
pub proof fn law_nodes_advance(before: u64, block: u64)
    ensures
        advanced(None, block) is FirstCheck,
        advance_ms_of(advanced(None, block)) is None,
        block <= before ==> advanced(Some(before), block) is Stalled && advance_ms_of(
            advanced(Some(before), block),
        ) == Some(0i64),
        block > before ==> advanced(Some(before), block) is By && before + advanced(
            Some(before),
            block,
        )->ms == block,
        before < block <= i64::MAX ==> advance_ms_of(advanced(Some(before), block))->0 == block - before,
{
}

/// A number below a hundred has two digits, tens first.
pub proof fn law_two_digits(n: nat)
    requires
        n < 100,
    ensures
        two_digits(n).len() == 2,
        two_digits(n)[0] as int - '0' as int == n / 10,
        two_digits(n)[1] as int - '0' as int == n % 10,
{
    reveal_strlit("0");
    reveal_with_fuel(crate::text::decimal_text, 3);
}

/// How many of the first `n` readings have a lag.
pub open spec fn with_lag(rs: Seq<Reading>, n: int) -> int
    decreases n,
{
    if n <= 0 {
        0
    } else {
        with_lag(rs, n - 1) + if rs[n - 1].lag_seconds is Some {
            1int
        } else {
            0
        }
    }
}

proof fn lemma_with_lag(rs: Seq<Reading>, n: int)
    requires
        0 <= n <= rs.len(),
    ensures
        known_lags(rs, n).len() == with_lag(rs, n),
        with_lag(rs, n) >= 0,
    decreases n,
{
    if n > 0 {
        lemma_with_lag(rs, n - 1);
    }
}

/// The lags that are known are those of the readings that have one, in order. A reading is down where
/// its status says so, and nowhere else.
pub proof fn law_known_lags(rs: Seq<Reading>, n: int, i: int)
    requires
        0 <= i < n <= rs.len(),
    ensures
        known_lags(rs, n).len() == with_lag(rs, n),
        rs[i].lag_seconds is Some ==> 0 <= with_lag(rs, i) < known_lags(rs, n).len() && known_lags(
            rs,
            n,
        )[with_lag(rs, i)] == rs[i].lag_seconds->0,
        down_count(rs, i + 1) == down_count(rs, i) + (if rs[i].status@ == "DOWN"@ {
            1int
        } else {
            0
        }),
        down_count(rs, 0) == 0,
    decreases n,
{
    lemma_with_lag(rs, n);
    lemma_with_lag(rs, i);
    lemma_with_lag(rs, n - 1);
    if i < n - 1 {
        law_known_lags(rs, n - 1, i);
    }
}

/// The sum of the first `n` numbers.
pub open spec fn plain_sum(v: Seq<i64>, n: int) -> int
    decreases n,
{
    if n <= 0 {
        0
    } else {
        plain_sum(v, n - 1) + v[n - 1]
    }
}

/// The lags add up, while the sum fits.
pub proof fn law_lags_add_up(v: Seq<i64>, n: int)
    requires
        0 <= n <= v.len(),
        forall|k: int| 0 <= k <= n ==> i64::MIN <= #[trigger] plain_sum(v, k) <= i64::MAX,
    ensures
        wrapped_sum(v, n) == plain_sum(v, n),
    decreases n,
{
    if n > 0 {
        law_lags_add_up(v, n - 1);
        assert(i64::MIN <= plain_sum(v, n) <= i64::MAX);
        assert(i64::MIN <= plain_sum(v, n - 1) <= i64::MAX);
    }
}

// ── Snapshots and users ──────────────────────────────────────────────────

proof fn lemma_first_with(stems: Seq<Seq<char>>, block: u64, from: int)
    requires
        0 <= from <= stems.len(),
    ensures
        match first_with(stems, block, from) {
            Some(i) => from <= i < stems.len() && height_of(stems[i]) == Some(block) && forall|j: int|
                from <= j < i ==> height_of(#[trigger] stems[j]) != Some(block),
            None => forall|j: int|
                from <= j < stems.len() ==> height_of(#[trigger] stems[j]) != Some(block),
        },
    decreases stems.len() - from,
{
    if from < stems.len() && height_of(stems[from]) != Some(block) {
        lemma_first_with(stems, block, from + 1);
    }
}

/// A snapshot is found by its height, which its name is: the first of that height, if there is any.
/// Snapshots are ordered by height.
pub proof fn law_snapshots_are_found_by_height(stems: Seq<Seq<char>>, block: u64, i: int, j: int)
    requires
        0 <= i < stems.len(),
        0 <= j < stems.len(),
        stems[i] == crate::text::decimal_text(block as nat),
    ensures
        ({
            let k = first_with(stems, block, 0);
            &&& k is Some
            &&& 0 <= k->0 <= i
            &&& height_of(stems[k->0]) == Some(block)
            &&& forall|m: int| 0 <= m < k->0 ==> height_of(#[trigger] stems[m]) != Some(block)
        }),
        height_of(stems[i]) == Some(block),
        height_of(stems[j]) is Some && height_of(stems[j])->0 > block ==> lower(stems, i, j) && !lower(
            stems,
            j,
            i,
        ),
{
    crate::text::lemma_digits_of(block as nat);
    assert(crate::text::is_digit(stems[i][0]));
    lemma_first_with(stems, block, 0);
}

/// A text falls into pieces at a character: what stands before it and what stands behind it fall into
/// theirs. A text without it is one piece.
pub proof fn law_texts_fall_into_pieces(a: Seq<char>, b: Seq<char>, c: char)
    ensures
        pieces(a + seq![c] + b, c) == pieces(a, c) + pieces(b, c),
        !a.contains(c) ==> pieces(a, c) == seq![a],
        pieces(b, c).len() > 0,
    decreases b.len(),
{
    lemma_one_piece(a, c);
    let s = a + seq![c] + b;
    if b.len() == 0 {
        assert(s =~= a.push(c));
        assert(s.drop_last() =~= a);
        assert(pieces(s, c) =~= pieces(a, c) + pieces(b, c));
    } else {
        law_texts_fall_into_pieces(a, b.drop_last(), c);
        assert(s.drop_last() =~= a + seq![c] + b.drop_last());
        assert(s.last() == b.last());
        let (x, y) = (pieces(a, c), pieces(b.drop_last(), c));
        assert((x + y).last() == y.last());
        assert(pieces(s, c) =~= x + pieces(b, c));
    }
}

proof fn lemma_one_piece(a: Seq<char>, c: char)
    ensures
        !a.contains(c) ==> pieces(a, c) == seq![a],
        pieces(a, c).len() > 0,
    decreases a.len(),
{
    if a.len() > 0 {
        lemma_one_piece(a.drop_last(), c);
        if !a.contains(c) {
            assert(a[a.len() - 1] != c);
            assert forall|i: int| 0 <= i < a.drop_last().len() implies a.drop_last()[i] != c by {
                assert(a.contains(a[i]));
            }
            assert(a.drop_last().push(a.last()) =~= a);
            assert(pieces(a, c) =~= seq![a]);
        }
    } else {
        assert(a =~= Seq::empty());
    }
}

/// A path that starts at home is taken below it; another is taken as it is.
pub proof fn law_paths_start_at_home(home: Seq<char>, rest: Seq<char>, path: Seq<char>)
    requires
        home.len() > 0 && home.last() != '/',
        rest.len() > 0 && rest[0] != '/',
        path.len() > 0 && path[0] != '~',
    ensures
        expanded("~/"@ + rest, Some(home)) == home + seq!['/'] + rest,
        expanded("~"@, Some(home)) == home,
        expanded(path, Some(home)) == path,
        expanded("~/"@ + rest, None) == "~/"@ + rest,
{
    reveal_strlit("~");
    reveal_strlit("~/");
    let p = "~/"@ + rest;
    assert(p.len() != 1);
    assert("~/"@.is_prefix_of(p)) by {
        assert(p.subrange(0, 2) =~= "~/"@);
    }
    assert(p.skip(2) =~= rest);
    assert(home.push('/') + rest =~= home + seq!['/'] + rest);
    assert(path != "~"@);
    if "~/"@.is_prefix_of(path) {
        assert(path.subrange(0, 2)[0] == '~');
    }
}

/// The last block of some lines is that of the last line that starts as JSON and has a number.
pub proof fn law_last_block_of_lines(ls: Seq<Seq<char>>, n: int, i: int)
    requires
        0 <= i < n <= ls.len(),
    ensures
        has_block(ls[i]) && (forall|j: int| i < j < n ==> !has_block(#[trigger] ls[j])) ==> last_block(
            ls,
            n,
        ) == crate::clearing_house::replay::block_number_in(ls[i]),
        (forall|j: int| 0 <= j < n ==> !has_block(#[trigger] ls[j])) ==> last_block(ls, n) is None,
    decreases n,
{
    reveal_strlit("{");
    lemma_brace(ls[n - 1]);
    if n > 1 {
        let k = if i < n - 1 {
            i
        } else {
            0
        };
        law_last_block_of_lines(ls, n - 1, k);
    }
    assert(last_block(ls, 0) is None);
    if i == n - 1 {
        assert(has_block(ls[n - 1]) ==> last_block(ls, n)
            == crate::clearing_house::replay::block_number_in(ls[n - 1]));
    }
}

/// Whether a line starts as JSON and has the number of a block.
pub open spec fn has_block(l: Seq<char>) -> bool {
    l.len() > 0 && l[0] == '{' && crate::clearing_house::replay::block_number_in(l) is Some
}

proof fn lemma_brace(l: Seq<char>)
    ensures
        "{"@.is_prefix_of(l) <==> l.len() > 0 && l[0] == '{',
{
    reveal_strlit("{");
    if l.len() > 0 && l[0] == '{' {
        assert(l.subrange(0, 1) =~= "{"@);
    }
    if "{"@.is_prefix_of(l) {
        assert(l.subrange(0, 1)[0] == l[0]);
    }
}

// ── What a snapshot holds ────────────────────────────────────────────────

/// The tables of some assets are those that the market names for them, each once.
pub proof fn law_tables_of_assets(d: DexModel, ks: Seq<u32>, n: int, t: u32)
    requires
        0 <= n <= ks.len(),
    ensures
        tables_of(d, ks, n).no_duplicates(),
        tables_of(d, ks, n).contains(t) <==> exists|i: int|
            0 <= i < n && (#[trigger] ks[i]) < d.universe.len() && d.universe[ks[i] as int].margin_table_id
                == t,
    decreases n,
{
    if n > 0 {
        law_tables_of_assets(d, ks, n - 1, t);
        let (before, after) = (tables_of(d, ks, n - 1), tables_of(d, ks, n));
        let k = ks[n - 1];
        if after.contains(t) {
            let j = choose|j: int| 0 <= j < after.len() && after[j] == t;
            if j < before.len() {
                assert(before[j] == t);
                assert(before.contains(t));
            } else {
                assert(ks[n - 1] == k);
            }
        }
        if before.contains(t) {
            let j = choose|j: int| 0 <= j < before.len() && before[j] == t;
            assert(after[j] == t);
        }
        if k < d.universe.len() && d.universe[k as int].margin_table_id == t {
            if !before.contains(t) {
                assert(after.last() == t);
            }
        }
    }
}

/// An asset is listed with the name that the market has for it, and with the largest leverage of the
/// lowest tier of its table.
pub proof fn law_listings(d: DexModel, a: u32)
    ensures
        a < d.universe.len() ==> listed(d, a).coin == d.universe[a as int].name,
        a >= d.universe.len() ==> listed(d, a).coin == "?"@ && listed(d, a).max_leverage is None,
        a < d.universe.len() ==> ({
            let t = d.universe[a as int].margin_table_id;
            &&& listed(d, a).max_leverage is Some <==> d.margin_tables.contains_key(t)
                && d.margin_tables[t].len() > 0
            &&& listed(d, a).max_leverage is Some ==> listed(d, a).max_leverage->0
                == d.margin_tables[t][0].max_leverage
        }),
{
}

/// The arguments that are no flags stay, and no others.
pub proof fn law_flags_are_taken_out(args: Seq<Seq<char>>, n: int, x: Seq<char>)
    requires
        0 <= n <= args.len(),
    ensures
        plain_args(args, n).contains(x) <==> x != "--raw"@ && x != "--structure"@ && exists|i: int|
            0 <= i < n && #[trigger] args[i] == x,
    decreases n,
{
    if n > 0 {
        law_flags_are_taken_out(args, n - 1, x);
        let (before, after) = (plain_args(args, n - 1), plain_args(args, n));
        if after.contains(x) {
            let j = choose|j: int| 0 <= j < after.len() && after[j] == x;
            if j < before.len() {
                assert(before[j] == x);
            } else {
                assert(args[n - 1] == x);
            }
        }
        if before.contains(x) {
            let j = choose|j: int| 0 <= j < before.len() && before[j] == x;
            assert(after[j] == x);
        }
        if args[n - 1] == x && x != "--raw"@ && x != "--structure"@ {
            assert(after.last() == x);
        }
    }
}

// ── What a user did ──────────────────────────────────────────────────────

/// Whether a fill is one of the user's.
pub open spec fn fill_is_of(ev: Seq<char>, user: Seq<char>) -> bool {
    let u = crate::json::string_found(ev, "/0"@);
    &&& crate::json::array_len_found(ev, ""@) is Some && crate::json::array_len_found(ev, ""@)->0 >= 2
    &&& user == crate::text::lowercase(if u is Some {
        u->0
    } else {
        ""@
    })
}

/// How many of the first `n` fills are the user's.
pub open spec fn own_fills(evs: Seq<Seq<char>>, user: Seq<char>, n: int) -> int
    decreases n,
{
    if n <= 0 {
        0
    } else {
        own_fills(evs, user, n - 1) + if fill_is_of(evs[n - 1], user) {
            1int
        } else {
            0
        }
    }
}

proof fn lemma_own_fills(evs: Seq<Seq<char>>, user: Seq<char>, block: u64, n: int)
    requires
        0 <= n <= evs.len(),
    ensures
        fills_of(evs, user, block, n).len() == own_fills(evs, user, n),
        own_fills(evs, user, n) >= 0,
    decreases n,
{
    if n > 0 {
        lemma_own_fills(evs, user, block, n - 1);
    }
}

/// The fills of a user are those that name the user first, in order, each with its block.
pub proof fn law_fills_of_a_user(evs: Seq<Seq<char>>, user: Seq<char>, block: u64, n: int, i: int)
    requires
        0 <= i < n <= evs.len(),
    ensures
        fills_of(evs, user, block, n).len() == own_fills(evs, user, n),
        fill_is_of(evs[i], user) ==> {
            let r = fills_of(evs, user, block, n);
            let k = own_fills(evs, user, i);
            &&& 0 <= k < r.len()
            &&& r[k].block == block && r[k].source is Fill
            &&& r[k].summary == crate::tools::user_trace::fill_summary(evs[i])
        },
    decreases n,
{
    lemma_own_fills(evs, user, block, n);
    lemma_own_fills(evs, user, block, i);
    lemma_own_fills(evs, user, block, n - 1);
    if i < n - 1 {
        law_fills_of_a_user(evs, user, block, n - 1, i);
    }
}

/// Funding is traced for its user only; every other event that names the user is traced once.
pub proof fn law_other_events_of_a_user(
    kind: Seq<char>,
    payload: Seq<char>,
    user: Seq<char>,
    block: u64,
    ds: Seq<Seq<char>>,
    n: int,
)
    requires
        0 < n <= ds.len(),
    ensures
        kind != "Funding"@ ==> ({
            let r = misc_of(kind, payload, user, block);
            r.len() == 1 && r[0].block == block && r[0].source is Misc
        }),
        ({
            let u = crate::json::string_found(ds[n - 1], "/user"@);
            let named = crate::text::lowercase(if u is Some {
                u->0
            } else {
                ""@
            }) == user;
            let (before, after) = (
                fundings_of(ds, user, block, n - 1),
                fundings_of(ds, user, block, n),
            );
            &&& named ==> after.len() == before.len() + 1 && after.drop_last() == before
                && after.last().block == block && after.last().source is Misc
            &&& !named ==> after == before
        }),
        fundings_of(ds, user, block, 0) == Seq::<TraceModel>::empty(),
{
    let (before, after) = (fundings_of(ds, user, block, n - 1), fundings_of(ds, user, block, n));
    if after != before {
        assert(after.drop_last() =~= before);
    }
}

/// An action is shown to whoever signed it. To others that it has to do with it is shown unless it is
/// about orders.
pub proof fn law_who_sees_an_action(t: Ties, kind: Seq<char>)
    ensures
        t.is_signer ==> is_shown(t, kind) && role_of(t) == "signer"@,
        !t.is_signer && (kind == "order"@ || kind == "cancel"@ || kind == "cancelByCloid"@ || kind
            == "batchModify"@) ==> !is_shown(t, kind),
        !t.is_signer && kind != "order"@ && kind != "cancel"@ && kind != "cancelByCloid"@ && kind
            != "batchModify"@ ==> (is_shown(t, kind) <==> t.is_vault || t.is_in_action || t.is_in_resp),
        !t.is_signer && t.is_vault ==> role_of(t) == "vaultAddr"@,
        !t.is_signer && !t.is_vault && t.is_in_resp ==> role_of(t) == "resp_user"@,
        !t.is_signer && !t.is_vault && !t.is_in_resp ==> role_of(t) == "referenced"@,
        side_named("A"@) == "Ask/Sell"@,
        side_named("B"@) == "Bid/Buy"@,
        kind != "A"@ && kind != "B"@ ==> side_named(kind) == kind,
{
    reveal_strlit("A");
    reveal_strlit("B");
    assert("A"@[0] != "B"@[0]);
}

proof fn lemma_fitting(s: Seq<char>, i: int, room: int)
    requires
        0 <= i <= s.len(),
        0 <= room,
    ensures
        ({
            let k = i + fitting(s, i, room);
            &&& i <= k <= s.len()
            &&& crate::text::byte_count(s.take(k)) - crate::text::byte_count(s.take(i)) <= room
            &&& k < s.len() ==> crate::text::byte_count(s.take(k + 1)) - crate::text::byte_count(
                s.take(i),
            ) > room
        }),
    decreases s.len() - i,
{
    if i < s.len() {
        assert(s.take(i + 1).drop_last() =~= s.take(i));
        if crate::text::char_bytes(s[i]) <= room {
            lemma_fitting(s, i + 1, room - crate::text::char_bytes(s[i]));
        }
    }
}

/// A signer is shown by as many first characters as have fourteen bytes.
pub proof fn law_signers_are_cut(s: Seq<char>)
    ensures
        signer_start(s).is_prefix_of(s),
        crate::text::byte_count(signer_start(s)) <= 14,
        signer_start(s).len() < s.len() ==> crate::text::byte_count(
            s.take((signer_start(s).len() + 1) as int),
        ) > 14,
{
    lemma_fitting(s, 0, 14);
    assert(s.take(0) =~= Seq::empty());
}

// ── What arrived first ───────────────────────────────────────────────────

/// What arrives comes last, once, wherever it was before; the others keep their order. What is taken
/// out leaves the others as they were.
pub proof fn law_the_newest_comes_last<T>(
    m: ArrivalsModel<T>,
    x: Seq<u64>,
    k: u64,
    y: Seq<u64>,
    v: T,
)
    requires
        !x.contains(k),
        !y.contains(k),
    ensures
        m.order == x + seq![k] + y ==> m.arrived(k, v).order == x + y + seq![k] && m.dropped(k).order == x
            + y,
        m.order == x ==> m.arrived(k, v).order == x + seq![k] && m.dropped(k).order == x,
        m.arrived(k, v).items.contains_key(k) && m.arrived(k, v).items[k] == v,
        !m.dropped(k).items.contains_key(k),
        forall|j: u64|
            #![trigger m.items.contains_key(j)]
            j != k && m.items.contains_key(j) ==> m.arrived(k, v).items.contains_key(j) && m.arrived(
                k,
                v,
            ).items[j] == m.items[j] && m.dropped(k).items.contains_key(j) && m.dropped(k).items[j]
                == m.items[j],
{
    let s = x + seq![k] + y;
    let n = x.len() as int;
    assert(s[n] == k);
    assert(s.contains(k));
    let i = s.index_of(k);
    assert(0 <= i < s.len() && s[i] == k);
    if i < n {
        assert(x[i] == k);
    } else if i > n {
        assert(y[i - n - 1] == k);
    }
    assert(s.remove(n) =~= x + y);
    assert((x + y).push(k) =~= x + y + seq![k]);
    assert(x.push(k) =~= x + seq![k]);
}

/// Giving up the older half keeps what arrived last: of an even number half, of an odd one the larger
/// half.
pub proof fn law_the_newer_half_stays<T>(m: ArrivalsModel<T>, i: int)
    requires
        m.wf(),
        0 <= i < m.order.len(),
    ensures
        m.halved().order == m.order.subrange((m.order.len() / 2) as int, m.order.len() as int),
        2 * m.halved().order.len() == m.order.len() || 2 * m.halved().order.len() == m.order.len() + 1,
        m.halved().items.contains_key(m.order[i]) <==> i >= m.order.len() / 2,
        i >= m.order.len() / 2 ==> m.halved().items[m.order[i]] == m.items[m.order[i]],
{
    let s = m.order;
    let h = (s.len() / 2) as int;
    let t = s.skip(h);
    assert(t =~= s.subrange(h, s.len() as int));
    assert(s.to_set().contains(s[i]));
    if i >= h {
        assert(t[i - h] == s[i]);
        assert(t.to_set().contains(s[i]));
    } else if t.to_set().contains(s[i]) {
        let j = choose|j: int| 0 <= j < t.len() && t[j] == s[i];
        assert(s[j + h] == s[i]);
    }
}

} // verus!

//! What holds of replaying events, of borrowing, of settings that come from outside and of the
//! positions that are reported, whatever the state.
use crate::clearing_house::action_laws::{lemma_first_is, mark, same_beside_dexes};
use crate::clearing_house::api_leverage::{
    dex_with_setting,
    injected,
    setting_of,
    settings_in,
    ApiSetting,
};
use crate::clearing_house::liquidation_map::{
    entry_of,
    reports,
    L4Model,
    LiqEntry,
    PositionInfo,
    PositionReading,
};
use crate::clearing_house::replay::{
    block_number_in,
    leading_digits,
    line_pairs,
    logged_in,
    logged_of,
    marks_applied,
    pairs_in,
    replayed,
    update_pairs,
    updates_in,
    ReplayEvent,
    ReplayTotals,
};
use crate::clearing_house::replica::{ActionBundle, SignedAction};
use crate::clearing_house::state::{state_after_borrow_repay, state_logged, usdc_total};
use crate::clearing_house::{BorrowLendState, DexModel, Leverage, StateModel, UserModel};
use vstd::prelude::*;

verus! {

// ── Borrowing ────────────────────────────────────────────────────────────

/// What a user owes of a token.
pub open spec fn owed(s: StateModel, u: Seq<char>, token: u32) -> i64 {
    if s.borrows.contains_key(u) && s.borrows[u].contains_key(token) {
        s.borrows[u][token].borrowed
    } else {
        0
    }
}

/// The sum of a user's balances on the first `n` dexes.
pub open spec fn money(dexes: Seq<DexModel>, u: Seq<char>, n: int) -> int
    decreases n,
{
    if n <= 0 {
        0
    } else {
        money(dexes, u, n - 1) + if dexes[n - 1].users.contains_key(u) {
            dexes[n - 1].users[u].usdc_balance as int
        } else {
            0
        }
    }
}

/// Whether the sums of a user's balances fit a machine word all along.
pub open spec fn money_fits(s: StateModel, u: Seq<char>) -> bool {
    forall|n: int|
        0 <= n <= s.dexes.len() ==> i64::MIN <= #[trigger] money(s.dexes, u, n) <= i64::MAX
}

/// Whether a dex is the first on which a user is known in full.
pub open spec fn is_first(s: StateModel, u: Seq<char>, i: int) -> bool {
    &&& 0 <= i < s.dexes.len()
    &&& s.dexes[i].users.contains_key(u)
    &&& forall|j: int| 0 <= j < i ==> !(#[trigger] s.dexes[j]).users.contains_key(u)
}

/// Only the balance of one user on one dex, and what this user owes of one token, may differ.
pub open spec fn only_debt_differs(s: StateModel, t: StateModel, i: int, u: Seq<char>, token: u32) -> bool {
    &&& t == (StateModel { dexes: t.dexes, borrows: t.borrows, ..s })
    &&& t.dexes.len() == s.dexes.len()
    &&& forall|j: int| 0 <= j < s.dexes.len() && j != i ==> #[trigger] t.dexes[j] == s.dexes[j]
    &&& t.dexes[i] == (DexModel { users: t.dexes[i].users, ..s.dexes[i] })
    &&& t.dexes[i].users == s.dexes[i].users.insert(
        u,
        UserModel { usdc_balance: t.dexes[i].users[u].usdc_balance, ..s.dexes[i].users[u] },
    )
    &&& forall|v: Seq<char>, k: u32| (v != u || k != token) ==> #[trigger] owed(t, v, k) == owed(s, v, k)
    &&& s.borrows.contains_key(u) && s.borrows[u].contains_key(token) ==> t.borrows[u][token] == (
    BorrowLendState { borrowed: owed(t, u, token), ..s.borrows[u][token] })
}

proof fn lemma_total(dexes: Seq<DexModel>, u: Seq<char>, n: int)
    requires
        0 <= n <= dexes.len(),
        forall|k: int| 0 <= k <= n ==> i64::MIN <= #[trigger] money(dexes, u, k) <= i64::MAX,
    ensures
        usdc_total(dexes, u, n) == money(dexes, u, n),
    decreases n,
{
    if n > 0 {
        lemma_total(dexes, u, n - 1);
        assert(i64::MIN <= money(dexes, u, n - 1) <= i64::MAX);
        assert(i64::MIN <= money(dexes, u, n) <= i64::MAX);
    }
}

/// Money that comes in for a user with a portfolio margin first pays back what they owe of the token: a
/// hundred units of debt for each of money. What is paid back leaves the balance; nothing is paid back
/// beyond the debt.
pub proof fn law_money_pays_debts(s: StateModel, user: Seq<char>, token: u32, amount: i64, i: int)
    requires
        ({
            let u = crate::text::lowercase(user);
            &&& s.portfolio_margin.contains_key(u)
            &&& is_first(s, u, i)
            &&& owed(s, u, token) > 0
            &&& 0 < amount
            &&& amount * 100 <= i64::MAX
            &&& s.dexes[i].users[u].usdc_balance - amount >= i64::MIN
        }),
    ensures
        ({
            let u = crate::text::lowercase(user);
            let t = state_after_borrow_repay(s, user, token, amount);
            let paid = owed(s, u, token) - owed(t, u, token);
            &&& owed(t, u, token) >= 0
            &&& paid == amount * 100 || owed(t, u, token) == 0
            &&& 0 <= paid <= amount * 100
            &&& only_debt_differs(s, t, i, u, token)
            &&& s.dexes[i].users[u].usdc_balance - t.dexes[i].users[u].usdc_balance == paid / 100
        }),
{
    let u = crate::text::lowercase(user);
    lemma_first_is(s.dexes, |d: DexModel| d.users.contains_key(u), i, 0);
    let o = owed(s, u, token);
    let r = crate::clearing_house::state::repaid(amount, o);
    assert(0 < r <= amount * 100);
    let b = crate::clearing_house::state::with_borrowed(s, u, token, o.wrapping_sub(r));
    assert(b.dexes == s.dexes);
    let t = state_after_borrow_repay(s, user, token, amount);
    assert(t.borrows == b.borrows);
    assert(owed(t, u, token) == o - r);
}

/// A user with a portfolio margin who pays out while they have less than nothing over all dexes borrows
/// what is missing, as far as it was paid out just now; the balance takes it in.
pub proof fn law_missing_money_is_borrowed(
    s: StateModel,
    user: Seq<char>,
    token: u32,
    amount: i64,
    i: int,
)
    requires
        ({
            let u = crate::text::lowercase(user);
            let total = money(s.dexes, u, s.dexes.len() as int);
            &&& s.portfolio_margin.contains_key(u)
            &&& is_first(s, u, i)
            &&& money_fits(s, u)
            &&& amount < 0
            &&& total < 0
            &&& -total * 100 <= i64::MAX
            &&& -amount * 100 <= i64::MAX
            &&& owed(s, u, token) - amount * 100 <= i64::MAX
            &&& s.dexes[i].users[u].usdc_balance - amount <= i64::MAX
        }),
    ensures
        ({
            let u = crate::text::lowercase(user);
            let t = state_after_borrow_repay(s, user, token, amount);
            let total = money(s.dexes, u, s.dexes.len() as int);
            let lent = t.dexes[i].users[u].usdc_balance - s.dexes[i].users[u].usdc_balance;
            &&& 0 < lent && lent <= -total && lent <= -amount
            &&& lent == -total || lent == -amount
            &&& owed(t, u, token) - owed(s, u, token) == lent * 100
            &&& only_debt_differs(s, t, i, u, token)
        }),
{
    let u = crate::text::lowercase(user);
    let n = s.dexes.len() as int;
    lemma_first_is(s.dexes, |d: DexModel| d.users.contains_key(u), i, 0);
    lemma_total(s.dexes, u, n);
    let total = usdc_total(s.dexes, u, n);
    let o = owed(s, u, token);
    let r = crate::clearing_house::state::newly_borrowed(total, amount);
    let x = 0i64.wrapping_sub(total);
    assert(x == -total);
    assert(x.wrapping_mul(100) == x * 100);
    assert(amount.wrapping_mul(100) == amount * 100);
    assert(0i64.wrapping_sub(amount.wrapping_mul(100)) == -amount * 100);
    assert(r == -total * 100 || r == -amount * 100);
    let b = crate::clearing_house::state::with_borrowed(s, u, token, o.wrapping_add(r));
    assert(b.dexes == s.dexes);
    let t = state_after_borrow_repay(s, user, token, amount);
    assert(t.borrows == b.borrows);
    assert(owed(t, u, token) == o + r);
    assert((-total * 100) / 100 == -total && (-amount * 100) / 100 == -amount);
}

/// Nothing is borrowed or paid back by others, nor without a debt to pay or money that is missing.
pub proof fn law_others_do_not_borrow(s: StateModel, user: Seq<char>, token: u32, amount: i64)
    requires
        money_fits(s, crate::text::lowercase(user)),
    ensures
        ({
            let u = crate::text::lowercase(user);
            let t = state_after_borrow_repay(s, user, token, amount);
            let total = money(s.dexes, u, s.dexes.len() as int);
            &&& !s.portfolio_margin.contains_key(u) ==> t == s
            &&& amount == 0 || amount > 0 && owed(s, u, token) <= 0 || amount < 0 && total >= 0
                ==> t.dexes == s.dexes && forall|v: Seq<char>, k: u32| #[trigger]
                owed(t, v, k) == owed(s, v, k)
        }),
{
    lemma_total(s.dexes, crate::text::lowercase(user), s.dexes.len() as int);
}

// ── The log ──────────────────────────────────────────────────────────────

/// With a log, an event is added at the end of its user's; without one, nothing happens.
pub proof fn law_events_are_logged(
    s: StateModel,
    user: Seq<char>,
    block: u64,
    desc: String,
    other: Seq<char>,
)
    ensures
        ({
            let u = crate::text::lowercase(user);
            let t = state_logged(s, user, block, desc);
            &&& s.event_log is None ==> t == s
            &&& s.event_log is Some ==> {
                let (l, m) = (s.event_log->0, t.event_log->0);
                &&& t == (StateModel { event_log: t.event_log, ..s })
                &&& t.event_log is Some
                &&& m.contains_key(u) && m[u].len() > 0 && m[u].last() == (block, desc)
                &&& l.contains_key(u) ==> m[u].drop_last() == l[u]
                &&& !l.contains_key(u) ==> m[u].len() == 1
                &&& other != u ==> m.contains_key(other) == l.contains_key(other) && (l.contains_key(
                    other,
                ) ==> m[other] == l[other])
            }
        }),
{
    let u = crate::text::lowercase(user);
    if s.event_log is Some {
        let (l, m) = (s.event_log->0, state_logged(s, user, block, desc).event_log->0);
        if l.contains_key(u) {
            assert(m[u].drop_last() =~= l[u]);
        }
    }
}

/// The users of the actions whose log is kept: each action for a vault that may change something has
/// its place in the list, and no other has.
pub proof fn law_vault_actions_are_logged(
    bundles: Seq<(String, ActionBundle)>,
    n: int,
    bi: int,
    ai: int,
    v: Seq<char>,
)
    requires
        0 <= n <= bundles.len(),
    ensures
        logged_of(bundles, n).contains((bi, ai, v)) <==> {
            &&& 0 <= bi < n
            &&& 0 <= ai < bundles[bi].1.signed_actions@.len()
            &&& bundles[bi].1.signed_actions@[ai].vault_address is Some
            &&& !(bundles[bi].1.signed_actions@[ai].action.ignored())
            &&& v == crate::text::lowercase(bundles[bi].1.signed_actions@[ai].vault_address->0@)
        },
    decreases n,
{
    if n > 0 {
        law_vault_actions_are_logged(bundles, n - 1, bi, ai, v);
        let actions = bundles[n - 1].1.signed_actions@;
        lemma_logged(actions, n - 1, actions.len() as int, bi, ai, v);
        let (a, b) = (logged_of(bundles, n - 1), logged_in(actions, n - 1, actions.len() as int));
        lemma_either(a, b, (bi, ai, v));
    }
}

proof fn lemma_either<T>(a: Seq<T>, b: Seq<T>, x: T)
    ensures
        (a + b).contains(x) <==> a.contains(x) || b.contains(x),
{
    if a.contains(x) {
        let i = choose|i: int| 0 <= i < a.len() && a[i] == x;
        assert((a + b)[i] == x);
    }
    if b.contains(x) {
        let i = choose|i: int| 0 <= i < b.len() && b[i] == x;
        assert((a + b)[a.len() + i] == x);
    }
    if (a + b).contains(x) {
        let i = choose|i: int| 0 <= i < (a + b).len() && (a + b)[i] == x;
        if i < a.len() {
            assert(a[i] == x);
        } else {
            assert(b[i - a.len()] == x);
        }
    }
}

proof fn lemma_pushed<T>(a: Seq<T>, y: T, x: T)
    ensures
        a.push(y).contains(x) <==> a.contains(x) || x == y,
{
    lemma_either(a, seq![y], x);
    assert(a.push(y) =~= a + seq![y]);
    assert(seq![y].contains(x) <==> x == y) by {
        assert(seq![y][0] == y);
    }
}

proof fn lemma_logged(actions: Seq<SignedAction>, at: int, n: int, bi: int, ai: int, v: Seq<char>)
    requires
        0 <= n <= actions.len(),
    ensures
        logged_in(actions, at, n).contains((bi, ai, v)) <==> {
            &&& bi == at
            &&& 0 <= ai < n
            &&& actions[ai].vault_address is Some
            &&& !(actions[ai].action.ignored())
            &&& v == crate::text::lowercase(actions[ai].vault_address->0@)
        },
    decreases n,
{
    if n > 0 {
        lemma_logged(actions, at, n - 1, bi, ai, v);
        let a = actions[n - 1];
        if a.vault_address is Some {
            lemma_pushed(
                logged_in(actions, at, n - 1),
                (at, n - 1, crate::text::lowercase(a.vault_address->0@)),
                (bi, ai, v),
            );
        }
    }
}

// ── Events ───────────────────────────────────────────────────────────────

/// A fill and a block each count once, under their own name; what another kind of event counts stays.
pub proof fn law_events_are_counted(s: StateModel, t: ReplayTotals, e: ReplayEvent)
    requires
        t.fills < u64::MAX,
        t.replica < u64::MAX,
    ensures
        ({
            let n = replayed(s, t, e).1;
            &&& n.fills == t.fills + (if e is Fill {
                1int
            } else {
                0
            })
            &&& n.replica == t.replica + (if e is Replica {
                1int
            } else {
                0
            })
            &&& !(e is Misc) ==> n.misc == t.misc
            &&& !(e is Marks) ==> n.oracle == t.oracle
        }),
{
}

/// A price is kept for the asset that its coin names; the last one counts. Coins without a price, or
/// that nobody knows, change nothing, and no price changes anything but the marks.
pub proof fn law_last_price_is_kept(
    s: StateModel,
    marks: Seq<(String, Option<u64>)>,
    n: int,
    i: int,
    di: u32,
    a: u32,
)
    requires
        0 <= i < n <= marks.len(),
    ensures
        ({
            let t = marks_applied(s, marks, n).0;
            &&& t == (StateModel { marks: t.marks, ..s })
            &&& marks[i].1 is Some && prices(s, marks[i], di, a) && (forall|j: int|
                i < j < n ==> !prices(s, #[trigger] marks[j], di, a)) ==> mark(t, di, a) == marks[i].1
            &&& (forall|j: int| 0 <= j < n ==> !prices(s, #[trigger] marks[j], di, a)) ==> mark(t, di, a)
                == mark(s, di, a)
        }),
    decreases n,
{
    let before = marks_applied(s, marks, n - 1).0;
    lemma_only_marks(s, marks, n - 1);
    if n - 1 > 0 {
        let k = if i < n - 1 {
            i
        } else {
            0
        };
        law_last_price_is_kept(s, marks, n - 1, k, di, a);
    }
    let t = marks_applied(s, marks, n).0;
    if !prices(s, marks[n - 1], di, a) {
        assert(mark(t, di, a) == mark(before, di, a));
    }
}

/// Whether an entry has a price for an asset of a dex.
pub open spec fn prices(s: StateModel, m: (String, Option<u64>), di: u32, a: u32) -> bool {
    m.1 is Some && s.coins.contains_key(m.0@) && s.coins[m.0@].0 as u32 == di && s.coins[m.0@].1 as u32
        == a
}

proof fn lemma_only_marks(s: StateModel, marks: Seq<(String, Option<u64>)>, n: int)
    ensures
        ({
            let t = marks_applied(s, marks, n).0;
            t == (StateModel { marks: t.marks, ..s })
        }),
    decreases n,
{
    if n > 0 {
        lemma_only_marks(s, marks, n - 1);
    }
}

/// How many of the first `n` entries have a price for a coin that is known.
pub open spec fn priced(s: StateModel, marks: Seq<(String, Option<u64>)>, n: int) -> int
    decreases n,
{
    if n <= 0 {
        0
    } else {
        priced(s, marks, n - 1) + if marks[n - 1].1 is Some && s.coins.contains_key(marks[n - 1].0@) {
            1int
        } else {
            0
        }
    }
}

/// The prices that are kept are counted.
pub proof fn law_prices_are_counted(s: StateModel, marks: Seq<(String, Option<u64>)>, n: int)
    requires
        0 <= n <= marks.len(),
    ensures
        marks_applied(s, marks, n).1 == priced(s, marks, n),
    decreases n,
{
    if n > 0 {
        law_prices_are_counted(s, marks, n - 1);
        lemma_only_marks(s, marks, n - 1);
    }
}

// ── Lines ────────────────────────────────────────────────────────────────

/// The number of a block is read from the digits behind its name.
pub proof fn law_block_numbers_are_read(a: Seq<char>, n: u64, c: char, b: Seq<char>)
    requires
        crate::text::first_at(
            a + "\"block_number\":"@ + crate::text::decimal_text(n as nat) + seq![c] + b,
            "\"block_number\":"@,
        ) == Some(a.len() as int),
        !('0' <= c <= '9'),
    ensures
        block_number_in(
            a + "\"block_number\":"@ + crate::text::decimal_text(n as nat) + seq![c] + b,
        ) == Some(n),
{
    let d = crate::text::decimal_text(n as nat);
    let key = "\"block_number\":"@;
    let line = a + key + d + seq![c] + b;
    assert(line.skip((a.len() + key.len()) as int) =~= d + (seq![c] + b));
    crate::text::lemma_digits_of(n as nat);
    lemma_leading(d, c, b);
    assert(crate::text::is_digit(d[0]));
}

proof fn lemma_leading(d: Seq<char>, c: char, b: Seq<char>)
    requires
        crate::text::all_digits(d),
        !('0' <= c <= '9'),
    ensures
        leading_digits(d + (seq![c] + b)) == d,
    decreases d.len(),
{
    let s = d + (seq![c] + b);
    if d.len() == 0 {
        assert(s[0] == c);
        assert(d =~= Seq::empty());
    } else {
        assert(s[0] == d[0]);
        assert(crate::text::is_digit(d[0]));
        assert(s.skip(1) =~= d.skip(1) + (seq![c] + b));
        assert forall|i: int| 0 <= i < d.skip(1).len() implies crate::text::is_digit(
            #[trigger] d.skip(1)[i],
        ) by {
            assert(d.skip(1)[i] == d[i + 1]);
        }
        lemma_leading(d.skip(1), c, b);
        assert(seq![d[0]] + d.skip(1) =~= d);
    }
}

/// Whether an update lists a pair: an array with a coin first and a price second. What is missing is
/// no name, or a price of zero.
pub open spec fn lists_pair(update: Seq<char>, coin: Seq<char>, px: Seq<char>, i: int) -> bool {
    let all = crate::json::items_found(update, "/oracle_pxs/coin_to_mark_px"@);
    &&& all is Some
    &&& 0 <= i < all->0.len()
    &&& crate::json::array_len_found(all->0[i], ""@) is Some
    &&& crate::json::array_len_found(all->0[i], ""@)->0 >= 2
    &&& crate::json::string_found(all->0[i], "/0"@) == Some(coin) || crate::json::string_found(
        all->0[i],
        "/0"@,
    ) is None && coin == ""@
    &&& crate::json::string_found(all->0[i], "/1/px"@) == Some(px) || crate::json::string_found(
        all->0[i],
        "/1/px"@,
    ) is None && px == "0"@
}

proof fn lemma_pairs(ps: Seq<Seq<char>>, update: Seq<char>, n: int, coin: Seq<char>, px: Seq<char>)
    requires
        crate::json::items_found(update, "/oracle_pxs/coin_to_mark_px"@) == Some(ps),
        0 <= n <= ps.len(),
    ensures
        pairs_in(ps, n).contains((coin, px)) <==> exists|i: int|
            0 <= i < n && #[trigger] lists_pair(update, coin, px, i),
    decreases n,
{
    if n > 0 {
        lemma_pairs(ps, update, n - 1, coin, px);
        let p = ps[n - 1];
        let (c, x) = (
            match crate::json::string_found(p, "/0"@) {
                Some(c) => c,
                None => ""@,
            },
            match crate::json::string_found(p, "/1/px"@) {
                Some(x) => x,
                None => "0"@,
            },
        );
        lemma_pushed(pairs_in(ps, n - 1), (c, x), (coin, px));
        let here = lists_pair(update, coin, px, n - 1);
        let l = crate::json::array_len_found(p, ""@);
        if l is Some && l->0 >= 2 {
            assert(here <==> (c, x) == (coin, px));
        } else {
            assert(!here);
        }
        if exists|i: int| 0 <= i < n && #[trigger] lists_pair(update, coin, px, i) {
            let i = choose|i: int| 0 <= i < n && #[trigger] lists_pair(update, coin, px, i);
            if i < n - 1 {
                assert(exists|i: int| 0 <= i < n - 1 && #[trigger] lists_pair(update, coin, px, i));
            } else {
                assert(here);
            }
        }
    }
}

/// The prices of a line are all pairs that its updates list, and no others.
pub proof fn law_prices_of_a_line(line: Seq<char>, evs: Seq<Seq<char>>, coin: Seq<char>, px: Seq<char>)
    requires
        crate::json::items_found(line, "/events"@) == Some(evs),
    ensures
        line_pairs(line).contains((coin, px)) <==> exists|k: int, i: int|
            0 <= k < evs.len() && #[trigger] lists_pair(evs[k], coin, px, i),
{
    lemma_updates(evs, evs.len() as int, coin, px);
}

proof fn lemma_updates(evs: Seq<Seq<char>>, n: int, coin: Seq<char>, px: Seq<char>)
    requires
        0 <= n <= evs.len(),
    ensures
        updates_in(evs, n).contains((coin, px)) <==> exists|k: int, i: int|
            0 <= k < n && #[trigger] lists_pair(evs[k], coin, px, i),
    decreases n,
{
    if n > 0 {
        lemma_updates(evs, n - 1, coin, px);
        let e = evs[n - 1];
        lemma_either(updates_in(evs, n - 1), update_pairs(e), (coin, px));
        let all = crate::json::items_found(e, "/oracle_pxs/coin_to_mark_px"@);
        if all is Some {
            lemma_pairs(all->0, e, all->0.len() as int, coin, px);
        }
        if updates_in(evs, n).contains((coin, px)) {
            if update_pairs(e).contains((coin, px)) {
                let i = choose|i: int| #[trigger] lists_pair(e, coin, px, i);
                assert(lists_pair(evs[n - 1], coin, px, i));
            } else {
                let (k, i) = choose|k: int, i: int|
                    0 <= k < n - 1 && #[trigger] lists_pair(evs[k], coin, px, i);
                assert(lists_pair(evs[k], coin, px, i));
            }
        }
        if exists|k: int, i: int| 0 <= k < n && #[trigger] lists_pair(evs[k], coin, px, i) {
            let (k, i) = choose|k: int, i: int|
                0 <= k < n && #[trigger] lists_pair(evs[k], coin, px, i);
            if k < n - 1 {
                assert(lists_pair(evs[k], coin, px, i));
            } else {
                assert(lists_pair(e, coin, px, i));
            }
        }
    }
}

// ── Settings from outside ────────────────────────────────────────────────

/// A setting that an answer has for a coin is cross unless it says otherwise, and 20 where it has no
/// value. Without a coin or a leverage there is none.
pub proof fn law_settings_of_answers(
    coin: Option<Seq<char>>,
    has_leverage: bool,
    kind: Option<Seq<char>>,
    value: Option<u64>,
)
    ensures
        ({
            let r = setting_of(coin, has_leverage, kind, value);
            &&& r is Some <==> has_leverage && coin is Some && coin->0.len() > 0
            &&& r is Some ==> (r->Some_0).0 == coin->0
            &&& r is Some ==> ((r->Some_0).1.is_cross <==> kind is None || kind == Some("cross"@))
            &&& r is Some && value is None ==> (r->Some_0).1.value == 20
            &&& r is Some && value is Some && value->0 <= u32::MAX ==> (r->Some_0).1.value == value->0
        }),
{
}

/// The last setting that an answer has for a coin counts; an answer has none for other coins.
pub proof fn law_last_setting_counts(doc: Seq<char>, n: nat, c: Seq<char>)
    requires
        n > 0,
    ensures
        ({
            let p = crate::clearing_house::api_leverage::position_place(doc, (n - 1) as nat);
            let last = setting_of(
                crate::json::string_found(doc, p + "/coin"@),
                crate::json::value_found(doc, p + "/leverage"@) is Some,
                crate::json::string_found(doc, p + "/leverage/type"@),
                crate::json::u64_found(doc, p + "/leverage/value"@),
            );
            let (m, before) = (settings_in(doc, n), settings_in(doc, (n - 1) as nat));
            &&& last is Some && (last->Some_0).0 == c ==> m.contains_key(c) && m[c] == (last->Some_0).1
            &&& !(last is Some && (last->Some_0).0 == c) ==> m.contains_key(c) == before.contains_key(c)
                && (before.contains_key(c) ==> m[c] == before[c])
        }),
        settings_in(doc, 0) == Map::<Seq<char>, ApiSetting>::empty(),
{
}

/// A setting from outside is stored for a user who has none for the asset; one that is there stays.
/// Nothing else changes on the dex.
pub proof fn law_settings_fill_gaps(d: DexModel, u: Seq<char>, a: u32, l: Leverage)
    ensures
        ({
            let e = dex_with_setting(d, u, a, l);
            &&& d.users.contains_key(u) ==> {
                let (x, y) = (d.users[u], e.users[u]);
                &&& e == (DexModel { users: d.users.insert(u, y), ..d })
                &&& y == (UserModel { leverage_settings: y.leverage_settings, ..x })
                &&& y.leverage_settings.contains_key(a)
                &&& x.leverage_settings.contains_key(a) ==> y.leverage_settings == x.leverage_settings
                &&& !x.leverage_settings.contains_key(a) ==> y.leverage_settings
                    == x.leverage_settings.insert(a, l)
            }
            &&& !d.users.contains_key(u) ==> {
                let y = e.partials[u];
                &&& e == (DexModel { partials: d.partials.insert(u, y), ..d })
                &&& y.leverage_settings.contains_key(a)
                &&& !(d.partials.contains_key(u) && d.partials[u].leverage_settings.contains_key(a))
                    ==> y.leverage_settings[a] == l
                &&& d.partials.contains_key(u) && d.partials[u].leverage_settings.contains_key(a) ==> y
                    == d.partials[u]
                &&& !d.partials.contains_key(u) ==> y.usdc_balance == 0 && y.spot_collateral == 0
            }
        }),
{
}

/// A request for a leverage is met where the answer for its user has the coin of its asset, with the
/// kind and the value of the answer; the others change nothing and do not count.
pub proof fn law_answers_meet_requests(
    s: StateModel,
    answers: Map<Seq<char>, Map<Seq<char>, ApiSetting>>,
    fixes: Seq<(Seq<char>, usize, u32)>,
    n: int,
)
    requires
        0 < n <= fixes.len(),
    ensures
        ({
            let (before, k) = injected(s, answers, fixes, n - 1);
            let (after, m) = injected(s, answers, fixes, n);
            let (u, di, a) = fixes[n - 1];
            let met = di < before.dexes.len() && a < before.dexes[di as int].universe.len()
                && answers.contains_key(u) && answers[u].contains_key(
                before.dexes[di as int].universe[a as int].name,
            );
            &&& m == k + (if met {
                1int
            } else {
                0
            })
            &&& !met ==> after == before
            &&& met ==> {
                let set = answers[u][before.dexes[di as int].universe[a as int].name];
                let d = after.dexes[di as int];
                &&& same_beside_dexes(before, after)
                &&& after.dexes.len() == before.dexes.len()
                &&& forall|j: int|
                    0 <= j < before.dexes.len() && j != di ==> #[trigger] after.dexes[j]
                        == before.dexes[j]
                &&& exists|l: Leverage| #[trigger]
                    dex_with_setting(before.dexes[di as int], u, a, l) == d && (if set.is_cross {
                        l == Leverage::Cross(set.value)
                    } else {
                        l == Leverage::Isolated { leverage: set.value, raw_usd: 0 }
                    })
            }
        }),
{
    let before = injected(s, answers, fixes, n - 1).0;
    let (u, di, a) = fixes[n - 1];
    let set = answers[u][before.dexes[di as int].universe[a as int].name];
    let l = if set.is_cross {
        Leverage::Cross(set.value)
    } else {
        Leverage::Isolated { leverage: set.value, raw_usd: 0 }
    };
    let d = dex_with_setting(before.dexes[di as int], u, a, l);
    assert(d == d);
}

// ── Positions that are reported ──────────────────────────────────────────

/// A position is reported where it has a size and a price at which it is liquidated that counts, with
/// what was read of it.
pub proof fn law_open_positions_are_reported(user: Seq<char>, p: PositionInfo, n: PositionReading)
    ensures
        ({
            let r = entry_of(user, p, n);
            &&& r is Some <==> !n.is_zero && p.liquidation_px is Some && n.liq_counts
            &&& r is Some ==> {
                let e = r->Some_0;
                &&& e.user == user && e.coin == p.coin@
                &&& e.is_long == n.is_long
                &&& e.sz == n.sz@ && e.entry_px == n.entry_px@ && e.liq_px == n.liq_px@
                &&& e.leverage == p.leverage.value && e.margin_type == p.leverage.lev_type@
            }
        }),
{
}

/// How many of the first `n` entries are of a coin.
pub open spec fn entries_of(entries: Seq<LiqEntry>, coin: Seq<char>, n: int) -> int
    decreases n,
{
    if n <= 0 {
        0
    } else {
        entries_of(entries, coin, n - 1) + if entries[n - 1]@.coin == coin {
            1int
        } else {
            0
        }
    }
}

proof fn lemma_entries(entries: Seq<LiqEntry>, coin: Seq<char>, n: int)
    requires
        0 <= n <= entries.len(),
    ensures
        reports(entries, coin, n).len() == entries_of(entries, coin, n),
        entries_of(entries, coin, n) >= 0,
    decreases n,
{
    if n > 0 {
        lemma_entries(entries, coin, n - 1);
    }
}

/// The report of a coin has its entries, in their order, each as it is, and no others; a long one is
/// called long and another short.
pub proof fn law_reports_of_a_coin(entries: Seq<LiqEntry>, coin: Seq<char>, n: int, i: int)
    requires
        0 <= i < n <= entries.len(),
    ensures
        reports(entries, coin, n).len() == entries_of(entries, coin, n),
        entries[i]@.coin == coin ==> {
            let (k, e) = (entries_of(entries, coin, i), entries[i]@);
            &&& 0 <= k < reports(entries, coin, n).len()
            &&& reports(entries, coin, n)[k] == (L4Model {
                user: e.user,
                side: if e.is_long {
                    "long"@
                } else {
                    "short"@
                },
                sz: e.sz,
                entry_px: e.entry_px,
                liq_px: e.liq_px,
                leverage: crate::text::decimal_text(e.leverage as nat),
                margin_type: e.margin_type,
            })
        },
    decreases n,
{
    lemma_entries(entries, coin, n);
    lemma_entries(entries, coin, i);
    lemma_entries(entries, coin, n - 1);
    if i < n - 1 {
        law_reports_of_a_coin(entries, coin, n - 1, i);
    }
}

} // verus!

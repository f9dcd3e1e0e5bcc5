//! What a session does, whatever its client asks and the listener brings.
use crate::referral::address::Address;
use crate::servers::subscription::SubModel;
use crate::servers::websocket_server::{
    all_told_of,
    answered,
    best_of,
    book_told,
    fills_changed,
    grouped,
    level_key,
    orders_of,
    orders_wanted,
    prices_after,
    prices_sent,
    prices_wanted,
    served,
    served_in,
    told_of,
    trades_taken,
    trigger_key,
    AnswerModel,
    ClientMessage,
    FeedEvent,
    MarketCoin,
    MarketFilter,
    SessionModel,
    SidesModel,
};
use crate::types::LevelModel;
use vstd::prelude::*;

verus! {

// ── Requests ─────────────────────────────────────────────────────────────

/// The error that an answer gives, where it gives one.
pub open spec fn error_in(a: AnswerModel) -> Option<Seq<char>> {
    match a {
        AnswerModel::Error { text } => Some(text),
        _ => None,
    }
}

/// A subscription that can be served, is allowed and is not there yet is added behind the others, and
/// confirmed; a book of orders is followed by a snapshot, and a subscription to prices by the prices
/// that it wants. Nothing else of the session changes.
pub proof fn law_new_subscriptions_are_added(
    before: SessionModel,
    after: SessionModel,
    msg: ClientMessage,
    shown: Seq<char>,
    valid: bool,
    answer: AnswerModel,
)
    requires
        answered(before, after, msg, shown, valid, answer),
        msg is Subscribe,
    ensures
        ({
            let s = msg->Subscribe_subscription@;
            let fine = valid && (!before.bbo_only || s is Bbo) && !before.subs.contains(s);
            &&& fine <==> answer is Confirmed
            &&& fine ==> after.subs == before.subs.push(s)
            &&& !fine ==> after.subs == before.subs
            &&& after == (SessionModel { subs: after.subs, ..before })
            &&& answer matches AnswerModel::Confirmed { needs_snapshot, prices } ==> {
                &&& needs_snapshot <==> s is L4Book || s is L4TriggerBook
                &&& !(s is AllPrices) ==> prices is None
                &&& s matches SubModel::AllPrices { coin, coins } ==> {
                    let some = exists|c: Seq<char>| #[trigger]
                        before.prices.contains_key(c) && is_wanted(coin, coins, c);
                    &&& prices is Some <==> some
                    &&& prices is Some ==> forall|c: Seq<char>| #[trigger]
                        prices->0.contains_key(c) <==> before.prices.contains_key(c) && is_wanted(
                            coin,
                            coins,
                            c,
                        )
                }
            }
            &&& !valid ==> error_in(answer) == Some("Invalid subscription: "@ + shown)
            &&& valid && before.bbo_only && !(s is Bbo) ==> error_in(answer) == Some(
                "BBO-only mode: L2/L4/Trades subscriptions disabled. Only BBO subscriptions allowed."@,
            )
            &&& valid && (!before.bbo_only || s is Bbo) && before.subs.contains(s) ==> error_in(answer)
                == Some("Already subscribed: "@ + shown)
        }),
{
    let s = msg->Subscribe_subscription@;
    match s {
        SubModel::AllPrices { coin, coins } => {
            let w = prices_wanted(before.prices, coin, coins);
            if exists|c: Seq<char>| #[trigger]
                before.prices.contains_key(c) && is_wanted(coin, coins, c) {
                let c = choose|c: Seq<char>| #[trigger]
                    before.prices.contains_key(c) && is_wanted(coin, coins, c);
                assert(w.contains_key(c));
                assert(w != Map::<Seq<char>, Seq<char>>::empty());
            } else {
                assert(w =~= Map::<Seq<char>, Seq<char>>::empty());
            }
        },
        _ => {},
    }
}

/// A subscription that ends is taken out once; the others keep their order. What was remembered of its
/// book is forgotten, and of no other.
pub proof fn law_ended_subscriptions_are_taken_out(
    before: SessionModel,
    after: SessionModel,
    msg: ClientMessage,
    shown: Seq<char>,
    answer: AnswerModel,
)
    requires
        answered(before, after, msg, shown, true, answer),
        msg is Unsubscribe,
        !before.bbo_only || msg->Unsubscribe_subscription@ is Bbo,
    ensures
        ({
            let s = msg->Unsubscribe_subscription@;
            &&& before.subs.contains(s) <==> answer is Confirmed
            &&& before.subs.contains(s) ==> after.subs.len() == before.subs.len() - 1
                && before.subs.to_multiset().remove(s) == after.subs.to_multiset()
            &&& !before.subs.contains(s) ==> after.subs == before.subs && error_in(answer) == Some(
                "Already unsubscribed: "@ + shown,
            )
            &&& after.last_bbo == before.last_bbo
            &&& after.prices == before.prices
            &&& after.bbo_only == before.bbo_only
            &&& !(s is L2Book) ==> after.last_l2 == before.last_l2
            &&& !(s is TriggerBook) ==> after.last_trigger == before.last_trigger
            &&& s matches SubModel::L2Book { coin, n_sig_figs, mantissa, .. } ==> forall|k: Seq<char>|
                #![trigger after.last_l2.contains_key(k)]
                after.last_l2.contains_key(k) == (before.last_l2.contains_key(k) && k != level_key(
                    coin,
                    n_sig_figs,
                    mantissa,
                ))
            &&& s matches SubModel::TriggerBook { coin, n_sig_figs, mantissa, .. } ==> forall|
                k: Seq<char>,
            |
                #![trigger after.last_trigger.contains_key(k)]
                after.last_trigger.contains_key(k) == (before.last_trigger.contains_key(k) && k
                    != trigger_key(coin, n_sig_figs, mantissa))
        }),
{
    let s = msg->Unsubscribe_subscription@;
    if before.subs.contains(s) {
        let i = choose|i: int|
            0 <= i < before.subs.len() && before.subs[i] == s && after.subs
                == #[trigger] before.subs.remove(i);
        broadcast use vstd::seq_lib::group_to_multiset_ensures;

        assert(before.subs.remove(i).to_multiset() =~= before.subs.to_multiset().remove(
            before.subs[i],
        ));
    }
}

/// A ping is answered by a pong and changes nothing.
pub proof fn law_pings_are_answered(
    before: SessionModel,
    after: SessionModel,
    shown: Seq<char>,
    valid: bool,
    answer: AnswerModel,
)
    requires
        answered(before, after, ClientMessage::Ping, shown, valid, answer),
    ensures
        after == before,
        answer is Pong,
{
}

// ── Who is told of what ──────────────────────────────────────────────────

/// The subscriptions that are told of an event are those of the right kind, all of them, in the order
/// in which they were made: books of levels and of trigger orders of snapshots, best prices of best
/// prices, books of orders of changes and statuses, and users' orders of theirs.
pub proof fn law_the_right_subscriptions_are_told(subs: Seq<SubModel>, e: FeedEvent, n: int, i: int)
    requires
        0 <= n <= subs.len() <= usize::MAX,
        0 <= i < n,
    ensures
        all_told_of(subs, e, n).contains(i as usize) <==> match e {
            FeedEvent::Snapshot => subs[i] is L2Book || subs[i] is TriggerBook,
            FeedEvent::Bbo => subs[i] is Bbo,
            FeedEvent::OrderDiffs => subs[i] is L4Book || subs[i] is L4TriggerBook,
            FeedEvent::OrderStatuses => subs[i] is L4Book || subs[i] is L4TriggerBook,
            FeedEvent::UserOrders => subs[i] is OrderUpdates,
        },
        is_increasing(all_told_of(subs, e, n)),
{
    lemma_told(subs, e, n);
    assert(all_told_of(subs, e, n).contains(i as usize) <==> told_of(subs[i], e));
}

/// Whether the positions of a list go up.
pub open spec fn is_increasing(r: Seq<usize>) -> bool {
    forall|a: int, b: int| 0 <= a < b < r.len() ==> #[trigger] r[a] < #[trigger] r[b]
}

/// Whether a list has the positions below `n` of which something holds, in order.
pub open spec fn picks(r: Seq<usize>, n: int, p: spec_fn(int) -> bool) -> bool {
    &&& is_increasing(r)
    &&& forall|i: int| 0 <= i < n ==> (#[trigger] r.contains(i as usize) <==> p(i))
    &&& forall|k: int| 0 <= k < r.len() ==> (#[trigger] r[k]) < n
}

proof fn lemma_pick(r: Seq<usize>, n: int, p: spec_fn(int) -> bool)
    requires
        0 <= n < usize::MAX,
        picks(r, n, p),
    ensures
        p(n) ==> picks(r.push(n as usize), n + 1, p),
        !p(n) ==> picks(r, n + 1, p),
{
    let x = n as usize;
    if r.contains(x) {
        let k = choose|k: int| 0 <= k < r.len() && r[k] == x;
        assert(r[k] < n);
    }
    let s = r.push(x);
    assert forall|i: int| 0 <= i < n implies r.contains(i as usize) == #[trigger] s.contains(
        i as usize,
    ) by {
        if r.contains(i as usize) {
            let k = choose|k: int| 0 <= k < r.len() && r[k] == i as usize;
            assert(s[k] == i as usize);
        }
        if s.contains(i as usize) {
            let k = choose|k: int| 0 <= k < s.len() && s[k] == i as usize;
            if k < r.len() {
                assert(r[k] == i as usize);
            }
        }
    }
    assert(s[r.len() as int] == x);
    assert(s.contains(x));
    if p(n) {
        assert forall|i: int| 0 <= i < n + 1 implies (#[trigger] s.contains(i as usize) <==> p(i)) by {
            if i < n {
                assert(r.contains(i as usize) <==> p(i));
            }
        }
    } else {
        assert forall|i: int| 0 <= i < n + 1 implies (#[trigger] r.contains(i as usize) <==> p(i)) by {
            if i == n {
                assert(!r.contains(x));
            }
        }
    }
}

proof fn lemma_told(subs: Seq<SubModel>, e: FeedEvent, n: int)
    requires
        0 <= n <= subs.len() <= usize::MAX,
    ensures
        picks(all_told_of(subs, e, n), n, |i: int| told_of(subs[i], e)),
    decreases n,
{
    if n > 0 {
        lemma_told(subs, e, n - 1);
        lemma_pick(all_told_of(subs, e, n - 1), n - 1, |i: int| told_of(subs[i], e));
    }
}

// ── Orders ───────────────────────────────────────────────────────────────

/// A subscription to a book of orders gets the orders in its price range that are trigger orders, if it
/// is one to those, or that are not: all of them, in order.
pub proof fn law_orders_are_picked(trigger_only: bool, orders: Seq<(bool, bool)>, n: int)
    requires
        0 <= n <= orders.len() <= usize::MAX,
    ensures
        picks(
            orders_wanted(trigger_only, orders, n),
            n,
            |i: int| orders[i].1 && (trigger_only ==> orders[i].0) && (!trigger_only ==> !orders[i].0),
        ),
    decreases n,
{
    let p = |i: int|
        orders[i].1 && (trigger_only ==> orders[i].0) && (!trigger_only ==> !orders[i].0);
    if n > 0 {
        law_orders_are_picked(trigger_only, orders, n - 1);
        lemma_pick(orders_wanted(trigger_only, orders, n - 1), n - 1, p);
    }
}

/// A user is told of their own orders, all of them, in order.
pub proof fn law_users_get_their_orders(users: Seq<Address>, user: Seq<u8>, n: int)
    requires
        0 <= n <= users.len() <= usize::MAX,
    ensures
        picks(orders_of(users, user, n), n, |i: int| users[i]@ == user),
    decreases n,
{
    if n > 0 {
        law_users_get_their_orders(users, user, n - 1);
        lemma_pick(orders_of(users, user, n - 1), n - 1, |i: int| users[i]@ == user);
    }
}

// ── Trades and prices ────────────────────────────────────────────────────

/// Whether a subscription to prices wants a coin: all of them where it names none, else those that it
/// names, alone or in its list.
pub open spec fn is_wanted(coin: Option<Seq<char>>, coins: Option<Seq<Seq<char>>>, c: Seq<char>) -> bool {
    ||| coin is None && coins is None
    ||| coin is Some && coin->0 == c
    ||| coins is Some && coins->0.contains(c)
}

/// The trades of a coin are its positions in the batch, in order; a coin without trades has none.
pub proof fn law_trades_are_grouped(coins: Seq<Seq<char>>, n: int, c: Seq<char>)
    requires
        0 <= n <= coins.len() <= usize::MAX,
    ensures
        grouped(coins, n).contains_key(c) <==> exists|i: int| 0 <= i < n && #[trigger] coins[i] == c,
        grouped(coins, n).contains_key(c) ==> picks(grouped(coins, n)[c], n, |i: int| coins[i] == c)
            && grouped(coins, n)[c].len() > 0,
    decreases n,
{
    if n > 0 {
        law_trades_are_grouped(coins, n - 1, c);
        let before = grouped(coins, n - 1);
        let p = |i: int| coins[i] == c;
        if before.contains_key(c) {
            lemma_pick(before[c], n - 1, p);
            let i = choose|i: int| 0 <= i < n - 1 && #[trigger] coins[i] == c;
            assert(coins[i] == c);
        } else {
            let none = Seq::<usize>::empty();
            assert(picks(none, n - 1, p)) by {
                assert forall|i: int| 0 <= i < n - 1 implies (#[trigger] none.contains(i as usize)
                    <==> p(i)) by {
                    assert(coins[i] != c);
                }
            }
            lemma_pick(none, n - 1, p);
            assert(none.push((n - 1) as usize) =~= seq![(n - 1) as usize]);
            if coins[n - 1] == c {
                assert(coins[n - 1] == c);
            }
        }
    }
}

/// Whether a subscription to the trades of a coin is among the first `n`.
pub open spec fn wants_trades(subs: Seq<SubModel>, n: int, c: Seq<char>) -> bool {
    exists|i: int| 0 <= i < n && #[trigger] subs[i] == (SubModel::Trades { coin: c })
}

/// The trades of a coin go out to whoever subscribes to them, all at once, and only once; those of
/// coins without a subscription are left.
pub proof fn law_trades_go_to_their_subscribers(
    subs: Seq<SubModel>,
    groups: Map<Seq<char>, Seq<usize>>,
    n: int,
    c: Seq<char>,
)
    requires
        0 <= n <= subs.len(),
    ensures
        ({
            let (out, rest) = trades_taken(subs, groups, n);
            let taken = groups.contains_key(c) && wants_trades(subs, n, c);
            &&& taken ==> out.contains((c, groups[c]))
            &&& rest.contains_key(c) <==> groups.contains_key(c) && !taken
            &&& rest.contains_key(c) ==> rest[c] == groups[c]
            &&& forall|k: int|
                0 <= k < out.len() && (#[trigger] out[k]).0 == c ==> taken && out[k].1 == groups[c]
        }),
    decreases n,
{
    if n > 0 {
        law_trades_go_to_their_subscribers(subs, groups, n - 1, c);
        let (a, b) = trades_taken(subs, groups, n - 1);
        let (out, rest) = trades_taken(subs, groups, n);
        let s = subs[n - 1];
        assert(wants_trades(subs, n, c) == (wants_trades(subs, n - 1, c) || s == (SubModel::Trades {
            coin: c,
        }))) by {
            if wants_trades(subs, n - 1, c) {
                let i = choose|i: int|
                    0 <= i < n - 1 && #[trigger] subs[i] == (SubModel::Trades { coin: c });
                assert(subs[i] == (SubModel::Trades { coin: c }));
            }
            if s == (SubModel::Trades { coin: c }) {
                assert(subs[n - 1] == (SubModel::Trades { coin: c }));
            }
        }
        if a.contains((c, groups[c])) {
            let k = choose|k: int| 0 <= k < a.len() && a[k] == (c, groups[c]);
            assert(out[k] == (c, groups[c]));
        }
        if s == (SubModel::Trades { coin: c }) && b.contains_key(c) {
            assert(out[a.len() as int] == (c, groups[c]));
        }
        assert forall|k: int| 0 <= k < out.len() && (#[trigger] out[k]).0 == c implies groups.contains_key(
            c,
        ) && wants_trades(subs, n, c) && out[k].1 == groups[c] by {
            if k < a.len() {
                assert(a[k] == out[k]);
            }
        }
    }
}

/// The price of a coin changes to that of its last trade, where that is another than the one known and
/// the trades did not go out as such.
pub proof fn law_the_last_price_counts(
    m: SessionModel,
    coins: Seq<Seq<char>>,
    pxs: Seq<Seq<char>>,
    c: Seq<char>,
    last: int,
)
    requires
        coins.len() == pxs.len(),
        coins.len() <= usize::MAX,
        0 <= last < coins.len(),
        coins[last] == c,
        forall|i: int| last < i < coins.len() ==> #[trigger] coins[i] != c,
    ensures
        ({
            let changed = fills_changed(m, coins, pxs);
            let news = !wants_trades(m.subs, m.subs.len() as int, c) && !(m.prices.contains_key(c)
                && m.prices[c] == pxs[last]);
            &&& changed.contains_key(c) <==> news
            &&& news ==> changed[c] == pxs[last]
        }),
{
    let n = coins.len() as int;
    law_trades_are_grouped(coins, n, c);
    law_trades_go_to_their_subscribers(m.subs, grouped(coins, n), m.subs.len() as int, c);
    assert(coins[last] == c);
    let g = grouped(coins, n)[c];
    assert(g.contains(last as usize));
    let k = choose|k: int| 0 <= k < g.len() && g[k] == last as usize;
    let top = g.last();
    if k < g.len() - 1 {
        assert(g[k] < g[g.len() - 1]);
        assert(g[g.len() - 1] < n);
        assert(g.contains(top));
        assert(coins[top as int] == c) by {
            assert(g.contains((top as int) as usize));
        }
    }
    assert(top == last as usize);
}

/// The prices of coins without trades stay as they are; without a subscription to prices all do.
pub proof fn law_other_prices_stay(
    m: SessionModel,
    coins: Seq<Seq<char>>,
    pxs: Seq<Seq<char>>,
    c: Seq<char>,
)
    requires
        coins.len() == pxs.len(),
        coins.len() <= usize::MAX,
    ensures
        !coins.contains(c) ==> (prices_after(m, coins, pxs).contains_key(c) <==> m.prices.contains_key(c))
            && (m.prices.contains_key(c) ==> prices_after(m, coins, pxs)[c] == m.prices[c]),
        (forall|i: int| 0 <= i < m.subs.len() ==> !((#[trigger] m.subs[i]) is AllPrices))
            ==> prices_after(m, coins, pxs) == m.prices,
{
    let n = coins.len() as int;
    law_trades_are_grouped(coins, n, c);
    law_trades_go_to_their_subscribers(m.subs, grouped(coins, n), m.subs.len() as int, c);
    if !coins.contains(c) {
        if grouped(coins, n).contains_key(c) {
            let i = choose|i: int| 0 <= i < n && #[trigger] coins[i] == c;
            assert(coins.contains(coins[i]));
        }
    }
}

/// What a subscription to prices is sent are the changes of the coins that it wants; it is sent nothing
/// where there are none.
pub proof fn law_subscribers_get_the_prices_they_want(
    changed: Map<Seq<char>, Seq<char>>,
    coin: Option<Seq<char>>,
    coins: Option<Seq<Seq<char>>>,
    c: Seq<char>,
)
    ensures
        ({
            let w = prices_wanted(changed, coin, coins);
            &&& w.contains_key(c) <==> changed.contains_key(c) && is_wanted(coin, coins, c)
            &&& w.contains_key(c) ==> w[c] == changed[c]
        }),
        ({
            let sent = prices_sent(seq![SubModel::AllPrices { coin, coins }], changed, 1);
            &&& changed.contains_key(c) && is_wanted(coin, coins, c) ==> sent.len() == 1
                && sent[0].contains_key(c) && sent[0][c] == changed[c]
            &&& sent.len() <= 1
            &&& sent.len() == 1 ==> exists|x: Seq<char>| #[trigger] sent[0].contains_key(x)
        }),
{
    reveal_with_fuel(prices_sent, 2);
    let w = prices_wanted(changed, coin, coins);
    if changed.contains_key(c) && is_wanted(coin, coins, c) {
        assert(w.contains_key(c));
        assert(w != Map::<Seq<char>, Seq<char>>::empty());
    }
    if w != Map::<Seq<char>, Seq<char>>::empty() {
        if forall|x: Seq<char>| !#[trigger] w.contains_key(x) {
            assert(w =~= Map::<Seq<char>, Seq<char>>::empty());
        }
        let x = choose|x: Seq<char>| #[trigger] w.contains_key(x);
        assert(w.contains_key(x));
        assert(prices_sent(seq![SubModel::AllPrices { coin, coins }], changed, 1)[0].contains_key(x));
    }
}

// ── Books and best prices ────────────────────────────────────────────────

/// The best prices are those of the best bid and the best ask, and empty where there is none.
pub proof fn law_best_prices(bid: Option<LevelModel>, ask: Option<LevelModel>)
    ensures
        bid is Some ==> best_of(bid, ask).bid_px == bid->0.px && best_of(bid, ask).bid_sz == bid->0.sz,
        ask is Some ==> best_of(bid, ask).ask_px == ask->0.px && best_of(bid, ask).ask_sz == ask->0.sz,
        bid is None ==> best_of(bid, ask).bid_px.len() == 0 && best_of(bid, ask).bid_sz.len() == 0,
        ask is None ==> best_of(bid, ask).ask_px.len() == 0 && best_of(bid, ask).ask_sz.len() == 0,
{
}

/// Two texts that end in a colon and the same kind of tail without colons are equal part by part.
proof fn lemma_split(a: Seq<char>, x: Seq<char>, b: Seq<char>, y: Seq<char>)
    requires
        a.push(':') + x == b.push(':') + y,
        !x.contains(':'),
        !y.contains(':'),
    ensures
        a == b,
        x == y,
{
    let s = a.push(':') + x;
    let t = b.push(':') + y;
    assert(s.len() == a.len() + 1 + x.len());
    assert(t.len() == b.len() + 1 + y.len());
    assert(s[a.len() as int] == ':');
    assert(t[b.len() as int] == ':');
    if a.len() < b.len() {
        assert(s[b.len() as int] == x[b.len() - a.len() - 1]);
        assert(x.contains(':'));
    }
    if b.len() < a.len() {
        assert(t[a.len() as int] == y[a.len() - b.len() - 1]);
        assert(y.contains(':'));
    }
    assert(a =~= b) by {
        assert forall|i: int| 0 <= i < a.len() implies a[i] == b[i] by {
            assert(s[i] == a[i]);
            assert(t[i] == b[i]);
        }
    }
    assert(x =~= y) by {
        assert forall|i: int| 0 <= i < x.len() implies x[i] == y[i] by {
            assert(s[a.len() + 1 + i] == x[i]);
            assert(t[b.len() + 1 + i] == y[i]);
        }
    }
}

proof fn lemma_no_colon(n: nat)
    ensures
        !crate::text::decimal_text(n).contains(':'),
{
    crate::text::lemma_digits_of(n);
    let t = crate::text::decimal_text(n);
    if t.contains(':') {
        let i = choose|i: int| 0 <= i < t.len() && t[i] == ':';
        assert(crate::text::is_digit(t[i]));
    }
}

proof fn lemma_key_form(coin: Seq<char>, figs: Option<u32>, mantissa: Option<u64>)
    ensures
        level_key(coin, figs, mantissa) == (coin.push(':') + crate::text::decimal_text(
            grouping(figs),
        )).push(':') + crate::text::decimal_text(scale(mantissa)),
{
    reveal_strlit(":");
    assert(level_key(coin, figs, mantissa) =~= (coin.push(':') + crate::text::decimal_text(
        grouping(figs),
    )).push(':') + crate::text::decimal_text(scale(mantissa)));
}

/// The grouping that a book is asked for; none counts as nought.
pub open spec fn grouping(figs: Option<u32>) -> nat {
    if figs is Some {
        figs->0 as nat
    } else {
        0
    }
}

/// The scale that a book is asked for; none counts as nought.
pub open spec fn scale(mantissa: Option<u64>) -> nat {
    if mantissa is Some {
        mantissa->0 as nat
    } else {
        0
    }
}

/// Books of different coins, groupings or scales are remembered apart.
pub proof fn law_books_are_remembered_apart(
    coin: Seq<char>,
    figs: Option<u32>,
    mantissa: Option<u64>,
    other: Seq<char>,
    more: Option<u32>,
    still: Option<u64>,
)
    requires
        coin != other || grouping(figs) != grouping(more) || scale(mantissa) != scale(still),
    ensures
        level_key(coin, figs, mantissa) != level_key(other, more, still),
        trigger_key(coin, figs, mantissa) != trigger_key(other, more, still),
{
    let (a, b) = (level_key(coin, figs, mantissa), level_key(other, more, still));
    lemma_key_form(coin, figs, mantissa);
    lemma_key_form(other, more, still);
    lemma_no_colon(grouping(figs));
    lemma_no_colon(grouping(more));
    lemma_no_colon(scale(mantissa));
    lemma_no_colon(scale(still));
    crate::text::lemma_digits_of(grouping(figs));
    crate::text::lemma_digits_of(grouping(more));
    crate::text::lemma_digits_of(scale(mantissa));
    crate::text::lemma_digits_of(scale(still));
    if a == b {
        lemma_split(
            coin.push(':') + crate::text::decimal_text(grouping(figs)),
            crate::text::decimal_text(scale(mantissa)),
            other.push(':') + crate::text::decimal_text(grouping(more)),
            crate::text::decimal_text(scale(still)),
        );
        lemma_split(
            coin,
            crate::text::decimal_text(grouping(figs)),
            other,
            crate::text::decimal_text(grouping(more)),
        );
    }
    if trigger_key(coin, figs, mantissa) == trigger_key(other, more, still) {
        assert(a =~= trigger_key(coin, figs, mantissa).skip("trigger:"@.len() as int));
        assert(b =~= trigger_key(other, more, still).skip("trigger:"@.len() as int));
    }
}

// ── Markets ──────────────────────────────────────────────────────────────

/// A coin is served exactly where a market that it is of is served.
pub proof fn law_markets_are_served(c: MarketCoin, f: MarketFilter)
    ensures
        !f.include_perps && !f.include_spot && !f.include_hip3 ==> !served(c, f),
        c.is_perp && !c.is_spot && !c.is_hip3 ==> served(c, f) == f.include_perps,
        c.is_spot && !c.is_perp && !c.is_hip3 ==> served(c, f) == f.include_spot,
        c.is_hip3 && !c.is_perp && !c.is_spot ==> served(c, f) == f.include_hip3,
        !c.is_perp && !c.is_spot && !c.is_hip3 ==> !served(c, f),
        f.include_perps && f.include_spot && f.include_hip3 ==> served(c, f) == (c.is_perp || c.is_spot
            || c.is_hip3),
{
}

/// The coins that are served are those of the markets that are, and no others.
pub proof fn law_coins_of_served_markets(
    coins: Seq<MarketCoin>,
    f: MarketFilter,
    c: Seq<char>,
    i: int,
)
    requires
        0 <= i < coins.len(),
    ensures
        served_in(coins, f, coins[i].coin@, coins.len() as int) <==> exists|j: int|
            0 <= j < coins.len() && (#[trigger] coins[j]).coin@ == coins[i].coin@ && (coins[j].is_perp
                && f.include_perps || coins[j].is_spot && f.include_spot || coins[j].is_hip3
                && f.include_hip3),
        (forall|j: int| 0 <= j < coins.len() ==> (#[trigger] coins[j]).coin@ != c) ==> !served_in(
            coins,
            f,
            c,
            coins.len() as int,
        ),
{
    let n = coins.len() as int;
    if served_in(coins, f, coins[i].coin@, n) {
        let j = choose|j: int|
            0 <= j < n && (#[trigger] coins[j]).coin@ == coins[i].coin@ && served(coins[j], f);
        assert(coins[j].coin@ == coins[i].coin@);
    }
}

/// A book is told whole the first time. Later nothing is told while nothing changed, and what is told
/// is never empty. The book that was told last is remembered; other books are not touched.
pub proof fn law_books_are_told(
    before: Map<Seq<char>, SidesModel>,
    after: Map<Seq<char>, SidesModel>,
    key: Seq<char>,
    current: SidesModel,
    sent: Option<SidesModel>,
    other: Seq<char>,
)
    requires
        book_told(before, after, key, current, sent),
    ensures
        !before.contains_key(key) ==> sent == Some(current) && after.contains_key(key) && after[key]
            == current,
        before.contains_key(key) && before[key] == current ==> sent is None,
        before.contains_key(key) && sent is Some ==> (sent->0.bids.len() > 0 || sent->0.asks.len() > 0)
            && after[key] == current,
        sent is None ==> after == before,
        other != key ==> after.contains_key(other) == before.contains_key(other) && (
        before.contains_key(other) ==> after[other] == before[other]),
{
    if before.contains_key(key) && before[key] == current && sent is Some {
        crate::levels::law_no_delta_without_change(
            sent->0.bids,
            crate::levels::by_price(current.bids),
        );
        crate::levels::law_no_delta_without_change(
            sent->0.asks,
            crate::levels::by_price(current.asks),
        );
    }
}

} // verus!

//! A client's session: what it is subscribed to, and what it has to be told.
//!
//! A session remembers what it last told the client, so that a book is sent whole once and by its
//! changes after that, and a best price or a last price only when it is another one.
use crate::levels::compute_level_delta;
use crate::referral::address::{parse_address, Address};
use crate::servers::subscription::{find_sub, SubModel, Subscription};
use crate::strmap::StrMap;
use crate::text::{push_decimal, push_text, str_eq};
use crate::types::{Level, LevelModel};
use vstd::prelude::*;

verus! {

/// What a client is told that comes before there is a book.
pub const NOT_READY: &'static str = "Order book not ready for streaming (waiting for snapshot)";

/// What a client is told that asks for more than best prices where only those are served.
pub const BBO_ONLY: &'static str =
    "BBO-only mode: L2/L4/Trades subscriptions disabled. Only BBO subscriptions allowed.";

/// The most levels of a side that are sent.
pub const MOST_LEVELS: usize = 400;

/// The bids and the asks of a book.
pub struct Sides {
    pub bids: Vec<Level>,
    pub asks: Vec<Level>,
}

/// What the bids and the asks of a book are.
#[verifier::ext_equal]
pub struct SidesModel {
    pub bids: Seq<LevelModel>,
    pub asks: Seq<LevelModel>,
}

impl View for Sides {
    type V = SidesModel;

    open spec fn view(&self) -> SidesModel {
        SidesModel {
            bids: crate::types::level_views(self.bids@),
            asks: crate::types::level_views(self.asks@),
        }
    }
}

/// The best prices and sizes, as texts; empty where there is none.
pub struct Best {
    pub bid_px: String,
    pub bid_sz: String,
    pub ask_px: String,
    pub ask_sz: String,
}

/// What the best prices and sizes are.
#[verifier::ext_equal]
pub struct BestModel {
    pub bid_px: Seq<char>,
    pub bid_sz: Seq<char>,
    pub ask_px: Seq<char>,
    pub ask_sz: Seq<char>,
}

impl View for Best {
    type V = BestModel;

    open spec fn view(&self) -> BestModel {
        BestModel {
            bid_px: self.bid_px@,
            bid_sz: self.bid_sz@,
            ask_px: self.ask_px@,
            ask_sz: self.ask_sz@,
        }
    }
}

/// What a session knows.
#[verifier::ext_equal]
pub struct SessionModel {
    pub subs: Seq<SubModel>,
    pub last_bbo: Map<Seq<char>, BestModel>,
    pub last_l2: Map<Seq<char>, SidesModel>,
    pub last_trigger: Map<Seq<char>, SidesModel>,
    pub prices: Map<Seq<char>, Seq<char>>,
    pub bbo_only: bool,
}

pub struct Session {
    subs: Vec<Subscription>,
    last_bbo: StrMap<Best>,
    last_l2_levels: StrMap<Sides>,
    last_trigger_levels: StrMap<Sides>,
    all_prices: StrMap<String>,
    bbo_only: bool,
}

impl View for Session {
    type V = SessionModel;

    closed spec fn view(&self) -> SessionModel {
        SessionModel {
            subs: crate::servers::subscription::sub_views(self.subs@),
            last_bbo: self.last_bbo@,
            last_l2: self.last_l2_levels@,
            last_trigger: self.last_trigger_levels@,
            prices: self.all_prices@,
            bbo_only: self.bbo_only,
        }
    }
}

// ── Books ────────────────────────────────────────────────────────────────

/// The number, or zero where there is none.
pub open spec fn or_zero(n: Option<u64>) -> nat {
    match n {
        Some(x) => x as nat,
        None => 0,
    }
}

/// What a book that is sent to a client is remembered under.
pub open spec fn level_key(coin: Seq<char>, n_sig_figs: Option<u32>, mantissa: Option<u64>) -> Seq<
    char,
> {
    coin + ":"@ + crate::text::decimal_text(
        or_zero(
            match n_sig_figs {
                Some(n) => Some(n as u64),
                None => None,
            },
        ),
    ) + ":"@ + crate::text::decimal_text(or_zero(mantissa))
}

/// What a book of trigger orders is remembered under.
pub open spec fn trigger_key(coin: Seq<char>, n_sig_figs: Option<u32>, mantissa: Option<u64>) -> Seq<
    char,
> {
    "trigger:"@ + level_key(coin, n_sig_figs, mantissa)
}

fn level_key_of(prefix: &str, coin: &str, n_sig_figs: Option<u32>, mantissa: Option<u64>) -> (r: String)
    ensures
        r@ == prefix@ + level_key(coin@, n_sig_figs, mantissa),
{
    let mut r = prefix.to_owned();
    push_text(&mut r, coin);
    push_text(&mut r, ":");
    push_decimal(
        &mut r,
        match n_sig_figs {
            Some(n) => n as u64,
            None => 0,
        },
    );
    push_text(&mut r, ":");
    push_decimal(
        &mut r,
        match mantissa {
            Some(n) => n,
            None => 0,
        },
    );
    assert(r@ =~= prefix@ + level_key(coin@, n_sig_figs, mantissa));
    r
}

/// How many levels of a side are sent for a subscription.
pub fn levels_sent(n_levels: Option<usize>) -> (r: usize)
    ensures
        r == match n_levels {
            Some(n) => if n < MOST_LEVELS {
                n
            } else {
                MOST_LEVELS
            },
            None => MOST_LEVELS,
        },
{
    match n_levels {
        Some(n) => if n < MOST_LEVELS {
            n
        } else {
            MOST_LEVELS
        },
        None => MOST_LEVELS,
    }
}

/// What is sent of a book, and what is remembered: the whole book the first time; after that its
/// changes, or nothing where there are none.
pub open spec fn book_told(
    before: Map<Seq<char>, SidesModel>,
    after: Map<Seq<char>, SidesModel>,
    key: Seq<char>,
    current: SidesModel,
    sent: Option<SidesModel>,
) -> bool {
    if before.contains_key(key) {
        let was = before[key];
        match sent {
            None => {
                &&& after == before
                &&& crate::levels::is_delta(
                    Seq::empty(),
                    crate::levels::by_price(was.bids),
                    crate::levels::by_price(current.bids),
                )
                &&& crate::levels::is_delta(
                    Seq::empty(),
                    crate::levels::by_price(was.asks),
                    crate::levels::by_price(current.asks),
                )
            },
            Some(d) => {
                &&& after == before.insert(key, current)
                &&& d.bids.len() > 0 || d.asks.len() > 0
                &&& crate::levels::is_delta(
                    d.bids,
                    crate::levels::by_price(was.bids),
                    crate::levels::by_price(current.bids),
                )
                &&& crate::levels::is_delta(
                    d.asks,
                    crate::levels::by_price(was.asks),
                    crate::levels::by_price(current.asks),
                )
            },
        }
    } else {
        after == before.insert(key, current) && sent == Some(current)
    }
}

fn copy_levels(v: &Vec<Level>) -> (r: Vec<Level>)
    ensures
        crate::types::level_views(r@) == crate::types::level_views(v@),
{
    let mut r: Vec<Level> = Vec::new();
    let mut i: usize = 0;
    while i < v.len()
        invariant
            i <= v@.len(),
            r@.len() == i,
            forall|j: int| 0 <= j < i ==> (#[trigger] r@[j])@ == v@[j]@,
        decreases v@.len() - i,
    {
        r.push(v[i].copy());
        i = i + 1;
    }
    assert(crate::types::level_views(r@) =~= crate::types::level_views(v@));
    r
}

/// What an optional pair of sides is.
pub open spec fn sides_opt(o: Option<Sides>) -> Option<SidesModel> {
    match o {
        Some(s) => Some(s@),
        None => None,
    }
}

fn tell_book(last: &mut StrMap<Sides>, key: String, current: Sides) -> (r: Option<Sides>)
    ensures
        book_told(old(last)@, final(last)@, key@, current@, sides_opt(r)),
{
    let sent = match last.get(key.as_str()) {
        Some(prev) => {
            let bids = compute_level_delta(&prev.bids, &current.bids);
            let asks = compute_level_delta(&prev.asks, &current.asks);
            if bids.len() == 0 && asks.len() == 0 {
                proof {
                    assert(crate::types::level_views(bids@) =~= Seq::<LevelModel>::empty());
                    assert(crate::types::level_views(asks@) =~= Seq::<LevelModel>::empty());
                }
                return None;
            }
            Sides { bids, asks }
        },
        None => Sides { bids: copy_levels(&current.bids), asks: copy_levels(&current.asks) },
    };
    last.insert(key, current);
    Some(sent)
}

// ── Best prices ──────────────────────────────────────────────────────────

/// The best prices and sizes.
pub open spec fn best_of(bid: Option<LevelModel>, ask: Option<LevelModel>) -> BestModel {
    BestModel {
        bid_px: match bid {
            Some(l) => l.px,
            None => Seq::empty(),
        },
        bid_sz: match bid {
            Some(l) => l.sz,
            None => Seq::empty(),
        },
        ask_px: match ask {
            Some(l) => l.px,
            None => Seq::empty(),
        },
        ask_sz: match ask {
            Some(l) => l.sz,
            None => Seq::empty(),
        },
    }
}

/// What an optional level is.
pub open spec fn level_opt(o: Option<Level>) -> Option<LevelModel> {
    match o {
        Some(l) => Some(l@),
        None => None,
    }
}

fn same_best(a: &Best, b: &Best) -> (r: bool)
    ensures
        r == (a@ == b@),
{
    let r = str_eq(a.bid_px.as_str(), b.bid_px.as_str()) && str_eq(
        a.bid_sz.as_str(),
        b.bid_sz.as_str(),
    ) && str_eq(a.ask_px.as_str(), b.ask_px.as_str()) && str_eq(
        a.ask_sz.as_str(),
        b.ask_sz.as_str(),
    );
    assert(r ==> a@ =~= b@);
    r
}

fn px_and_sz(l: &Option<Level>) -> (r: (String, String))
    ensures
        match level_opt(*l) {
            Some(m) => r.0@ == m.px && r.1@ == m.sz,
            None => r.0@ == Seq::<char>::empty() && r.1@ == Seq::<char>::empty(),
        },
{
    match l {
        Some(x) => (x.px().to_owned(), x.sz().to_owned()),
        None => {
            let r = (String::new(), String::new());
            assert(r.0@ =~= Seq::<char>::empty());
            assert(r.1@ =~= Seq::<char>::empty());
            r
        },
    }
}

// ── Last prices ──────────────────────────────────────────────────────────

/// The positions of the items of each coin, over the first `n` items, in order.
pub open spec fn grouped(coins: Seq<Seq<char>>, n: int) -> Map<Seq<char>, Seq<usize>>
    decreases n,
{
    if n <= 0 {
        Map::empty()
    } else {
        let before = grouped(coins, n - 1);
        let c = coins[n - 1];
        let i = (n - 1) as usize;
        if before.contains_key(c) {
            before.insert(c, before[c].push(i))
        } else {
            before.insert(c, seq![i])
        }
    }
}

/// The positions of the items of each coin, in order.
pub fn group_by_coin(coins: &Vec<String>) -> (r: StrMap<Vec<usize>>)
    ensures
        r@ == grouped(crate::json::texts(coins@), coins@.len() as int),
{
    let ghost names = crate::json::texts(coins@);
    let mut r: StrMap<Vec<usize>> = StrMap::new();
    let mut i: usize = 0;
    while i < coins.len()
        invariant
            i <= coins@.len(),
            names == crate::json::texts(coins@),
            r@ == grouped(names, i as int),
        decreases coins@.len() - i,
    {
        let c = coins[i].as_str();
        assert(names[i as int] == c@);
        let known = r.contains_key(c);
        if known {
            if let Some(v) = r.get_mut(c) {
                v.push(i);
            }
        } else {
            let mut v: Vec<usize> = Vec::new();
            v.push(i);
            assert(v@ =~= seq![i]);
            r.insert(c.to_owned(), v);
        }
        i = i + 1;
    }
    r
}

/// Whether a coin is wanted: both filters empty want all.
pub open spec fn wants_price(coin: Option<Seq<char>>, coins: Option<Seq<Seq<char>>>, c: Seq<char>) -> bool {
    (coin is None && coins is None) || coin == Some(c) || (coins is Some && coins->Some_0.contains(c))
}

/// The prices of the coins that are wanted.
pub open spec fn prices_wanted(
    prices: Map<Seq<char>, Seq<char>>,
    coin: Option<Seq<char>>,
    coins: Option<Seq<Seq<char>>>,
) -> Map<Seq<char>, Seq<char>> {
    Map::new(
        |c: Seq<char>| prices.contains_key(c) && wants_price(coin, coins, c),
        |c: Seq<char>| prices[c],
    )
}

fn wants(coin: &Option<String>, coins: &Option<Vec<String>>, c: &str) -> (r: bool)
    ensures
        r == wants_price(
            crate::json::text_opt(*coin),
            crate::servers::subscription::texts_opt(*coins),
            c@,
        ),
{
    if coin.is_none() && coins.is_none() {
        return true;
    }
    if let Some(x) = coin {
        if str_eq(x.as_str(), c) {
            return true;
        }
    }
    if let Some(cs) = coins {
        let ghost names = crate::json::texts(cs@);
        let mut i: usize = 0;
        while i < cs.len()
            invariant
                i <= cs@.len(),
                names == crate::json::texts(cs@),
                crate::servers::subscription::texts_opt(*coins) == Some(names),
                forall|j: int| 0 <= j < i ==> names[j] != c@,
            decreases cs@.len() - i,
        {
            if str_eq(cs[i].as_str(), c) {
                assert(names[i as int] == c@);
                return true;
            }
            i = i + 1;
        }
        assert(!names.contains(c@));
    }
    false
}

/// The prices of the coins that are wanted.
pub fn filter_prices(prices: &StrMap<String>, coin: &Option<String>, coins: &Option<Vec<String>>) -> (r:
    StrMap<String>)
    ensures
        r@ == prices_wanted(
            prices@,
            crate::json::text_opt(*coin),
            crate::servers::subscription::texts_opt(*coins),
        ),
{
    let n: usize = prices.len();
    let ghost ks = prices.keys();
    let ghost want = prices_wanted(
        prices@,
        crate::json::text_opt(*coin),
        crate::servers::subscription::texts_opt(*coins),
    );
    let mut r: StrMap<String> = StrMap::new();
    let mut i: usize = 0;
    proof {
        crate::strmap::lemma_take_all(ks);
    }
    while i < n
        invariant
            i <= n,
            n == ks.len(),
            ks == prices.keys(),
            want == prices_wanted(
                prices@,
                crate::json::text_opt(*coin),
                crate::servers::subscription::texts_opt(*coins),
            ),
            forall|c: Seq<char>| #[trigger]
                r@.contains_key(c) <==> ks.take(i as int).contains(c) && want.contains_key(c),
            forall|c: Seq<char>| #[trigger] r@.contains_key(c) ==> r@[c] == want[c],
        decreases n - i,
    {
        let k = prices.key_at(i);
        let v = prices.val_at(i);
        proof {
            crate::strmap::lemma_take_one(ks, i as int);
        }
        if wants(coin, coins, k.as_str()) {
            r.insert(k.clone(), v.clone());
        }
        i = i + 1;
    }
    assert(r@ =~= want);
    r
}

/// The last prices that are other than those known, of the coins that have items left.
pub open spec fn price_changes(
    groups: Map<Seq<char>, Seq<usize>>,
    pxs: Seq<Seq<char>>,
    prices: Map<Seq<char>, Seq<char>>,
) -> Map<Seq<char>, Seq<char>> {
    Map::new(
        |c: Seq<char>|
            groups.contains_key(c) && groups[c].len() > 0 && !(prices.contains_key(c) && prices[c]
                == pxs[groups[c].last() as int]),
        |c: Seq<char>| pxs[groups[c].last() as int],
    )
}

/// The items that are handed out to the first `n` subscriptions to trades, and the groups that are
/// left.
pub open spec fn trades_taken(subs: Seq<SubModel>, groups: Map<Seq<char>, Seq<usize>>, n: int) -> (
    Seq<(Seq<char>, Seq<usize>)>,
    Map<Seq<char>, Seq<usize>>,
)
    decreases n,
{
    if n <= 0 {
        (Seq::empty(), groups)
    } else {
        let (out, left) = trades_taken(subs, groups, n - 1);
        match subs[n - 1] {
            SubModel::Trades { coin } => if left.contains_key(coin) {
                (out.push((coin, left[coin])), left.remove(coin))
            } else {
                (out, left)
            },
            _ => (out, left),
        }
    }
}

/// The price changes that go out to the first `n` subscriptions to prices.
pub open spec fn prices_sent(subs: Seq<SubModel>, changed: Map<Seq<char>, Seq<char>>, n: int) -> Seq<
    Map<Seq<char>, Seq<char>>,
>
    decreases n,
{
    if n <= 0 {
        Seq::empty()
    } else {
        let before = prices_sent(subs, changed, n - 1);
        match subs[n - 1] {
            SubModel::AllPrices { coin, coins } => {
                let w = prices_wanted(changed, coin, coins);
                if w == Map::<Seq<char>, Seq<char>>::empty() {
                    before
                } else {
                    before.push(w)
                }
            },
            _ => before,
        }
    }
}

/// Whether a subscription to prices is among them.
pub open spec fn has_prices(subs: Seq<SubModel>) -> bool {
    exists|i: int| 0 <= i < subs.len() && (#[trigger] subs[i]) is AllPrices
}

/// What a batch of trades leads to: the trades by coin for the subscriptions to trades, and the last
/// prices for the subscriptions to prices. A coin whose trades are handed out brings no price.
pub struct FillsOut {
    pub trades: Vec<(String, Vec<usize>)>,
    pub prices: Vec<StrMap<String>>,
}

/// What the trades that are handed out are.
pub open spec fn trade_views(v: Seq<(String, Vec<usize>)>) -> Seq<(Seq<char>, Seq<usize>)> {
    v.map_values(|t: (String, Vec<usize>)| (t.0@, t.1@))
}

/// What the prices that are handed out are.
pub open spec fn price_views(v: Seq<StrMap<String>>) -> Seq<Map<Seq<char>, Seq<char>>> {
    v.map_values(|p: StrMap<String>| p@)
}

/// The known prices after a batch of trades.
pub open spec fn prices_after(m: SessionModel, coins: Seq<Seq<char>>, pxs: Seq<Seq<char>>) -> Map<
    Seq<char>,
    Seq<char>,
> {
    if has_prices(m.subs) {
        m.prices.union_prefer_right(fills_changed(m, coins, pxs))
    } else {
        m.prices
    }
}

/// The price changes of a batch of trades.
pub open spec fn fills_changed(m: SessionModel, coins: Seq<Seq<char>>, pxs: Seq<Seq<char>>) -> Map<
    Seq<char>,
    Seq<char>,
> {
    let left = trades_taken(m.subs, grouped(coins, coins.len() as int), m.subs.len() as int).1;
    price_changes(left, pxs, m.prices)
}

proof fn lemma_groups_point_inside(coins: Seq<Seq<char>>, n: int)
    requires
        0 <= n <= coins.len() <= usize::MAX,
    ensures
        forall|c: Seq<char>| #[trigger]
            grouped(coins, n).contains_key(c) ==> grouped(coins, n)[c].len() > 0 && (forall|i: int|
                0 <= i < grouped(coins, n)[c].len() ==> (#[trigger] grouped(coins, n)[c][i]) < n),
    decreases n,
{
    if n > 0 {
        lemma_groups_point_inside(coins, n - 1);
        let was = grouped(coins, n - 1);
        let now = grouped(coins, n);
        assert forall|c: Seq<char>| #[trigger] now.contains_key(c) implies now[c].len() > 0 && (forall|
            i: int,
        | 0 <= i < now[c].len() ==> (#[trigger] now[c][i]) < n) by {
            if was.contains_key(c) {
                assert forall|i: int| 0 <= i < now[c].len() implies (#[trigger] now[c][i]) < n by {
                    if i < was[c].len() {
                        assert(was[c][i] < n - 1);
                    }
                }
            }
        }
    }
}

proof fn lemma_left_is_grouped(subs: Seq<SubModel>, groups: Map<Seq<char>, Seq<usize>>, n: int)
    requires
        0 <= n <= subs.len(),
    ensures
        forall|c: Seq<char>| #[trigger]
            trades_taken(subs, groups, n).1.contains_key(c) ==> groups.contains_key(c) && groups[c]
                == trades_taken(subs, groups, n).1[c],
    decreases n,
{
    if n > 0 {
        lemma_left_is_grouped(subs, groups, n - 1);
        let was = trades_taken(subs, groups, n - 1).1;
        let now = trades_taken(subs, groups, n).1;
        assert forall|c: Seq<char>| #[trigger] now.contains_key(c) implies groups.contains_key(c)
            && groups[c] == now[c] by {
            assert(was.contains_key(c));
        }
    }
}

// ── Order books by order ─────────────────────────────────────────────────

/// The positions of the first `n` orders that a subscription wants: trigger orders or others, in the
/// price range.
pub open spec fn orders_wanted(trigger_only: bool, orders: Seq<(bool, bool)>, n: int) -> Seq<usize>
    decreases n,
{
    if n <= 0 {
        Seq::empty()
    } else {
        let before = orders_wanted(trigger_only, orders, n - 1);
        if orders[n - 1].0 == trigger_only && orders[n - 1].1 {
            before.push((n - 1) as usize)
        } else {
            before
        }
    }
}

/// The orders that a subscription wants. Each order is given by whether it is a trigger order and
/// whether its price is in the range: the trigger price of a trigger order, the limit price of another.
pub fn filter_orders(trigger_only: bool, orders: &Vec<(bool, bool)>) -> (r: Vec<usize>)
    ensures
        r@ == orders_wanted(trigger_only, orders@, orders@.len() as int),
{
    let mut r: Vec<usize> = Vec::new();
    let mut i: usize = 0;
    while i < orders.len()
        invariant
            i <= orders@.len(),
            r@ == orders_wanted(trigger_only, orders@, i as int),
        decreases orders@.len() - i,
    {
        let (is_trigger, in_range) = orders[i];
        if is_trigger == trigger_only && in_range {
            r.push(i);
        }
        i = i + 1;
    }
    r
}

/// The updates to a book that a subscription wants: the statuses, and the changes in the price range.
/// Changes do not tell whether the order is a trigger order; a subscription to those gets none.
pub fn filter_l4_updates(trigger_only: bool, statuses: &Vec<(bool, bool)>, diffs: &Vec<bool>) -> (r:
    Option<(Vec<usize>, Vec<usize>)>)
    ensures
        ({
            let ss = orders_wanted(trigger_only, statuses@, statuses@.len() as int);
            let ds = if trigger_only {
                Seq::<usize>::empty()
            } else {
                orders_wanted(
                    false,
                    diffs@.map_values(|b: bool| (false, b)),
                    diffs@.len() as int,
                )
            };
            match r {
                Some((s, d)) => s@ == ss && d@ == ds && (ss.len() > 0 || ds.len() > 0),
                None => ss.len() == 0 && ds.len() == 0,
            }
        }),
{
    let s = filter_orders(trigger_only, statuses);
    let mut d: Vec<usize> = Vec::new();
    if !trigger_only {
        let ghost pairs = diffs@.map_values(|b: bool| (false, b));
        let mut i: usize = 0;
        while i < diffs.len()
            invariant
                i <= diffs@.len(),
                pairs == diffs@.map_values(|b: bool| (false, b)),
                d@ == orders_wanted(false, pairs, i as int),
            decreases diffs@.len() - i,
        {
            if diffs[i] {
                d.push(i);
            }
            i = i + 1;
        }
    }
    if s.len() == 0 && d.len() == 0 {
        None
    } else {
        Some((s, d))
    }
}

// ── Orders of a user ─────────────────────────────────────────────────────

/// The positions of the first `n` orders of the user.
pub open spec fn orders_of(users: Seq<Address>, user: Seq<u8>, n: int) -> Seq<usize>
    decreases n,
{
    if n <= 0 {
        Seq::empty()
    } else {
        let before = orders_of(users, user, n - 1);
        if users[n - 1]@ == user {
            before.push((n - 1) as usize)
        } else {
            before
        }
    }
}

/// The orders of the user of a subscription; none where the user is no address.
pub fn order_updates(user: &str, users: &Vec<Address>) -> (r: Vec<usize>)
    ensures
        r@ == match crate::referral::address::address_in(user@) {
            Some(a) => orders_of(users@, a, users@.len() as int),
            None => Seq::empty(),
        },
{
    let mut r: Vec<usize> = Vec::new();
    let a: Address = match parse_address(user) {
        Some(a) => a,
        None => {
            return r;
        },
    };
    let mut i: usize = 0;
    while i < users.len()
        invariant
            i <= users@.len(),
            r@ == orders_of(users@, a@, i as int),
        decreases users@.len() - i,
    {
        if crate::bytes::same_bytes(users[i].as_slice(), a.as_slice()) {
            r.push(i);
        }
        i = i + 1;
    }
    r
}

// ── Markets ──────────────────────────────────────────────────────────────

/// A coin and the markets that it is of.
pub struct MarketCoin {
    pub coin: String,
    pub is_perp: bool,
    pub is_spot: bool,
    pub is_hip3: bool,
}

/// The markets that are served.
#[derive(Debug, Clone, Copy, PartialEq, Eq, Structural)]
pub struct MarketFilter {
    pub include_perps: bool,
    pub include_spot: bool,
    pub include_hip3: bool,
}

/// Whether a coin is of a market that is served.
pub open spec fn served(c: MarketCoin, f: MarketFilter) -> bool {
    (c.is_perp && f.include_perps) || (c.is_spot && f.include_spot) || (c.is_hip3 && f.include_hip3)
}

/// Whether the coin is one of the first `n` that are served.
pub open spec fn served_in(coins: Seq<MarketCoin>, f: MarketFilter, c: Seq<char>, n: int) -> bool {
    exists|i: int| 0 <= i < n && (#[trigger] coins[i]).coin@ == c && served(coins[i], f)
}

/// The coins of the markets that are served.
pub fn new_universe(coins: &Vec<MarketCoin>, f: MarketFilter) -> (r: StrMap<()>)
    ensures
        forall|c: Seq<char>| #[trigger]
            r@.contains_key(c) <==> served_in(coins@, f, c, coins@.len() as int),
{
    let mut r: StrMap<()> = StrMap::new();
    let mut i: usize = 0;
    while i < coins.len()
        invariant
            i <= coins@.len(),
            forall|c: Seq<char>| #[trigger]
                r@.contains_key(c) <==> served_in(coins@, f, c, i as int),
        decreases coins@.len() - i,
    {
        let ghost before = r@;
        let x = &coins[i];
        if (x.is_perp && f.include_perps) || (x.is_spot && f.include_spot) || (x.is_hip3
            && f.include_hip3) {
            r.insert(x.coin.clone(), ());
        }
        proof {
            assert forall|c: Seq<char>| #[trigger]
                r@.contains_key(c) <==> served_in(coins@, f, c, i + 1) by {
                assert(before.contains_key(c) <==> served_in(coins@, f, c, i as int));
                if served_in(coins@, f, c, i + 1) {
                    let j = choose|j: int|
                        0 <= j < i + 1 && (#[trigger] coins@[j]).coin@ == c && served(coins@[j], f);
                    if j < i {
                        assert(served_in(coins@, f, c, i as int));
                    }
                }
                if served_in(coins@, f, c, i as int) {
                    let j = choose|j: int|
                        0 <= j < i && (#[trigger] coins@[j]).coin@ == c && served(coins@[j], f);
                    assert(coins@[j].coin@ == c);
                }
                if r@.contains_key(c) && !before.contains_key(c) {
                    assert(coins@[i as int].coin@ == c);
                }
            }
        }
        i = i + 1;
    }
    r
}

// ── Who is told of what ──────────────────────────────────────────────────

/// What the listener brings. Order statuses concern the books first, and then the users.
#[derive(Debug, Clone, Copy, PartialEq, Eq, Structural)]
pub enum FeedEvent {
    /// Books of levels, and those of trigger orders.
    Snapshot,
    /// Best prices.
    Bbo,
    /// Changes of the orders in a book.
    OrderDiffs,
    /// Statuses of the orders in a book.
    OrderStatuses,
    /// Statuses of the orders of a user.
    UserOrders,
}

/// Whether a subscription is told of an event.
pub open spec fn told_of(s: SubModel, e: FeedEvent) -> bool {
    match e {
        FeedEvent::Snapshot => s is L2Book || s is TriggerBook,
        FeedEvent::Bbo => s is Bbo,
        FeedEvent::OrderDiffs => s is L4Book || s is L4TriggerBook,
        FeedEvent::OrderStatuses => s is L4Book || s is L4TriggerBook,
        FeedEvent::UserOrders => s is OrderUpdates,
    }
}

/// The positions of those of the first `n` subscriptions that are told of an event.
pub open spec fn all_told_of(subs: Seq<SubModel>, e: FeedEvent, n: int) -> Seq<usize>
    decreases n,
{
    if n <= 0 {
        Seq::empty()
    } else if told_of(subs[n - 1], e) {
        all_told_of(subs, e, n - 1).push((n - 1) as usize)
    } else {
        all_told_of(subs, e, n - 1)
    }
}

fn is_told_of(s: &Subscription, e: FeedEvent) -> (r: bool)
    ensures
        r == told_of(s@, e),
{
    match s {
        Subscription::L2Book { .. } => e == FeedEvent::Snapshot,
        Subscription::TriggerBook { .. } => e == FeedEvent::Snapshot,
        Subscription::Bbo { .. } => e == FeedEvent::Bbo,
        Subscription::L4Book { .. } => e == FeedEvent::OrderDiffs || e == FeedEvent::OrderStatuses,
        Subscription::L4TriggerBook { .. } => e == FeedEvent::OrderDiffs || e
            == FeedEvent::OrderStatuses,
        Subscription::OrderUpdates { .. } => e == FeedEvent::UserOrders,
        _ => false,
    }
}

// ── Requests ─────────────────────────────────────────────────────────────

/// A request of a client.
pub enum ClientMessage {
    Subscribe { subscription: Subscription },
    Unsubscribe { subscription: Subscription },
    Ping,
}

/// What a request is answered. A subscription is confirmed first; then, where `needs_snapshot`, a
/// snapshot of the book follows, and then the prices that are known.
pub enum Answer {
    Pong,
    Error { text: String },
    Confirmed { needs_snapshot: bool, prices: Option<StrMap<String>> },
}

/// What an answer is.
#[verifier::ext_equal]
pub enum AnswerModel {
    Pong,
    Error { text: Seq<char> },
    Confirmed { needs_snapshot: bool, prices: Option<Map<Seq<char>, Seq<char>>> },
}

impl View for Answer {
    type V = AnswerModel;

    open spec fn view(&self) -> AnswerModel {
        match *self {
            Answer::Pong => AnswerModel::Pong,
            Answer::Error { text } => AnswerModel::Error { text: text@ },
            Answer::Confirmed { needs_snapshot, prices } => AnswerModel::Confirmed {
                needs_snapshot,
                prices: match prices {
                    Some(p) => Some(p@),
                    None => None,
                },
            },
        }
    }
}

/// Whether a subscription begins with a snapshot.
pub open spec fn begins_with_snapshot(s: SubModel) -> bool {
    s is L4Book || s is L4TriggerBook
}

/// The prices that a new subscription is told.
pub open spec fn first_prices(s: SubModel, prices: Map<Seq<char>, Seq<char>>) -> Option<
    Map<Seq<char>, Seq<char>>,
> {
    match s {
        SubModel::AllPrices { coin, coins } => {
            let w = prices_wanted(prices, coin, coins);
            if w == Map::<Seq<char>, Seq<char>>::empty() {
                None
            } else {
                Some(w)
            }
        },
        _ => None,
    }
}

/// The session without what it remembers of the book of a subscription.
pub open spec fn forgotten(m: SessionModel, s: SubModel) -> SessionModel {
    match s {
        SubModel::L2Book { coin, n_sig_figs, mantissa, .. } => SessionModel {
            last_l2: m.last_l2.remove(level_key(coin, n_sig_figs, mantissa)),
            ..m
        },
        SubModel::TriggerBook { coin, n_sig_figs, mantissa, .. } => SessionModel {
            last_trigger: m.last_trigger.remove(trigger_key(coin, n_sig_figs, mantissa)),
            ..m
        },
        _ => m,
    }
}

/// Why a subscription is refused before anything is done; `shown` is its text.
pub open spec fn refusal(m: SessionModel, s: SubModel, shown: Seq<char>, valid: bool) -> Option<Seq<char>> {
    if !valid {
        Some("Invalid subscription: "@ + shown)
    } else if m.bbo_only && !(s is Bbo) {
        Some(BBO_ONLY@)
    } else {
        None
    }
}

/// Whether a list is another without one occurrence of an item.
pub open spec fn taken_out(before: Seq<SubModel>, after: Seq<SubModel>, s: SubModel) -> bool {
    exists|i: int| 0 <= i < before.len() && before[i] == s && after == #[trigger] before.remove(i)
}

/// What a request does to a session, and what it is answered.
pub open spec fn answered(
    before: SessionModel,
    after: SessionModel,
    msg: ClientMessage,
    shown: Seq<char>,
    valid: bool,
    answer: AnswerModel,
) -> bool {
    match msg {
        ClientMessage::Ping => after == before && answer == AnswerModel::Pong,
        ClientMessage::Subscribe { subscription } => {
            let s = subscription@;
            match refusal(before, s, shown, valid) {
                Some(text) => after == before && answer == (AnswerModel::Error { text }),
                None => if before.subs.contains(s) {
                    after == before && answer == (AnswerModel::Error {
                        text: "Already subscribed: "@ + shown,
                    })
                } else {
                    after == (SessionModel { subs: before.subs.push(s), ..before }) && answer == (
                    AnswerModel::Confirmed {
                        needs_snapshot: begins_with_snapshot(s),
                        prices: first_prices(s, before.prices),
                    })
                },
            }
        },
        ClientMessage::Unsubscribe { subscription } => {
            let s = subscription@;
            match refusal(before, s, shown, valid) {
                Some(text) => after == before && answer == (AnswerModel::Error { text }),
                None => if before.subs.contains(s) {
                    &&& taken_out(before.subs, after.subs, s)
                    &&& after == (SessionModel { subs: after.subs, ..forgotten(before, s) })
                    &&& answer == (AnswerModel::Confirmed { needs_snapshot: false, prices: None })
                } else {
                    after == forgotten(before, s) && answer == (AnswerModel::Error {
                        text: "Already unsubscribed: "@ + shown,
                    })
                },
            }
        },
    }
}

/// What a client is told whose request cannot be read.
pub fn parse_error(text: &str) -> (r: String)
    ensures
        r@ == "Error parsing JSON into valid websocket request: "@ + text@,
{
    let mut r = "Error parsing JSON into valid websocket request: ".to_owned();
    push_text(&mut r, text);
    r
}

fn error_answer(start: &str, shown: &str) -> (r: Answer)
    ensures
        r@ == (AnswerModel::Error { text: start@ + shown@ }),
{
    let mut text = start.to_owned();
    push_text(&mut text, shown);
    Answer::Error { text }
}

impl Session {
    /// A session with no subscription.
    pub fn new(bbo_only: bool) -> (r: Session)
        ensures
            r@ == (SessionModel {
                subs: Seq::empty(),
                last_bbo: Map::empty(),
                last_l2: Map::empty(),
                last_trigger: Map::empty(),
                prices: Map::empty(),
                bbo_only,
            }),
    {
        let r = Session {
            subs: Vec::new(),
            last_bbo: StrMap::new(),
            last_l2_levels: StrMap::new(),
            last_trigger_levels: StrMap::new(),
            all_prices: StrMap::new(),
            bbo_only,
        };
        assert(r@.subs =~= Seq::<SubModel>::empty());
        r
    }

    /// What the client is subscribed to.
    pub fn subscriptions(&self) -> (r: &Vec<Subscription>)
        ensures
            crate::servers::subscription::sub_views(r@) == self@.subs,
    {
        &self.subs
    }

    /// The positions of the subscriptions that are told of an event, in the order in which they were
    /// made.
    pub fn concerned(&self, e: FeedEvent) -> (r: Vec<usize>)
        ensures
            r@ == all_told_of(self@.subs, e, self@.subs.len() as int),
    {
        let mut r: Vec<usize> = Vec::new();
        let mut i: usize = 0;
        while i < self.subs.len()
            invariant
                i <= self.subs@.len(),
                self@.subs == crate::servers::subscription::sub_views(self.subs@),
                r@ == all_told_of(self@.subs, e, i as int),
            decreases self.subs@.len() - i,
        {
            assert(self@.subs[i as int] == self.subs@[i as int]@);
            if is_told_of(&self.subs[i], e) {
                r.push(i);
            }
            i = i + 1;
        }
        r
    }

    /// Tells the client of a book: gives back what is to be sent, where anything is.
    pub fn l2_update(
        &mut self,
        coin: &str,
        n_sig_figs: Option<u32>,
        mantissa: Option<u64>,
        current: Sides,
    ) -> (r: Option<Sides>)
        ensures
            book_told(
                old(self)@.last_l2,
                final(self)@.last_l2,
                level_key(coin@, n_sig_figs, mantissa),
                current@,
                sides_opt(r),
            ),
            final(self)@ == (SessionModel { last_l2: final(self)@.last_l2, ..old(self)@ }),
    {
        let key = level_key_of("", coin, n_sig_figs, mantissa);
        proof {
            reveal_strlit("");
            assert(""@ + level_key(coin@, n_sig_figs, mantissa) =~= level_key(
                coin@,
                n_sig_figs,
                mantissa,
            ));
        }
        tell_book(&mut self.last_l2_levels, key, current)
    }

    /// Tells the client of a book of trigger orders: gives back what is to be sent, where anything is.
    pub fn trigger_update(
        &mut self,
        coin: &str,
        n_sig_figs: Option<u32>,
        mantissa: Option<u64>,
        current: Sides,
    ) -> (r: Option<Sides>)
        ensures
            book_told(
                old(self)@.last_trigger,
                final(self)@.last_trigger,
                trigger_key(coin@, n_sig_figs, mantissa),
                current@,
                sides_opt(r),
            ),
            final(self)@ == (SessionModel { last_trigger: final(self)@.last_trigger, ..old(self)@ }),
    {
        let key = level_key_of("trigger:", coin, n_sig_figs, mantissa);
        tell_book(&mut self.last_trigger_levels, key, current)
    }

    /// Tells the client of the best prices of a coin: gives back whether they are to be sent, which is
    /// when they are not those last sent.
    pub fn bbo_update(&mut self, coin: &str, bid: &Option<Level>, ask: &Option<Level>) -> (r: bool)
        ensures
            ({
                let now = best_of(level_opt(*bid), level_opt(*ask));
                let known = old(self)@.last_bbo;
                &&& r == !(known.contains_key(coin@) && known[coin@] == now)
                &&& final(self)@ == if r {
                    SessionModel { last_bbo: known.insert(coin@, now), ..old(self)@ }
                } else {
                    old(self)@
                }
            }),
    {
        let (bid_px, bid_sz) = px_and_sz(bid);
        let (ask_px, ask_sz) = px_and_sz(ask);
        let now = Best { bid_px, bid_sz, ask_px, ask_sz };
        assert(now@ =~= best_of(level_opt(*bid), level_opt(*ask)));
        let known = match self.last_bbo.get(coin) {
            Some(b) => same_best(b, &now),
            None => false,
        };
        if known {
            return false;
        }
        self.last_bbo.insert(coin.to_owned(), now);
        true
    }

    fn take_trades(&self, groups: &mut StrMap<Vec<usize>>) -> (r: Vec<(String, Vec<usize>)>)
        ensures
            (trade_views(r@), final(groups)@) == trades_taken(
                self@.subs,
                old(groups)@,
                self@.subs.len() as int,
            ),
    {
        let ghost all = groups@;
        let mut r: Vec<(String, Vec<usize>)> = Vec::new();
        assert(trade_views(r@) =~= Seq::<(Seq<char>, Seq<usize>)>::empty());
        let mut i: usize = 0;
        while i < self.subs.len()
            invariant
                i <= self.subs@.len(),
                self@.subs == crate::servers::subscription::sub_views(self.subs@),
                (trade_views(r@), groups@) == trades_taken(self@.subs, all, i as int),
            decreases self.subs@.len() - i,
        {
            assert(self@.subs[i as int] == self.subs@[i as int]@);
            if let Subscription::Trades { coin } = &self.subs[i] {
                if let Some(v) = groups.remove(coin.as_str()) {
                    let ghost was = r@;
                    r.push((coin.clone(), v));
                    assert(trade_views(r@) =~= trade_views(was).push((coin@, v@)));
                } else {
                    assert(groups@ =~= trades_taken(self@.subs, all, i as int).1);
                }
            }
            i = i + 1;
        }
        r
    }

    fn wants_prices(&self) -> (r: bool)
        ensures
            r == has_prices(self@.subs),
    {
        let mut i: usize = 0;
        while i < self.subs.len()
            invariant
                i <= self.subs@.len(),
                self@.subs == crate::servers::subscription::sub_views(self.subs@),
                forall|j: int| 0 <= j < i ==> !((#[trigger] self@.subs[j]) is AllPrices),
            decreases self.subs@.len() - i,
        {
            assert(self@.subs[i as int] == self.subs@[i as int]@);
            if let Subscription::AllPrices { .. } = &self.subs[i] {
                return true;
            }
            i = i + 1;
        }
        false
    }

    fn note_prices(&mut self, groups: &StrMap<Vec<usize>>, pxs: &Vec<String>) -> (r: StrMap<String>)
        requires
            forall|c: Seq<char>| #[trigger]
                groups@.contains_key(c) ==> groups@[c].len() > 0 && groups@[c].last() < pxs@.len(),
        ensures
            r@ == price_changes(groups@, crate::json::texts(pxs@), old(self)@.prices),
            final(self)@ == (SessionModel {
                prices: old(self)@.prices.union_prefer_right(r@),
                ..old(self)@
            }),
    {
        let ghost before = self@;
        let ghost names = crate::json::texts(pxs@);
        let ghost want = price_changes(groups@, names, before.prices);
        let n: usize = groups.len();
        let ghost ks = groups.keys();
        let mut r: StrMap<String> = StrMap::new();
        proof {
            crate::strmap::lemma_take_all(ks);
            assert(before.prices.union_prefer_right(r@) =~= before.prices);
        }
        let mut i: usize = 0;
        while i < n
            invariant
                i <= n,
                n == ks.len(),
                ks == groups.keys(),
                ks.no_duplicates(),
                names == crate::json::texts(pxs@),
                want == price_changes(groups@, names, before.prices),
                forall|c: Seq<char>| #[trigger]
                    groups@.contains_key(c) ==> groups@[c].len() > 0 && groups@[c].last()
                        < pxs@.len(),
                forall|c: Seq<char>| #[trigger]
                    r@.contains_key(c) <==> ks.take(i as int).contains(c) && want.contains_key(c),
                forall|c: Seq<char>| #[trigger] r@.contains_key(c) ==> r@[c] == want[c],
                self@ == (SessionModel {
                    prices: before.prices.union_prefer_right(r@),
                    ..before
                }),
            decreases n - i,
        {
            let k = groups.key_at(i);
            let v = groups.val_at(i);
            proof {
                crate::strmap::lemma_take_one(ks, i as int);
            }
            let all: usize = v.len();
            let last: usize = v[all - 1];
            let px = &pxs[last];
            assert(names[last as int] == px@);
            let known = match self.all_prices.get(k.as_str()) {
                Some(p) => str_eq(p.as_str(), px.as_str()),
                None => false,
            };
            proof {
                assert(!r@.contains_key(k@));
                assert(self@.prices.contains_key(k@) == before.prices.contains_key(k@));
            }
            if !known {
                let ghost was = r@;
                self.all_prices.insert(k.clone(), px.clone());
                r.insert(k.clone(), px.clone());
                assert(before.prices.union_prefer_right(was).insert(k@, px@)
                    =~= before.prices.union_prefer_right(r@));
            }
            i = i + 1;
        }
        assert(r@ =~= want);
        r
    }

    fn send_prices(&self, changed: &StrMap<String>) -> (r: Vec<StrMap<String>>)
        ensures
            price_views(r@) == prices_sent(self@.subs, changed@, self@.subs.len() as int),
    {
        let mut r: Vec<StrMap<String>> = Vec::new();
        assert(price_views(r@) =~= Seq::<Map<Seq<char>, Seq<char>>>::empty());
        let mut i: usize = 0;
        while i < self.subs.len()
            invariant
                i <= self.subs@.len(),
                self@.subs == crate::servers::subscription::sub_views(self.subs@),
                price_views(r@) == prices_sent(self@.subs, changed@, i as int),
            decreases self.subs@.len() - i,
        {
            assert(self@.subs[i as int] == self.subs@[i as int]@);
            if let Subscription::AllPrices { coin, coins } = &self.subs[i] {
                let w = filter_prices(changed, coin, coins);
                if !w.is_empty() {
                    let ghost was = r@;
                    r.push(w);
                    assert(price_views(r@) =~= price_views(was).push(w@));
                }
            }
            i = i + 1;
        }
        r
    }

    /// Takes in a batch of trades, given by their coins and prices.
    pub fn on_fills(&mut self, coins: &Vec<String>, pxs: &Vec<String>) -> (r: FillsOut)
        requires
            coins@.len() == pxs@.len(),
        ensures
            ({
                let names = crate::json::texts(coins@);
                let texts = crate::json::texts(pxs@);
                let subs = old(self)@.subs;
                &&& trade_views(r.trades@) == trades_taken(
                    subs,
                    grouped(names, names.len() as int),
                    subs.len() as int,
                ).0
                &&& price_views(r.prices@) == if has_prices(subs) {
                    prices_sent(subs, fills_changed(old(self)@, names, texts), subs.len() as int)
                } else {
                    Seq::empty()
                }
                &&& final(self)@ == (SessionModel {
                    prices: prices_after(old(self)@, names, texts),
                    ..old(self)@
                })
            }),
    {
        let ghost names = crate::json::texts(coins@);
        let ghost subs = self@.subs;
        let _count: usize = coins.len();
        assert(names.len() == _count);
        let mut groups = group_by_coin(coins);
        let ghost whole = groups@;
        let trades = self.take_trades(&mut groups);
        if !self.wants_prices() {
            let none: Vec<StrMap<String>> = Vec::new();
            assert(price_views(none@) =~= Seq::<Map<Seq<char>, Seq<char>>>::empty());
            return FillsOut { trades, prices: none };
        }
        proof {
            lemma_groups_point_inside(names, names.len() as int);
            lemma_left_is_grouped(subs, whole, subs.len() as int);
            assert forall|c: Seq<char>| #[trigger] groups@.contains_key(c) implies groups@[c].len() > 0
                && groups@[c].last() < pxs@.len() by {
                assert(whole.contains_key(c));
                assert(whole[c][whole[c].len() - 1] < names.len());
            }
        }
        let changed = self.note_prices(&groups, pxs);
        let prices = self.send_prices(&changed);
        FillsOut { trades, prices }
    }

    fn forget(&mut self, s: &Subscription)
        ensures
            final(self)@ == forgotten(old(self)@, s@),
    {
        match s {
            Subscription::L2Book { coin, n_sig_figs, mantissa, .. } => {
                let key = level_key_of("", coin.as_str(), *n_sig_figs, *mantissa);
                proof {
                    reveal_strlit("");
                    assert(""@ + level_key(coin@, *n_sig_figs, *mantissa) =~= level_key(
                        coin@,
                        *n_sig_figs,
                        *mantissa,
                    ));
                }
                self.last_l2_levels.remove(key.as_str());
            },
            Subscription::TriggerBook { coin, n_sig_figs, mantissa, .. } => {
                let key = level_key_of("trigger:", coin.as_str(), *n_sig_figs, *mantissa);
                self.last_trigger_levels.remove(key.as_str());
            },
            _ => {},
        }
    }

    fn take_out(&mut self, i: usize)
        requires
            i < old(self)@.subs.len(),
        ensures
            final(self)@ == (SessionModel { subs: old(self)@.subs.remove(i as int), ..old(self)@ }),
    {
        let ghost before = self.subs@;
        let gone = self.subs.remove(i);
        assert(crate::servers::subscription::sub_views(self.subs@)
            =~= crate::servers::subscription::sub_views(before).remove(i as int));
    }

    /// Takes in a request. `shown` is the text of its subscription, and `valid` says whether the
    /// subscription is one that can be served.
    pub fn receive(&mut self, msg: &ClientMessage, shown: &str, valid: bool) -> (r: Answer)
        ensures
            answered(old(self)@, final(self)@, *msg, shown@, valid, r@),
    {
        let (s, on) = match msg {
            ClientMessage::Ping => {
                return Answer::Pong;
            },
            ClientMessage::Subscribe { subscription } => (subscription, true),
            ClientMessage::Unsubscribe { subscription } => (subscription, false),
        };
        if !valid {
            return error_answer("Invalid subscription: ", shown);
        }
        let is_bbo = match s {
            Subscription::Bbo { .. } => true,
            _ => false,
        };
        if self.bbo_only && !is_bbo {
            return Answer::Error { text: BBO_ONLY.to_owned() };
        }
        let ghost before = self@;
        if on {
            if find_sub(&self.subs, s).is_some() {
                proof {
                    assert(self@.subs.contains(s@)) by {
                        let i = choose|i: int| 0 <= i < self.subs@.len() && (#[trigger] self.subs@[i])@ == s@;
                        assert(self@.subs[i] == s@);
                    }
                }
                return error_answer("Already subscribed: ", shown);
            }
            self.subs.push(s.copy());
            assert(self@.subs =~= before.subs.push(s@));
            let needs_snapshot = match s {
                Subscription::L4Book { .. } => true,
                Subscription::L4TriggerBook { .. } => true,
                _ => false,
            };
            let prices = match s {
                Subscription::AllPrices { coin, coins } => {
                    let w = filter_prices(&self.all_prices, coin, coins);
                    if w.is_empty() {
                        None
                    } else {
                        Some(w)
                    }
                },
                _ => None,
            };
            Answer::Confirmed { needs_snapshot, prices }
        } else {
            self.forget(s);
            match find_sub(&self.subs, s) {
                Some(i) => {
                    proof {
                        assert(self@.subs[i as int] == s@);
                        assert(before.subs.contains(s@));
                    }
                    self.take_out(i);
                    assert(taken_out(before.subs, self@.subs, s@));
                    Answer::Confirmed { needs_snapshot: false, prices: None }
                },
                None => error_answer("Already unsubscribed: ", shown),
            }
        }
    }

    /// Takes a subscription back whose first snapshot could not be made, and gives back what the client
    /// is told.
    pub fn snapshot_failed(&mut self, s: &Subscription, err: &str) -> (r: String)
        ensures
            r@ == "Unable to grab order book snapshot: "@ + err@,
            if old(self)@.subs.contains(s@) {
                taken_out(old(self)@.subs, final(self)@.subs, s@) && final(self)@ == (SessionModel {
                    subs: final(self)@.subs,
                    ..old(self)@
                })
            } else {
                final(self)@ == old(self)@
            },
    {
        let ghost before = self@;
        if let Some(i) = find_sub(&self.subs, s) {
            proof {
                assert(self@.subs[i as int] == s@);
            }
            self.take_out(i);
            assert(taken_out(before.subs, self@.subs, s@));
        }
        let mut r = "Unable to grab order book snapshot: ".to_owned();
        push_text(&mut r, err);
        r
    }
}

// ── Laws ─────────────────────────────────────────────────────────────────

/// A client that puts together what it is sent of a book has the book: the levels that it had, with
/// what is sent put in, are the levels that are remembered for it. The book has no level of size "0".
pub proof fn law_client_follows_book(
    before: Map<Seq<char>, SidesModel>,
    after: Map<Seq<char>, SidesModel>,
    key: Seq<char>,
    current: SidesModel,
    sent: SidesModel,
)
    requires
        book_told(before, after, key, current, Some(sent)),
        before.contains_key(key),
        crate::levels::proper_side(crate::levels::by_price(current.bids)),
        crate::levels::proper_side(crate::levels::by_price(current.asks)),
    ensures
        after[key] == current,
        crate::levels::merged(
            crate::levels::by_price(before[key].bids),
            crate::levels::as_changes(sent.bids),
        ) == crate::levels::by_price(current.bids),
        crate::levels::merged(
            crate::levels::by_price(before[key].asks),
            crate::levels::as_changes(sent.asks),
        ) == crate::levels::by_price(current.asks),
{
    crate::levels::law_delta_leads_to_new_side(
        sent.bids,
        crate::levels::by_price(before[key].bids),
        crate::levels::by_price(current.bids),
    );
    crate::levels::law_delta_leads_to_new_side(
        sent.asks,
        crate::levels::by_price(before[key].asks),
        crate::levels::by_price(current.asks),
    );
}

/// Where nothing is sent of a book, its levels are those that the client has. The book has no level of
/// size "0".
pub proof fn law_silence_means_same_book(
    before: Map<Seq<char>, SidesModel>,
    after: Map<Seq<char>, SidesModel>,
    key: Seq<char>,
    current: SidesModel,
)
    requires
        book_told(before, after, key, current, None),
        crate::levels::proper_side(crate::levels::by_price(current.bids)),
        crate::levels::proper_side(crate::levels::by_price(current.asks)),
    ensures
        before.contains_key(key),
        after == before,
        crate::levels::by_price(before[key].bids) == crate::levels::by_price(current.bids),
        crate::levels::by_price(before[key].asks) == crate::levels::by_price(current.asks),
{
    let none = Seq::<LevelModel>::empty();
    assert(crate::levels::as_changes(none) =~= Seq::empty());
    crate::levels::law_delta_leads_to_new_side(
        none,
        crate::levels::by_price(before[key].bids),
        crate::levels::by_price(current.bids),
    );
    crate::levels::law_delta_leads_to_new_side(
        none,
        crate::levels::by_price(before[key].asks),
        crate::levels::by_price(current.asks),
    );
}

/// After a client has left a book, what it is sent of it next is the whole book.
pub proof fn law_resubscribing_gets_whole_book(
    m: SessionModel,
    coin: Seq<char>,
    n_sig_figs: Option<u32>,
    n_levels: Option<usize>,
    mantissa: Option<u64>,
    after: Map<Seq<char>, SidesModel>,
    current: SidesModel,
    sent: Option<SidesModel>,
)
    requires
        book_told(
            forgotten(m, SubModel::L2Book { coin, n_sig_figs, n_levels, mantissa }).last_l2,
            after,
            level_key(coin, n_sig_figs, mantissa),
            current,
            sent,
        ),
    ensures
        sent == Some(current),
{
}

} // verus!

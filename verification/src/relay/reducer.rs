//! What a relay keeps of each subscription, so that a client that joins late can be given the whole
//! state first.
//!
//! Books are put together from their changes, prices from theirs; of some channels the last message is
//! kept, and of the others nothing.
use crate::json::{array_len_at, items_at, members_at, quote, string_at, u64_at, value_at};
use crate::order::stable_order;
use crate::strmap::StrMap;
use crate::text::{push_decimal, push_text, str_eq};
use vstd::prelude::*;

verus! {

/// The state of a subscription.
pub enum Reducer {
    /// A book: the levels of each side by price, as JSON texts. The parameters of the subscription are
    /// given back with the state.
    Levels {
        channel: String,
        coin: String,
        n_sig_figs: Option<String>,
        n_levels: Option<u64>,
        mantissa: Option<String>,
        bids: StrMap<String>,
        asks: StrMap<String>,
        time: u64,
    },
    /// The last message.
    LastFrame { frame: Option<String> },
    /// The last price of each coin.
    PriceMap { prices: StrMap<String> },
    /// Nothing.
    Passthrough,
}

/// What the state of a subscription is.
#[verifier::ext_equal]
pub enum ReducerModel {
    Levels {
        channel: Seq<char>,
        coin: Seq<char>,
        n_sig_figs: Option<Seq<char>>,
        n_levels: Option<u64>,
        mantissa: Option<Seq<char>>,
        bids: Map<Seq<char>, Seq<char>>,
        asks: Map<Seq<char>, Seq<char>>,
        time: u64,
    },
    LastFrame { frame: Option<Seq<char>> },
    PriceMap { prices: Map<Seq<char>, Seq<char>> },
    Passthrough,
}

impl View for Reducer {
    type V = ReducerModel;

    open spec fn view(&self) -> ReducerModel {
        match *self {
            Reducer::Levels { channel, coin, n_sig_figs, n_levels, mantissa, bids, asks, time } => {
                ReducerModel::Levels {
                    channel: channel@,
                    coin: coin@,
                    n_sig_figs: crate::json::text_opt(n_sig_figs),
                    n_levels,
                    mantissa: crate::json::text_opt(mantissa),
                    bids: bids@,
                    asks: asks@,
                    time,
                }
            },
            Reducer::LastFrame { frame } => ReducerModel::LastFrame {
                frame: crate::json::text_opt(frame),
            },
            Reducer::PriceMap { prices } => ReducerModel::PriceMap { prices: prices@ },
            Reducer::Passthrough => ReducerModel::Passthrough,
        }
    }
}

// ── Starting ─────────────────────────────────────────────────────────────

/// The value of a parameter, unless it is absent or null.
pub open spec fn given(sub: Seq<char>, place: Seq<char>) -> Option<Seq<char>> {
    match crate::json::value_found(sub, place) {
        Some(v) => if v == "null"@ {
            None
        } else {
            Some(v)
        },
        None => None,
    }
}

/// The state that a subscription starts with; `sub` is the JSON text of the subscription.
pub open spec fn started(channel: Seq<char>, sub: Seq<char>) -> ReducerModel {
    if channel == "l2Book"@ || channel == "triggerBook"@ {
        ReducerModel::Levels {
            channel,
            coin: match crate::json::string_found(sub, "/coin"@) {
                Some(c) => c,
                None => Seq::empty(),
            },
            n_sig_figs: given(sub, "/nSigFigs"@),
            n_levels: crate::json::u64_found(sub, "/nLevels"@),
            mantissa: given(sub, "/mantissa"@),
            bids: Map::empty(),
            asks: Map::empty(),
            time: 0,
        }
    } else if channel == "bbo"@ || channel == "liquidationMap"@ || channel == "l4LiquidationMap"@ {
        ReducerModel::LastFrame { frame: None }
    } else if channel == "allPrices"@ {
        ReducerModel::PriceMap { prices: Map::empty() }
    } else {
        ReducerModel::Passthrough
    }
}

fn given_at(sub: &str, place: &str) -> (r: Option<String>)
    ensures
        crate::json::text_opt(r) == given(sub@, place@),
{
    match value_at(sub, place) {
        Some(v) => if str_eq(v.as_str(), "null") {
            None
        } else {
            Some(v)
        },
        None => None,
    }
}

// ── Messages ─────────────────────────────────────────────────────────────

/// The changes that the first `n` levels of a side tell of. A level without a price tells of none; one
/// without a size tells that the price is gone.
pub open spec fn side_changes(items: Seq<Seq<char>>, n: int) -> Seq<crate::levels::Change<Seq<char>>>
    decreases n,
{
    if n <= 0 {
        Seq::empty()
    } else {
        let before = side_changes(items, n - 1);
        let item = items[n - 1];
        match crate::json::string_found(item, "/px"@) {
            Some(px) => before.push(
                crate::levels::Change {
                    px,
                    sz: match crate::json::string_found(item, "/sz"@) {
                        Some(sz) => sz,
                        None => "0"@,
                    },
                    level: item,
                },
            ),
            None => before,
        }
    }
}

/// A side after a message; `place` is where the message has the levels of the side.
pub open spec fn side_after(m: Map<Seq<char>, Seq<char>>, frame: Seq<char>, place: Seq<char>) -> Map<
    Seq<char>,
    Seq<char>,
> {
    if crate::json::array_len_found(frame, "/data/levels"@) is None {
        m
    } else {
        match crate::json::items_found(frame, place) {
            Some(items) => crate::levels::merged(m, side_changes(items, items.len() as int)),
            None => m,
        }
    }
}

/// The prices after the first `n` members of a message.
pub open spec fn prices_merged(
    prices: Map<Seq<char>, Seq<char>>,
    members: Seq<(Seq<char>, Seq<char>)>,
    n: int,
) -> Map<Seq<char>, Seq<char>>
    decreases n,
{
    if n <= 0 {
        prices
    } else {
        let before = prices_merged(prices, members, n - 1);
        match crate::json::string_found(members[n - 1].1, ""@) {
            Some(px) => before.insert(members[n - 1].0, px),
            None => before,
        }
    }
}

/// The state after a message.
pub open spec fn applied(m: ReducerModel, frame: Seq<char>) -> ReducerModel {
    match m {
        ReducerModel::Levels { channel, coin, n_sig_figs, n_levels, mantissa, bids, asks, time } => {
            ReducerModel::Levels {
                channel,
                coin,
                n_sig_figs,
                n_levels,
                mantissa,
                bids: side_after(bids, frame, "/data/levels/0"@),
                asks: side_after(asks, frame, "/data/levels/1"@),
                time: match crate::json::u64_found(frame, "/data/time"@) {
                    Some(t) => t,
                    None => time,
                },
            }
        },
        ReducerModel::LastFrame { .. } => ReducerModel::LastFrame { frame: Some(frame) },
        ReducerModel::PriceMap { prices } => ReducerModel::PriceMap {
            prices: match crate::json::members_found(frame, "/data"@) {
                Some(ms) => prices_merged(prices, ms, ms.len() as int),
                None => prices,
            },
        },
        ReducerModel::Passthrough => ReducerModel::Passthrough,
    }
}

/// The state without what messages brought.
pub open spec fn cleared(m: ReducerModel) -> ReducerModel {
    match m {
        ReducerModel::Levels { channel, coin, n_sig_figs, n_levels, mantissa, .. } => {
            ReducerModel::Levels {
                channel,
                coin,
                n_sig_figs,
                n_levels,
                mantissa,
                bids: Map::empty(),
                asks: Map::empty(),
                time: 0,
            }
        },
        ReducerModel::LastFrame { .. } => ReducerModel::LastFrame { frame: None },
        ReducerModel::PriceMap { .. } => ReducerModel::PriceMap { prices: Map::empty() },
        ReducerModel::Passthrough => ReducerModel::Passthrough,
    }
}

/// Puts the changes of a side in: a size of "0" takes the price away, any other sets it.
fn apply_side(map: &mut StrMap<String>, items: &Vec<String>)
    ensures
        final(map)@ == crate::levels::merged(
            old(map)@,
            side_changes(crate::json::texts(items@), items@.len() as int),
        ),
{
    let ghost start = map@;
    let ghost all = crate::json::texts(items@);
    let mut i: usize = 0;
    while i < items.len()
        invariant
            i <= items@.len(),
            all == crate::json::texts(items@),
            map@ == crate::levels::merged(start, side_changes(all, i as int)),
        decreases items@.len() - i,
    {
        let item = items[i].as_str();
        assert(all[i as int] == item@);
        if let Some(px) = string_at(item, "/px") {
            let gone = match string_at(item, "/sz") {
                Some(sz) => str_eq(sz.as_str(), "0"),
                None => true,
            };
            proof {
                let more = side_changes(all, i + 1);
                assert(more.drop_last() =~= side_changes(all, i as int));
                assert(more.last().px == px@);
                assert(more.last().level == item@);
                assert(gone == (more.last().sz == "0"@));
            }
            if gone {
                map.remove(px.as_str());
            } else {
                map.insert(px, items[i].clone());
            }
        }
        i = i + 1;
    }
}

fn apply_levels(map: &mut StrMap<String>, frame: &str, place: &str)
    ensures
        final(map)@ == side_after(old(map)@, frame@, place@),
{
    if array_len_at(frame, "/data/levels").is_none() {
        return;
    }
    if let Some(items) = items_at(frame, place) {
        apply_side(map, &items);
        assert(crate::json::texts(items@).len() == items@.len());
    }
}

fn apply_prices(prices: &mut StrMap<String>, frame: &str)
    ensures
        final(prices)@ == match crate::json::members_found(frame@, "/data"@) {
            Some(ms) => prices_merged(old(prices)@, ms, ms.len() as int),
            None => old(prices)@,
        },
{
    if let Some(ms) = members_at(frame, "/data") {
        let ghost start = prices@;
        let ghost all = crate::json::pair_texts(ms@);
        let mut i: usize = 0;
        while i < ms.len()
            invariant
                i <= ms@.len(),
                all == crate::json::pair_texts(ms@),
                prices@ == prices_merged(start, all, i as int),
            decreases ms@.len() - i,
        {
            assert(all[i as int] == (ms@[i as int].0@, ms@[i as int].1@));
            if let Some(px) = string_at(ms[i].1.as_str(), "") {
                prices.insert(ms[i].0.clone(), px);
            }
            i = i + 1;
        }
        assert(all.len() == ms@.len());
    }
}

// ── The whole state ──────────────────────────────────────────────────────

/// The texts, with commas between them.
pub open spec fn joined_texts(ts: Seq<Seq<char>>) -> Seq<char>
    decreases ts.len(),
{
    if ts.len() == 0 {
        Seq::empty()
    } else if ts.len() == 1 {
        ts[0]
    } else {
        joined_texts(ts.drop_last()) + ","@ + ts.last()
    }
}

/// The ranks turned round, so that the greatest comes first.
pub open spec fn turned(ranks: Seq<u128>) -> Seq<u128> {
    ranks.map_values(|r: u128| (u128::MAX - r) as u128)
}

/// How many of a number of levels are given.
pub open spec fn shown(n_levels: Option<u64>, n: int) -> int {
    match n_levels {
        Some(l) => if l < n {
            l as int
        } else {
            n
        },
        None => n,
    }
}

/// The levels in the order of a list of positions.
pub open spec fn levels_at(m: Map<Seq<char>, Seq<char>>, ks: Seq<Seq<char>>, order: Seq<usize>) -> Seq<
    Seq<char>,
> {
    order.map_values(|i: usize| m[ks[i as int]])
}

/// Whether the order is that of the ranks, every position once.
pub open spec fn orders(ranks: Seq<u128>, order: Seq<usize>) -> bool {
    &&& order.len() == ranks.len()
    &&& forall|x: usize| order.contains(x) <==> x < ranks.len()
    &&& crate::order::in_rank_order(ranks, order)
}

/// Whether the text is that of a side: its levels by rank, as many as are given.
pub open spec fn is_side_text(
    t: Seq<char>,
    m: Map<Seq<char>, Seq<char>>,
    ks: Seq<Seq<char>>,
    ranks: Seq<u128>,
    n_levels: Option<u64>,
) -> bool {
    exists|order: Seq<usize>| #[trigger]
        orders(ranks, order) && t == joined_texts(
            levels_at(m, ks, order).take(shown(n_levels, order.len() as int)),
        )
}

/// The message that gives a whole book.
pub open spec fn book_frame(
    channel: Seq<char>,
    coin: Seq<char>,
    n_sig_figs: Option<Seq<char>>,
    n_levels: Option<u64>,
    mantissa: Option<Seq<char>>,
    bids: Seq<char>,
    asks: Seq<char>,
    time: u64,
) -> Seq<char> {
    "{\"channel\":"@ + crate::json::quoted(channel) + ",\"data\":{\"coin\":"@ + crate::json::quoted(coin)
        + ",\"levels\":[["@ + bids + "],["@ + asks + "]]"@ + (match mantissa {
        Some(m) => ",\"mantissa\":"@ + m,
        None => Seq::empty(),
    }) + (match n_levels {
        Some(n) => ",\"nLevels\":"@ + crate::text::decimal_text(n as nat),
        None => Seq::empty(),
    }) + (match n_sig_figs {
        Some(f) => ",\"nSigFigs\":"@ + f,
        None => Seq::empty(),
    }) + ",\"time\":"@ + crate::text::decimal_text(time as nat) + "}}"@
}

/// Whether the text is the message that gives a whole book: the bids from the highest rank down, the
/// asks from the lowest up.
pub open spec fn is_book_frame(
    t: Seq<char>,
    m: ReducerModel,
    bid_keys: Seq<Seq<char>>,
    ask_keys: Seq<Seq<char>>,
    bid_ranks: Seq<u128>,
    ask_ranks: Seq<u128>,
) -> bool {
    match m {
        ReducerModel::Levels { channel, coin, n_sig_figs, n_levels, mantissa, bids, asks, time } => {
            exists|b: Seq<char>, a: Seq<char>|
                #![trigger book_frame(channel, coin, n_sig_figs, n_levels, mantissa, b, a, time)]
                {
                    &&& is_side_text(b, bids, bid_keys, turned(bid_ranks), n_levels)
                    &&& is_side_text(a, asks, ask_keys, ask_ranks, n_levels)
                    &&& t == book_frame(channel, coin, n_sig_figs, n_levels, mantissa, b, a, time)
                }
        },
        _ => false,
    }
}

/// The members of the first `n` coins, each with its price.
pub open spec fn price_members(us: Seq<Seq<char>>, prices: Map<Seq<char>, Seq<char>>, n: int) -> Seq<
    Seq<char>,
>
    decreases n,
{
    if n <= 0 {
        Seq::empty()
    } else {
        price_members(us, prices, n - 1).push(
            crate::json::quoted(us[n - 1]) + ":"@ + crate::json::quoted(prices[us[n - 1]]),
        )
    }
}

/// Whether the text is the message that gives all prices, by coin in dictionary order.
pub open spec fn is_price_frame(t: Seq<char>, prices: Map<Seq<char>, Seq<char>>) -> bool {
    exists|us: Seq<Seq<char>>| #[trigger]
        crate::strmap::listing(us, prices.dom()) && t == "{\"channel\":\"allPrices\",\"data\":{"@
            + joined_texts(price_members(us, prices, us.len() as int)) + "}}"@
}

fn push_joined(r: &mut String, ts: &Vec<String>)
    ensures
        final(r)@ == old(r)@ + joined_texts(crate::json::texts(ts@)),
{
    let ghost start = r@;
    let ghost all = crate::json::texts(ts@);
    let mut i: usize = 0;
    proof {
        assert(all.take(0) =~= Seq::<Seq<char>>::empty());
        assert(start + joined_texts(all.take(0)) =~= start);
    }
    while i < ts.len()
        invariant
            i <= ts@.len(),
            all == crate::json::texts(ts@),
            r@ == start + joined_texts(all.take(i as int)),
        decreases ts@.len() - i,
    {
        proof {
            assert(all.take(i + 1).drop_last() =~= all.take(i as int));
            assert(all.take(i + 1).last() == ts@[i as int]@);
        }
        if i > 0 {
            push_text(r, ",");
        }
        push_text(r, ts[i].as_str());
        proof {
            assert(r@ =~= start + joined_texts(all.take(i + 1)));
        }
        i = i + 1;
    }
    assert(all.take(ts@.len() as int) =~= all);
}

fn turn(ranks: &Vec<u128>) -> (r: Vec<u128>)
    ensures
        r@ == turned(ranks@),
{
    let mut r: Vec<u128> = Vec::new();
    let mut i: usize = 0;
    while i < ranks.len()
        invariant
            i <= ranks@.len(),
            r@ == turned(ranks@).take(i as int),
        decreases ranks@.len() - i,
    {
        r.push(u128::MAX - ranks[i]);
        assert(r@ =~= turned(ranks@).take(i + 1));
        i = i + 1;
    }
    assert(r@ =~= turned(ranks@));
    r
}

fn side_text(m: &StrMap<String>, ranks: &Vec<u128>, n_levels: Option<u64>) -> (r: String)
    requires
        ranks@.len() == m.keys().len(),
    ensures
        is_side_text(r@, m@, m.keys(), ranks@, n_levels),
{
    let order = stable_order(ranks);
    let ghost ks = m.keys();
    let all: usize = order.len();
    let count: usize = match n_levels {
        Some(l) => if l < all as u64 {
            l as usize
        } else {
            all
        },
        None => all,
    };
    let ghost want = levels_at(m@, ks, order@).take(shown(n_levels, order@.len() as int));
    let mut ts: Vec<String> = Vec::new();
    let mut i: usize = 0;
    while i < count
        invariant
            i <= count,
            count == want.len(),
            count <= order@.len(),
            ks == m.keys(),
            order@.len() == ks.len(),
            forall|x: usize| order@.contains(x) <==> x < ks.len(),
            want == levels_at(m@, ks, order@).take(count as int),
            crate::json::texts(ts@) =~= want.take(i as int),
        decreases count - i,
    {
        assert(order@.contains(order@[i as int]));
        let v = m.val_at(order[i]);
        let ghost was = ts@;
        ts.push(v.clone());
        proof {
            assert(crate::json::texts(ts@) =~= crate::json::texts(was).push(v@));
            assert(want.take(i + 1) =~= want.take(i as int).push(want[i as int]));
        }
        i = i + 1;
    }
    assert(want.take(count as int) =~= want);
    let mut r = String::new();
    assert(r@ =~= Seq::<char>::empty());
    push_joined(&mut r, &ts);
    proof {
        assert(orders(ranks@, order@));
        assert(r@ =~= joined_texts(want));
    }
    r
}

fn price_frame(prices: &StrMap<String>) -> (r: String)
    ensures
        is_price_frame(r@, prices@),
{
    let us = prices.sorted_keys();
    let ghost un = crate::json::texts(us@);
    let mut ts: Vec<String> = Vec::new();
    assert(crate::json::texts(ts@) =~= Seq::<Seq<char>>::empty());
    let mut i: usize = 0;
    while i < us.len()
        invariant
            i <= us@.len(),
            un == crate::json::texts(us@),
            crate::strmap::listing(un, prices@.dom()),
            crate::json::texts(ts@) == price_members(un, prices@, i as int),
        decreases us@.len() - i,
    {
        let c = us[i].as_str();
        proof {
            assert(un[i as int] == c@);
            assert(un.contains(c@));
            assert(un.to_set().contains(c@));
        }
        if let Some(px) = prices.get(c) {
            let mut t = quote(c);
            push_text(&mut t, ":");
            let q = quote(px.as_str());
            push_text(&mut t, q.as_str());
            let ghost was = ts@;
            ts.push(t);
            assert(crate::json::texts(ts@) =~= crate::json::texts(was).push(t@));
        }
        i = i + 1;
    }
    let mut r = "{\"channel\":\"allPrices\",\"data\":{".to_owned();
    push_joined(&mut r, &ts);
    push_text(&mut r, "}}");
    r
}

fn write_book(
    channel: &str,
    coin: &str,
    n_sig_figs: &Option<String>,
    n_levels: Option<u64>,
    mantissa: &Option<String>,
    bids: &str,
    asks: &str,
    time: u64,
) -> (r: String)
    ensures
        r@ == book_frame(
            channel@,
            coin@,
            crate::json::text_opt(*n_sig_figs),
            n_levels,
            crate::json::text_opt(*mantissa),
            bids@,
            asks@,
            time,
        ),
{
    let mut r = "{\"channel\":".to_owned();
    let c = quote(channel);
    push_text(&mut r, c.as_str());
    push_text(&mut r, ",\"data\":{\"coin\":");
    let q = quote(coin);
    push_text(&mut r, q.as_str());
    push_text(&mut r, ",\"levels\":[[");
    push_text(&mut r, bids);
    push_text(&mut r, "],[");
    push_text(&mut r, asks);
    push_text(&mut r, "]]");
    if let Some(m) = mantissa {
        push_text(&mut r, ",\"mantissa\":");
        push_text(&mut r, m.as_str());
    }
    if let Some(n) = n_levels {
        push_text(&mut r, ",\"nLevels\":");
        push_decimal(&mut r, n);
    }
    if let Some(f) = n_sig_figs {
        push_text(&mut r, ",\"nSigFigs\":");
        push_text(&mut r, f.as_str());
    }
    push_text(&mut r, ",\"time\":");
    push_decimal(&mut r, time);
    push_text(&mut r, "}}");
    assert(r@ =~= book_frame(
        channel@,
        coin@,
        crate::json::text_opt(*n_sig_figs),
        n_levels,
        crate::json::text_opt(*mantissa),
        bids@,
        asks@,
        time,
    ));
    r
}

proof fn lemma_book_frame(
    t: Seq<char>,
    m: ReducerModel,
    bid_keys: Seq<Seq<char>>,
    ask_keys: Seq<Seq<char>>,
    bid_ranks: Seq<u128>,
    ask_ranks: Seq<u128>,
    b: Seq<char>,
    a: Seq<char>,
)
    requires
        match m {
            ReducerModel::Levels { channel, coin, n_sig_figs, n_levels, mantissa, bids, asks, time } => {
                &&& is_side_text(b, bids, bid_keys, turned(bid_ranks), n_levels)
                &&& is_side_text(a, asks, ask_keys, ask_ranks, n_levels)
                &&& t == book_frame(channel, coin, n_sig_figs, n_levels, mantissa, b, a, time)
            },
            _ => false,
        },
    ensures
        is_book_frame(t, m, bid_keys, ask_keys, bid_ranks, ask_ranks),
{
}

impl Reducer {
    /// The state that a subscription on the channel starts with; `sub` is its JSON text.
    pub fn new(channel: &str, sub: &str) -> (r: Reducer)
        ensures
            r@ == started(channel@, sub@),
    {
        if str_eq(channel, "l2Book") || str_eq(channel, "triggerBook") {
            let coin = match string_at(sub, "/coin") {
                Some(c) => c,
                None => {
                    let none = String::new();
                    assert(none@ =~= Seq::<char>::empty());
                    none
                },
            };
            let r = Reducer::Levels {
                channel: channel.to_owned(),
                coin,
                n_sig_figs: given_at(sub, "/nSigFigs"),
                n_levels: u64_at(sub, "/nLevels"),
                mantissa: given_at(sub, "/mantissa"),
                bids: StrMap::new(),
                asks: StrMap::new(),
                time: 0,
            };
            r
        } else if str_eq(channel, "bbo") || str_eq(channel, "liquidationMap") || str_eq(
            channel,
            "l4LiquidationMap",
        ) {
            Reducer::LastFrame { frame: None }
        } else if str_eq(channel, "allPrices") {
            Reducer::PriceMap { prices: StrMap::new() }
        } else {
            Reducer::Passthrough
        }
    }

    /// Takes in a message of the subscription.
    pub fn apply(&mut self, frame: &str)
        ensures
            final(self)@ == applied(old(self)@, frame@),
    {
        match self {
            Reducer::Levels { bids, asks, time, .. } => {
                if let Some(t) = u64_at(frame, "/data/time") {
                    *time = t;
                }
                apply_levels(bids, frame, "/data/levels/0");
                apply_levels(asks, frame, "/data/levels/1");
            },
            Reducer::LastFrame { frame: slot } => {
                *slot = Some(frame.to_owned());
            },
            Reducer::PriceMap { prices } => {
                apply_prices(prices, frame);
            },
            Reducer::Passthrough => {},
        }
    }

    /// Drops what messages brought, before a new connection brings it anew.
    pub fn reset(&mut self)
        ensures
            final(self)@ == cleared(old(self)@),
    {
        match self {
            Reducer::Levels { bids, asks, time, .. } => {
                bids.clear();
                asks.clear();
                *time = 0;
            },
            Reducer::LastFrame { frame } => {
                *frame = None;
            },
            Reducer::PriceMap { prices } => {
                prices.clear();
            },
            Reducer::Passthrough => {},
        }
    }

    /// The prices of the bids, in the order in which they are walked.
    pub open spec fn bid_keys(&self) -> Seq<Seq<char>> {
        match *self {
            Reducer::Levels { bids, .. } => bids.keys(),
            _ => Seq::empty(),
        }
    }

    /// The prices of the asks, in the order in which they are walked.
    pub open spec fn ask_keys(&self) -> Seq<Seq<char>> {
        match *self {
            Reducer::Levels { asks, .. } => asks.keys(),
            _ => Seq::empty(),
        }
    }

    /// The prices of the bids and of the asks, so that they can be ranked.
    pub fn prices(&self) -> (r: (Vec<String>, Vec<String>))
        ensures
            crate::json::texts(r.0@) == self.bid_keys(),
            crate::json::texts(r.1@) == self.ask_keys(),
    {
        match self {
            Reducer::Levels { bids, asks, .. } => (keys_of(bids), keys_of(asks)),
            _ => {
                let r = (Vec::new(), Vec::new());
                assert(crate::json::texts(r.0@) =~= Seq::<Seq<char>>::empty());
                assert(crate::json::texts(r.1@) =~= Seq::<Seq<char>>::empty());
                r
            },
        }
    }

    /// The message that gives the whole state to a client that joins; none where there is nothing to
    /// give. The ranks say how the prices of `prices` compare as numbers; bids are given from the
    /// highest down, asks from the lowest up.
    pub fn snapshot_frame(&self, bid_ranks: &Vec<u128>, ask_ranks: &Vec<u128>) -> (r: Option<String>)
        requires
            bid_ranks@.len() == self.bid_keys().len(),
            ask_ranks@.len() == self.ask_keys().len(),
        ensures
            match self@ {
                ReducerModel::Levels { bids, asks, .. } => if bids == Map::<Seq<char>, Seq<char>>::empty() && asks == Map::<
                    Seq<char>,
                    Seq<char>,
                >::empty() {
                    r is None
                } else {
                    r is Some && is_book_frame(
                        r->Some_0@,
                        self@,
                        self.bid_keys(),
                        self.ask_keys(),
                        bid_ranks@,
                        ask_ranks@,
                    )
                },
                ReducerModel::LastFrame { frame } => crate::json::text_opt(r) == frame,
                ReducerModel::PriceMap { prices } => if prices == Map::<Seq<char>, Seq<char>>::empty() {
                    r is None
                } else {
                    r is Some && is_price_frame(r->Some_0@, prices)
                },
                ReducerModel::Passthrough => r is None,
            },
    {
        match self {
            Reducer::Levels { channel, coin, n_sig_figs, n_levels, mantissa, bids, asks, time } => {
                if bids.is_empty() && asks.is_empty() {
                    return None;
                }
                let flipped = turn(bid_ranks);
                let b = side_text(bids, &flipped, *n_levels);
                let a = side_text(asks, ask_ranks, *n_levels);
                let r = write_book(
                    channel.as_str(),
                    coin.as_str(),
                    n_sig_figs,
                    *n_levels,
                    mantissa,
                    b.as_str(),
                    a.as_str(),
                    *time,
                );
                proof {
                    lemma_book_frame(r@, self@, self.bid_keys(), self.ask_keys(), bid_ranks@, ask_ranks@, b@, a@);
                }
                Some(r)
            },
            Reducer::LastFrame { frame } => match frame {
                Some(f) => Some(f.clone()),
                None => None,
            },
            Reducer::PriceMap { prices } => {
                if prices.is_empty() {
                    return None;
                }
                Some(price_frame(prices))
            },
            Reducer::Passthrough => None,
        }
    }
}

fn keys_of(m: &StrMap<String>) -> (r: Vec<String>)
    ensures
        crate::json::texts(r@) == m.keys(),
{
    let n: usize = m.len();
    let mut r: Vec<String> = Vec::new();
    let mut i: usize = 0;
    while i < n
        invariant
            i <= n,
            n == m.keys().len(),
            r@.len() == i,
            forall|j: int| 0 <= j < i ==> (#[trigger] r@[j])@ == m.keys()[j],
        decreases n - i,
    {
        r.push(m.key_at(i).clone());
        i = i + 1;
    }
    assert(crate::json::texts(r@) =~= m.keys());
    r
}

// ── Laws ─────────────────────────────────────────────────────────────────

/// What a reset leaves is what the subscription started with.
pub proof fn law_reset_starts_anew(channel: Seq<char>, sub: Seq<char>, frame: Seq<char>)
    ensures
        cleared(started(channel, sub)) == started(channel, sub),
        cleared(applied(started(channel, sub), frame)) == started(channel, sub),
{
}

/// A message says the same however often it is taken in, on the channels where the last message is
/// kept.
pub proof fn law_last_frame_counts(m: ReducerModel, first: Seq<char>, second: Seq<char>)
    requires
        m is LastFrame,
    ensures
        applied(applied(m, first), second) == applied(m, second),
        applied(m, second) == (ReducerModel::LastFrame { frame: Some(second) }),
{
}

} // verus!

//! What the relay keeps and does, whatever it is sent.
use crate::json::{array_len_found, items_found, members_found, string_found, u64_found, value_found};
use crate::levels::merged;
use crate::relay::client::{all_left, client_step, emptied, first_address, request_in, Action, RequestModel};
use crate::relay::limits::{admitted, released, LimitsModel};
use crate::relay::reducer::{applied, cleared, side_changes, started, ReducerModel};
use crate::relay::upstream::{data_channel, idled, joined, left, GroupsModel};
use vstd::prelude::*;

verus! {

// ── What a subscription keeps ────────────────────────────────────────────

/// What is kept of a subscription depends on its channel: the levels of books, the last message of best
/// prices and liquidations, all prices by coin, and nothing of any other.
pub proof fn law_channels_and_what_they_keep(channel: Seq<char>, sub: Seq<char>)
    ensures
        ({
            let m = started(channel, sub);
            &&& m is Levels <==> channel == "l2Book"@ || channel == "triggerBook"@
            &&& m is LastFrame <==> channel == "bbo"@ || channel == "liquidationMap"@ || channel
                == "l4LiquidationMap"@
            &&& m is PriceMap <==> channel == "allPrices"@
            &&& m matches ReducerModel::Levels {
                channel: c,
                coin,
                n_sig_figs,
                n_levels,
                mantissa,
                bids,
                asks,
                time,
            } ==> {
                &&& c == channel
                &&& string_found(sub, "/coin"@) is Some ==> string_found(sub, "/coin"@) == Some(coin)
                &&& string_found(sub, "/coin"@) is None ==> coin.len() == 0
                &&& n_levels == u64_found(sub, "/nLevels"@)
                &&& n_sig_figs is Some ==> n_sig_figs == value_found(sub, "/nSigFigs"@) && n_sig_figs
                    != Some("null"@)
                &&& n_sig_figs is None ==> value_found(sub, "/nSigFigs"@) is None || value_found(
                    sub,
                    "/nSigFigs"@,
                ) == Some("null"@)
                &&& mantissa is Some ==> mantissa == value_found(sub, "/mantissa"@) && mantissa != Some(
                    "null"@,
                )
                &&& mantissa is None ==> value_found(sub, "/mantissa"@) is None || value_found(
                    sub,
                    "/mantissa"@,
                ) == Some("null"@)
                &&& bids == Map::<Seq<char>, Seq<char>>::empty()
                &&& asks == Map::<Seq<char>, Seq<char>>::empty()
                &&& time == 0
            }
            &&& m matches ReducerModel::LastFrame { frame } ==> frame is None
            &&& m matches ReducerModel::PriceMap { prices } ==> prices == Map::<
                Seq<char>,
                Seq<char>,
            >::empty()
        }),
{
    reveal_strlit("l2Book");
    reveal_strlit("triggerBook");
    reveal_strlit("bbo");
    reveal_strlit("liquidationMap");
    reveal_strlit("l4LiquidationMap");
    reveal_strlit("allPrices");
    assert("l2Book"@.len() == 6 && "triggerBook"@.len() == 11 && "bbo"@.len() == 3);
    assert("liquidationMap"@.len() == 14 && "l4LiquidationMap"@.len() == 16 && "allPrices"@.len() == 9);
}

/// Whether a level of a message speaks of a price.
pub open spec fn speaks_of(item: Seq<char>, px: Seq<char>) -> bool {
    string_found(item, "/px"@) == Some(px)
}

/// Whether a level of a message says that there is nothing at its price.
pub open spec fn says_gone(item: Seq<char>) -> bool {
    string_found(item, "/sz"@) is None || string_found(item, "/sz"@) == Some("0"@)
}

/// What a side has at a price.
pub open spec fn level_at(m: Map<Seq<char>, Seq<char>>, px: Seq<char>) -> Option<Seq<char>> {
    if m.contains_key(px) {
        Some(m[px])
    } else {
        None
    }
}

proof fn lemma_side(m: Map<Seq<char>, Seq<char>>, items: Seq<Seq<char>>, n: int, px: Seq<char>)
    requires
        0 <= n <= items.len(),
    ensures
        ({
            let now = level_at(merged(m, side_changes(items, n)), px);
            &&& (forall|i: int| 0 <= i < n ==> !speaks_of(#[trigger] items[i], px)) ==> now == level_at(
                m,
                px,
            )
            &&& forall|k: int|
                #![trigger items[k]]
                0 <= k < n && speaks_of(items[k], px) && (forall|i: int|
                    k < i < n ==> !speaks_of(#[trigger] items[i], px)) ==> now == (if says_gone(
                    items[k],
                ) {
                    None
                } else {
                    Some(items[k])
                })
        }),
    decreases n,
{
    if n > 0 {
        lemma_side(m, items, n - 1, px);
        let item = items[n - 1];
        let before = side_changes(items, n - 1);
        let cs = side_changes(items, n);
        if string_found(item, "/px"@) is Some {
            assert(cs.drop_last() =~= before);
        }
        if speaks_of(item, px) {
            assert forall|k: int|
                #![trigger items[k]]
                0 <= k < n && speaks_of(items[k], px) && (forall|i: int|
                    k < i < n ==> !speaks_of(#[trigger] items[i], px)) implies k == n - 1 by {
                if k < n - 1 {
                    assert(!speaks_of(items[n - 1], px));
                }
            }
        } else {
            assert(level_at(merged(m, cs), px) == level_at(merged(m, before), px));
            assert forall|k: int|
                #![trigger items[k]]
                0 <= k < n && speaks_of(items[k], px) && (forall|i: int|
                    k < i < n ==> !speaks_of(#[trigger] items[i], px)) implies k < n - 1 by {}
        }
    }
}

/// One side of a book: the bids, or the asks.
pub open spec fn side_of(m: ReducerModel, asks: bool) -> Map<Seq<char>, Seq<char>> {
    if asks {
        m->asks
    } else {
        m->bids
    }
}

/// The levels that a message has for a side, where it has any: the bids first, then the asks.
pub open spec fn list_in(frame: Seq<char>, asks: bool) -> Option<Seq<Seq<char>>> {
    if array_len_found(frame, "/data/levels"@) is None {
        None
    } else if asks {
        items_found(frame, "/data/levels/1"@)
    } else {
        items_found(frame, "/data/levels/0"@)
    }
}

/// A message to a book changes the bids by its first list of levels and the asks by its second: at each
/// price the last level that speaks of it counts, one without a size or of size "0" takes the price
/// away, and prices of which none speaks stay as they are. A message without levels changes neither.
pub proof fn law_messages_change_the_levels_they_name(
    m: ReducerModel,
    frame: Seq<char>,
    asks: bool,
    px: Seq<char>,
    k: int,
)
    requires
        m is Levels,
    ensures
        list_in(frame, asks) is None ==> side_of(applied(m, frame), asks) == side_of(m, asks),
        list_in(frame, asks) is Some && (forall|i: int|
            0 <= i < list_in(frame, asks)->0.len() ==> !speaks_of(
                #[trigger] list_in(frame, asks)->0[i],
                px,
            )) ==> level_at(side_of(applied(m, frame), asks), px) == level_at(side_of(m, asks), px),
        list_in(frame, asks) is Some && 0 <= k < list_in(frame, asks)->0.len() && speaks_of(
            list_in(frame, asks)->0[k],
            px,
        ) && (forall|i: int|
            k < i < list_in(frame, asks)->0.len() ==> !speaks_of(
                #[trigger] list_in(frame, asks)->0[i],
                px,
            )) ==> level_at(side_of(applied(m, frame), asks), px) == (if says_gone(
            list_in(frame, asks)->0[k],
        ) {
            None
        } else {
            Some(list_in(frame, asks)->0[k])
        }),
{
    if list_in(frame, asks) is Some {
        let items = list_in(frame, asks)->0;
        lemma_side(side_of(m, asks), items, items.len() as int, px);
        lemma_level(side_of(m, asks), items, px, k);
    }
}

/// The time of a book is the last one that was given; what the subscription asked for stays.
pub proof fn law_books_keep_what_was_asked_for(m: ReducerModel, frame: Seq<char>)
    requires
        m is Levels,
    ensures
        applied(m, frame) is Levels,
        u64_found(frame, "/data/time"@) is Some ==> u64_found(frame, "/data/time"@) == Some(
            applied(m, frame)->time,
        ),
        u64_found(frame, "/data/time"@) is None ==> applied(m, frame)->time == m->time,
        applied(m, frame)->channel == m->channel,
        applied(m, frame)->coin == m->coin,
        applied(m, frame)->n_levels == m->n_levels,
        applied(m, frame)->n_sig_figs == m->n_sig_figs,
        applied(m, frame)->mantissa == m->mantissa,
{
}

proof fn lemma_level(m: Map<Seq<char>, Seq<char>>, items: Seq<Seq<char>>, px: Seq<char>, k: int)
    ensures
        0 <= k < items.len() && speaks_of(items[k], px) && (forall|i: int|
            k < i < items.len() ==> !speaks_of(#[trigger] items[i], px)) ==> level_at(
            merged(m, side_changes(items, items.len() as int)),
            px,
        ) == (if says_gone(items[k]) {
            None
        } else {
            Some(items[k])
        }),
{
    lemma_side(m, items, items.len() as int, px);
}

proof fn lemma_prices(
    prices: Map<Seq<char>, Seq<char>>,
    ms: Seq<(Seq<char>, Seq<char>)>,
    n: int,
    coin: Seq<char>,
)
    requires
        0 <= n <= ms.len(),
    ensures
        ({
            let now = level_at(crate::relay::reducer::prices_merged(prices, ms, n), coin);
            &&& (forall|i: int|
                0 <= i < n ==> (#[trigger] ms[i]).0 != coin || string_found(ms[i].1, ""@) is None)
                ==> now == level_at(prices, coin)
            &&& forall|k: int|
                #![trigger ms[k]]
                0 <= k < n && ms[k].0 == coin && string_found(ms[k].1, ""@) is Some && (forall|i: int|
                    k < i < n ==> (#[trigger] ms[i]).0 != coin || string_found(ms[i].1, ""@) is None)
                    ==> now == string_found(ms[k].1, ""@)
        }),
    decreases n,
{
    if n > 0 {
        lemma_prices(prices, ms, n - 1, coin);
        let e = ms[n - 1];
        if e.0 == coin && string_found(e.1, ""@) is Some {
            assert forall|k: int|
                #![trigger ms[k]]
                0 <= k < n && ms[k].0 == coin && string_found(ms[k].1, ""@) is Some && (forall|i: int|
                    k < i < n ==> (#[trigger] ms[i]).0 != coin || string_found(ms[i].1, ""@) is None) implies k
                == n - 1 by {
                if k < n - 1 {
                    assert(ms[n - 1].0 != coin || string_found(ms[n - 1].1, ""@) is None);
                }
            }
        }
    }
}

/// A message of prices sets the price of every coin that it names with a text, the last one where it
/// names a coin twice, and leaves the prices of the others.
pub proof fn law_prices_are_kept_by_coin(
    prices: Map<Seq<char>, Seq<char>>,
    frame: Seq<char>,
    coin: Seq<char>,
    k: int,
)
    ensures
        ({
            let after = applied(ReducerModel::PriceMap { prices }, frame);
            let ms = members_found(frame, "/data"@)->0;
            &&& after is PriceMap
            &&& members_found(frame, "/data"@) is None ==> after->prices == prices
            &&& members_found(frame, "/data"@) is Some && (forall|i: int|
                0 <= i < ms.len() ==> (#[trigger] ms[i]).0 != coin || string_found(ms[i].1, ""@)
                    is None) ==> level_at(after->prices, coin) == level_at(prices, coin)
            &&& members_found(frame, "/data"@) is Some && 0 <= k < ms.len() && ms[k].0 == coin
                && string_found(ms[k].1, ""@) is Some && (forall|i: int|
                k < i < ms.len() ==> (#[trigger] ms[i]).0 != coin || string_found(ms[i].1, ""@)
                    is None) ==> level_at(after->prices, coin) == string_found(ms[k].1, ""@)
        }),
{
    if members_found(frame, "/data"@) is Some {
        let ms = members_found(frame, "/data"@)->0;
        lemma_prices(prices, ms, ms.len() as int, coin);
        if 0 <= k < ms.len() {
            let x = ms[k];
        }
    }
}

/// The channels of which nothing is kept stay so.
pub proof fn law_nothing_is_kept_of_others(frame: Seq<char>)
    ensures
        applied(ReducerModel::Passthrough, frame) is Passthrough,
        cleared(ReducerModel::Passthrough) is Passthrough,
{
}

// ── Groups ───────────────────────────────────────────────────────────────

/// How many clients a group has.
pub open spec fn size_of(m: GroupsModel, id: u64) -> int {
    if m.members.contains_key(id) {
        m.members[id] as int
    } else {
        0
    }
}

/// A client that joins a group is one more in it, and one that leaves is one less; other groups keep
/// theirs. Whoever leaves last is told so.
pub proof fn law_groups_count_their_clients(m: GroupsModel, key: Seq<char>, id: u64, other: u64)
    ensures
        ({
            let (after, group, fresh) = joined(m, key);
            &&& fresh <==> !m.groups.contains_key(key)
            &&& after.groups.contains_key(key) && after.groups[key] == group
            &&& fresh ==> group == m.next && size_of(after, group) == 1
            &&& fresh && m.next < u64::MAX ==> after.next == m.next + 1
            &&& !fresh ==> group == m.groups[key] && after.groups == m.groups && after.next == m.next
            &&& !fresh && size_of(m, group) < usize::MAX ==> size_of(after, group) == size_of(m, group)
                + 1
            &&& other != group ==> size_of(after, other) == size_of(m, other)
            &&& forall|k: Seq<char>|
                #![trigger after.groups.contains_key(k)]
                k != key ==> (after.groups.contains_key(k) == m.groups.contains_key(k)) && (
                m.groups.contains_key(k) ==> after.groups[k] == m.groups[k])
        }),
        ({
            let (after, last) = left(m, id);
            &&& last <==> size_of(m, id) == 1
            &&& size_of(m, id) > 0 ==> size_of(after, id) == size_of(m, id) - 1
            &&& other != id ==> size_of(after, other) == size_of(m, other)
            &&& after.groups == m.groups
            &&& after.next == m.next
        }),
{
}

/// A group that was left by all is given up when it is looked at again, with its subscription, unless a
/// client came meanwhile; no other group is touched.
pub proof fn law_empty_groups_are_given_up(m: GroupsModel, id: u64, key: Seq<char>, other: Seq<char>)
    ensures
        ({
            let (after, closed) = idled(m, id, key);
            &&& closed <==> size_of(m, id) == 0
            &&& closed ==> !after.groups.contains_key(key) && !after.members.contains_key(id)
            &&& !closed ==> after == m
            &&& other != key ==> (after.groups.contains_key(other) == m.groups.contains_key(other)) && (
            m.groups.contains_key(other) ==> after.groups[other] == m.groups[other])
        }),
{
}

/// Messages about the connection are not for the clients: the answers to subscriptions, pongs, errors
/// and messages without a channel. All others are, under their channel.
pub proof fn law_only_data_reaches_the_clients(frame: Seq<char>)
    ensures
        ({
            let c = string_found(frame, "/channel"@);
            &&& data_channel(frame) is Some ==> data_channel(frame) == c
            &&& data_channel(frame) is None <==> c is None || c->0.len() == 0 || c->0
                == "subscriptionResponse"@ || c->0 == "pong"@ || c->0 == "error"@
        }),
{
}

// ── Clients ──────────────────────────────────────────────────────────────

/// What a client asks for is what its message says: a ping; a subscription by its text and its type,
/// which must be there; the end of one by its text. What is no JSON is told apart from what is not
/// understood.
pub proof fn law_requests_are_read(doc: Seq<char>)
    ensures
        ({
            let r = request_in(doc);
            let method = string_found(doc, "/method"@);
            let key = value_found(doc, "/subscription"@);
            let is_object = members_found(doc, "/subscription"@) is Some;
            let channel = string_found(doc, "/subscription/type"@);
            &&& r is NotJson <==> value_found(doc, ""@) is None
            &&& r is Ping <==> value_found(doc, ""@) is Some && method == Some("ping"@)
            &&& r is Subscribe <==> value_found(doc, ""@) is Some && method == Some("subscribe"@)
                && is_object && key is Some && channel is Some
            &&& r is Unsubscribe <==> value_found(doc, ""@) is Some && method == Some("unsubscribe"@)
                && is_object && key is Some
            &&& r matches RequestModel::Subscribe { key: k, channel: c } ==> Some(k) == key && Some(c)
                == channel
            &&& r matches RequestModel::Unsubscribe { key: k } ==> Some(k) == key
        }),
{
    reveal_strlit("ping");
    reveal_strlit("subscribe");
    reveal_strlit("unsubscribe");
    assert("ping"@.len() == 4 && "subscribe"@.len() == 9 && "unsubscribe"@.len() == 11);
}

/// What a request does to a client: a new subscription joins its group and is noted, one that is there
/// is left alone; the end of a subscription leaves the group that was noted. Whatever else a client
/// says leaves its subscriptions and the groups alone, and is answered only where it is a ping or no
/// JSON.
pub proof fn law_requests_change_one_subscription(
    keys: Map<Seq<char>, u64>,
    groups: GroupsModel,
    key: Seq<char>,
    channel: Seq<char>,
    other: Seq<char>,
)
    ensures
        ({
            let (k, g, action) = client_step(keys, groups, RequestModel::Subscribe { key, channel });
            &&& keys.contains_key(key) ==> k == keys && g == groups && action is Nothing
            &&& !keys.contains_key(key) ==> {
                &&& k.contains_key(key)
                &&& action == (Action::Join { group: k[key], fresh: !groups.groups.contains_key(key) })
                &&& g.groups.contains_key(key) && g.groups[key] == k[key]
                &&& size_of(groups, k[key]) < usize::MAX && groups.groups.contains_key(key) ==> size_of(
                    g,
                    k[key],
                ) == size_of(groups, k[key]) + 1
            }
            &&& other != key ==> k.contains_key(other) == keys.contains_key(other) && (
            keys.contains_key(other) ==> k[other] == keys[other])
        }),
        ({
            let (k, g, action) = client_step(keys, groups, RequestModel::Unsubscribe { key });
            &&& !keys.contains_key(key) ==> k == keys && g == groups && action is Nothing
            &&& keys.contains_key(key) ==> {
                &&& !k.contains_key(key)
                &&& action == (Action::Leave {
                    group: keys[key],
                    last: size_of(groups, keys[key]) == 1,
                })
                &&& size_of(groups, keys[key]) > 0 ==> size_of(g, keys[key]) == size_of(
                    groups,
                    keys[key],
                ) - 1
            }
            &&& other != key ==> k.contains_key(other) == keys.contains_key(other) && (
            keys.contains_key(other) ==> k[other] == keys[other])
        }),
        client_step(keys, groups, RequestModel::Ping) == (keys, groups, Action::SayPong),
        client_step(keys, groups, RequestModel::NotJson) == (keys, groups, Action::SayInvalid),
        client_step(keys, groups, RequestModel::Other) == (keys, groups, Action::Nothing),
{
}

/// Whether no two subscriptions of a client are of one group.
pub open spec fn groups_differ(ks: Seq<Seq<char>>, keys: Map<Seq<char>, u64>) -> bool {
    forall|i: int, j: int|
        0 <= i < j < ks.len() ==> keys[#[trigger] ks[i]] != keys[#[trigger] ks[j]]
}

proof fn lemma_all_left(ks: Seq<Seq<char>>, keys: Map<Seq<char>, u64>, groups: GroupsModel, n: int, id: u64)
    requires
        0 <= n <= ks.len(),
        groups_differ(ks, keys),
    ensures
        ({
            let after = all_left(ks, keys, groups, n);
            let mine = exists|i: int| 0 <= i < n && keys[#[trigger] ks[i]] == id;
            &&& after.groups == groups.groups
            &&& mine && size_of(groups, id) > 0 ==> size_of(after, id) == size_of(groups, id) - 1
            &&& !mine ==> size_of(after, id) == size_of(groups, id)
        }),
    decreases n,
{
    if n > 0 {
        lemma_all_left(ks, keys, groups, n - 1, id);
        let g = keys[ks[n - 1]];
        let before = exists|i: int| 0 <= i < n - 1 && keys[#[trigger] ks[i]] == id;
        if g == id {
            assert(!before) by {
                if before {
                    let i = choose|i: int| 0 <= i < n - 1 && keys[#[trigger] ks[i]] == id;
                    assert(keys[ks[i]] != keys[ks[n - 1]]);
                }
            }
            assert(keys[ks[n - 1]] == id);
        } else if before {
            let i = choose|i: int| 0 <= i < n - 1 && keys[#[trigger] ks[i]] == id;
            assert(keys[ks[i]] == id);
        }
    }
}

/// A client whose connection has ended is one less in the group of each of its subscriptions, and in
/// no other; those of them in which it was the last are given back.
pub proof fn law_a_client_leaves_all_its_groups(
    ks: Seq<Seq<char>>,
    keys: Map<Seq<char>, u64>,
    groups: GroupsModel,
    id: u64,
    k: int,
)
    requires
        groups_differ(ks, keys),
        0 <= k < ks.len(),
    ensures
        ({
            let after = all_left(ks, keys, groups, ks.len() as int);
            let mine = exists|i: int| 0 <= i < ks.len() && keys[#[trigger] ks[i]] == id;
            &&& mine && size_of(groups, id) > 0 ==> size_of(after, id) == size_of(groups, id) - 1
            &&& !mine ==> size_of(after, id) == size_of(groups, id)
        }),
        emptied(ks, keys, groups, ks.len() as int).contains((ks[k], keys[ks[k]])) <== size_of(
            groups,
            keys[ks[k]],
        ) == 1,
{
    lemma_all_left(ks, keys, groups, ks.len() as int, id);
    if size_of(groups, keys[ks[k]]) == 1 {
        lemma_emptied(ks, keys, groups, ks.len() as int, k);
    }
}

proof fn lemma_emptied(ks: Seq<Seq<char>>, keys: Map<Seq<char>, u64>, groups: GroupsModel, n: int, k: int)
    requires
        groups_differ(ks, keys),
        0 <= k < n <= ks.len(),
        size_of(groups, keys[ks[k]]) == 1,
    ensures
        emptied(ks, keys, groups, n).contains((ks[k], keys[ks[k]])),
    decreases n,
{
    let e = (ks[k], keys[ks[k]]);
    let now = emptied(ks, keys, groups, n);
    if k == n - 1 {
        lemma_all_left(ks, keys, groups, n - 1, keys[ks[k]]);
        if exists|i: int| 0 <= i < n - 1 && keys[#[trigger] ks[i]] == keys[ks[k]] {
            let i = choose|i: int| 0 <= i < n - 1 && keys[#[trigger] ks[i]] == keys[ks[k]];
            assert(keys[ks[i]] != keys[ks[k]]);
        }
        assert(now.last() == e);
    } else {
        lemma_emptied(ks, keys, groups, n - 1, k);
        let before = emptied(ks, keys, groups, n - 1);
        let i = choose|i: int| 0 <= i < before.len() && before[i] == e;
        assert(now[i] == e);
    }
}

/// The address of a client is the first of the list in the header, without what stands behind the first
/// comma; there is none where nothing is left of it.
pub proof fn law_the_first_address_counts(first: Seq<char>, more: Seq<char>)
    requires
        !first.contains(','),
    ensures
        first_address(first.push(',') + more) == first_address(first),
        first_address(first) is Some ==> first_address(first) == Some(crate::text::trimmed(first)),
        first_address(first) is None <==> crate::text::trimmed(first).len() == 0,
{
    let s = first.push(',') + more;
    assert(s[first.len() as int] == ',');
    assert(s.contains(','));
    s.index_of_first_ensures(',');
    let i = s.index_of_first(',')->0;
    if i < first.len() {
        assert(first[i] == ',');
    }
    assert(crate::text::before_first(s, ',') =~= first);
}

// ── Limits ───────────────────────────────────────────────────────────────

/// How many connections an address has.
pub open spec fn held_by(m: LimitsModel, ip: Seq<char>) -> int {
    if m.per_ip.contains_key(ip) {
        m.per_ip[ip] as int
    } else {
        0
    }
}

/// A connection is taken exactly while there are fewer than the most, and the address has fewer than
/// its most; it then counts once in both, and not at all where it is not taken. Ending one gives it
/// back.
pub proof fn law_connections_are_counted(m: LimitsModel, ip: Seq<char>)
    ensures
        ({
            let (after, taken) = admitted(m, ip);
            &&& taken <==> m.active < m.max_conns && held_by(m, ip) < m.max_per_ip
            &&& taken ==> after.active == m.active + 1 && held_by(after, ip) == held_by(m, ip) + 1
            &&& !taken ==> after.active == m.active && held_by(after, ip) == held_by(m, ip)
            &&& (after.max_conns, after.max_per_ip) == (m.max_conns, m.max_per_ip)
        }),
        ({
            let after = released(m, ip);
            &&& m.active > 0 ==> after.active == m.active - 1
            &&& held_by(m, ip) > 0 ==> held_by(after, ip) == held_by(m, ip) - 1
            &&& held_by(m, ip) == 1 ==> !after.per_ip.contains_key(ip)
            &&& (after.max_conns, after.max_per_ip) == (m.max_conns, m.max_per_ip)
        }),
{
}

} // verus!

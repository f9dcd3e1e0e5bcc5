//! What holds of the orders that wait, and of what is sent, whatever comes in.
use crate::listeners::order_book::state::{
    BookModel,
    Diff,
    DiffAction,
    OrderStatus,
    StatusAction,
};
use crate::listeners::order_book::{Broadcast, ListenerModel};
use vstd::prelude::*;

verus! {

// ── Words ────────────────────────────────────────────────────────────────

/// Nothing is known of an order: neither of its halves waits, and it was not removed.
pub open spec fn is_unknown(m: BookModel, oid: u64) -> bool {
    !m.statuses.contains_key(oid) && !m.news.contains_key(oid) && !m.removals.contains(oid)
}

/// The same is known of an order in both states.
pub open spec fn same_of(a: BookModel, b: BookModel, oid: u64) -> bool {
    &&& a.statuses.contains_key(oid) == b.statuses.contains_key(oid)
    &&& a.statuses.contains_key(oid) ==> a.statuses[oid] == b.statuses[oid]
    &&& a.news.contains_key(oid) == b.news.contains_key(oid)
    &&& a.news.contains_key(oid) ==> a.news[oid] == b.news[oid]
    &&& a.removals.contains(oid) == b.removals.contains(oid)
}

/// The blocks have come as far in both states.
pub open spec fn same_blocks(a: BookModel, b: BookModel) -> bool {
    &&& a.height == b.height
    &&& a.time == b.time
    &&& a.block_size_bytes == b.block_size_bytes
    &&& a.ignore_spot == b.ignore_spot
}

/// A part of the text is the word "market", in lower case or with a capital.
pub open spec fn speaks_of_market(s: Seq<char>) -> bool {
    exists|i: int|
        0 <= i <= s.len() - 6 && (#[trigger] s.subrange(i, i + 6) == "market"@ || s.subrange(i, i + 6)
            == "Market"@)
}

proof fn lemma_speaks_of_market(s: OrderStatus)
    ensures
        crate::listeners::order_book::state::market_type(s) == speaks_of_market(s.order_type@),
{
    reveal_strlit("market");
    reveal_strlit("Market");
    let t = s.order_type@;
    if crate::listeners::order_book::state::market_type(s) {
        let i = choose|i: int|
            crate::text::occurs_at(t, "market"@, i) || crate::text::occurs_at(t, "Market"@, i);
        assert(t.subrange(i, i + 6) == "market"@ || t.subrange(i, i + 6) == "Market"@);
    }
    if speaks_of_market(t) {
        let i = choose|i: int|
            0 <= i <= t.len() - 6 && (#[trigger] t.subrange(i, i + 6) == "market"@ || t.subrange(
                i,
                i + 6,
            ) == "Market"@);
        assert(crate::text::occurs_at(t, "market"@, i) || crate::text::occurs_at(t, "Market"@, i));
    }
}

// ── The halves of an order ───────────────────────────────────────────────

/// An order whose status comes second is added at once with the size that waited. It stays a trigger
/// order only where it is one and its status is "open"; any other order is an ordinary one as of the
/// time of its status, and so is a trigger order in another status. Its size waits no longer.
pub proof fn law_status_meets_its_size(m: BookModel, s: OrderStatus)
    requires
        m.news.contains_key(s.oid),
        !m.removals.contains(s.oid),
    ensures
        ({
            let (after, step) = crate::listeners::order_book::state::status_step(m, s);
            &&& step.action matches StatusAction::Add { status, sz, convert_at }
            &&& status == s
            &&& sz == m.news[s.oid]
            &&& convert_at is None <==> s.is_trigger && s.status@ == "open"@
            &&& convert_at is Some ==> convert_at == Some(s.time)
            &&& !after.news.contains_key(s.oid)
            &&& after.statuses == m.statuses
            &&& after.removals == m.removals
        }),
{
}

/// An order whose size comes second is added at once with the status that waited. It stays a trigger
/// order only where it is one and its status is "open"; any other order is an ordinary one as of the
/// time of its status, and so is a trigger order in another status. Its status waits no longer.
pub proof fn law_size_meets_its_status(m: BookModel, oid: u64, sz: u64)
    requires
        m.statuses.contains_key(oid),
        !m.removals.contains(oid),
    ensures
        ({
            let s = m.statuses[oid];
            let (after, action) = crate::listeners::order_book::state::diff_step(
                m,
                oid,
                Diff::New { sz },
            );
            &&& action matches DiffAction::Add { status, sz: size, convert_at }
            &&& status == s
            &&& size == sz
            &&& convert_at is None <==> s.is_trigger && s.status@ == "open"@
            &&& convert_at is Some ==> convert_at == Some(s.time)
            &&& !after.statuses.contains_key(oid)
            &&& after.news == m.news
            &&& after.removals == m.removals
        }),
{
}

/// An order of which nothing was known is added once, when the second of its halves comes, with the
/// status and the size that came, in whichever order they came; afterwards nothing of it waits.
pub proof fn law_order_is_added_once(m: BookModel, s: OrderStatus, sz: u64)
    requires
        is_unknown(m, s.oid),
        s.inserted_into_book,
        !(s.is_trigger && s.status@ == "open"@ && speaks_of_market(s.order_type@)),
    ensures
        ({
            let (a, first) = crate::listeners::order_book::state::status_step(m, s);
            let (b, second) = crate::listeners::order_book::state::diff_step(
                a,
                s.oid,
                Diff::New { sz },
            );
            &&& first.action is Ignore
            &&& second matches DiffAction::Add { status, sz: size, convert_at }
            &&& status == s
            &&& size == sz
            &&& convert_at == (if s.is_trigger && s.status@ == "open"@ {
                None
            } else {
                Some(s.time)
            })
            &&& is_unknown(b, s.oid)
        }),
        ({
            let (a, first) = crate::listeners::order_book::state::diff_step(
                m,
                s.oid,
                Diff::New { sz },
            );
            let (b, second) = crate::listeners::order_book::state::status_step(a, s);
            &&& first is Ignore
            &&& second.action matches StatusAction::Add { status, sz: size, convert_at }
            &&& status == s
            &&& size == sz
            &&& convert_at == (if s.is_trigger && s.status@ == "open"@ {
                None
            } else {
                Some(s.time)
            })
            &&& is_unknown(b, s.oid)
        }),
{
    lemma_speaks_of_market(s);
}

/// A status cancels the order in the book exactly where it is that of a trigger order that is no longer
/// "open", unless the order was removed.
pub proof fn law_fired_triggers_are_cancelled(m: BookModel, s: OrderStatus)
    ensures
        crate::listeners::order_book::state::status_step(m, s).1.cancel <==> s.is_trigger && s.status@
            != "open"@ && !m.removals.contains(s.oid),
{
}

/// A status without a size that waits: an "open" trigger order at the market price rests at once and
/// waits for nothing. Of the others those that rest in a book wait for their size; those that do not
/// are passed over.
pub proof fn law_status_without_a_size(m: BookModel, s: OrderStatus)
    requires
        !m.news.contains_key(s.oid),
        !m.removals.contains(s.oid),
    ensures
        ({
            let (after, step) = crate::listeners::order_book::state::status_step(m, s);
            let at_market = s.is_trigger && s.status@ == "open"@ && speaks_of_market(s.order_type@);
            &&& at_market ==> after == m && (step.action matches StatusAction::Rest { status }
                && status == s)
            &&& !at_market ==> step.action is Ignore
            &&& !at_market && s.inserted_into_book ==> after.statuses.contains_key(s.oid)
                && after.statuses[s.oid] == s && after.status_order.last() == s.oid
            &&& !at_market && !s.inserted_into_book ==> after == m
            &&& after.news == m.news
            &&& after.new_order == m.new_order
        }),
{
    lemma_speaks_of_market(s);
}

/// A size without a status that waits does so itself, as the newest one, and in the place of an earlier
/// size of the same order.
pub proof fn law_size_without_a_status(m: BookModel, oid: u64, sz: u64)
    requires
        !m.statuses.contains_key(oid),
        !m.removals.contains(oid),
    ensures
        ({
            let (after, action) = crate::listeners::order_book::state::diff_step(
                m,
                oid,
                Diff::New { sz },
            );
            &&& action is Ignore
            &&& after.news.contains_key(oid)
            &&& after.news[oid] == sz
            &&& after.new_order.last() == oid
            &&& after.statuses == m.statuses
        }),
{
}

/// A new size goes to the book as it is and leaves what waits alone. A removal cancels the order in the
/// book, is remembered, and leaves nothing of the order waiting.
pub proof fn law_sizes_and_removals_reach_the_book(m: BookModel, oid: u64, sz: u64)
    ensures
        ({
            let (after, action) = crate::listeners::order_book::state::diff_step(
                m,
                oid,
                Diff::Update { new_sz: sz },
            );
            &&& after == m
            &&& action matches DiffAction::Resize { new_sz }
            &&& new_sz == sz
        }),
        ({
            let (after, action) = crate::listeners::order_book::state::diff_step(
                m,
                oid,
                Diff::Remove,
            );
            &&& action is Cancel
            &&& after.removals.contains(oid)
            &&& after.removal_order.last() == oid
            &&& !after.statuses.contains_key(oid)
            &&& !after.news.contains_key(oid)
        }),
{
}

/// An event of one order leaves what waits of the others, and how far the blocks have come.
pub proof fn law_events_reach_their_order_only(m: BookModel, s: OrderStatus, oid: u64, d: Diff, o: u64)
    ensures
        o != s.oid ==> same_of(
            m,
            crate::listeners::order_book::state::status_step(m, s).0,
            o,
        ),
        o != oid ==> same_of(m, crate::listeners::order_book::state::diff_step(m, oid, d).0, o),
        same_blocks(m, crate::listeners::order_book::state::status_step(m, s).0),
        same_blocks(m, crate::listeners::order_book::state::diff_step(m, oid, d).0),
{
}

/// The coin of a status is reported as changed where the order went to the book or left it. The coin of
/// a change is reported wherever the book has something to do: that of the order that was added, or
/// else that of the change.
pub proof fn law_changed_coins_are_reported(m: BookModel, s: OrderStatus, d: Diff, cancelled: bool)
    ensures
        ({
            let step = crate::listeners::order_book::state::status_step(m, s).1;
            crate::listeners::order_book::state::status_changes(step, cancelled) <==> (step.cancel
                && cancelled) || step.action is Add || step.action is Rest
        }),
        ({
            let action = crate::listeners::order_book::state::diff_step(m, s.oid, d).1;
            let told = crate::listeners::order_book::state::diff_changes(action, s.coin@);
            &&& told is Some <==> action is Add || action is Resize || action is Cancel
            &&& action matches DiffAction::Add { status, .. } ==> told == Some(status.coin@)
            &&& action is Resize || action is Cancel ==> told == Some(s.coin@)
        }),
{
}

// ── Blocks ───────────────────────────────────────────────────────────────

/// The bytes of the batches of one block add up, a later block starts to count anew, and an earlier
/// one changes nothing; the time is that of the last batch that counted. What waits stays as it is.
pub proof fn law_batches_of_a_block_add_up(
    m: BookModel,
    height: u64,
    first: u64,
    second: u64,
    time: u64,
    later: u64,
)
    requires
        height > m.height,
        first + second <= u64::MAX,
    ensures
        ({
            let a = crate::listeners::order_book::state::progressed(m, height, time, first);
            let b = crate::listeners::order_book::state::progressed(a, height, later, second);
            let c = crate::listeners::order_book::state::progressed(b, m.height, time, first);
            &&& a.height == height && a.time == time && a.block_size_bytes == first
            &&& b.height == height && b.time == later && b.block_size_bytes == first + second
            &&& c == b
            &&& b.statuses == m.statuses && b.status_order == m.status_order
            &&& b.news == m.news && b.new_order == m.new_order
            &&& b.removals == m.removals && b.removal_order == m.removal_order
            &&& b.ignore_spot == m.ignore_spot
        }),
{
}

/// Without a book every event goes on to be sent, and only the greatest height is noted. With one, the
/// first event fixes where it started, and events up to there are passed over ever after.
pub proof fn law_events_up_to_the_snapshot_are_passed_over(
    m: ListenerModel,
    height: u64,
    time: u64,
    size: u64,
    next: u64,
)
    ensures
        ({
            let (after, apply) = crate::listeners::order_book::begun(m, height, time, size);
            &&& after.latest_height >= height && after.latest_height >= m.latest_height
            &&& after.latest_height == height || after.latest_height == m.latest_height
            &&& m.book is None ==> apply && after.book is None && after.initial_height
                == m.initial_height
            &&& m.book is Some && m.initial_height is None ==> after.initial_height == Some(
                m.book->0.height,
            ) && apply == (height > m.book->0.height)
            &&& m.initial_height is Some ==> after.initial_height == m.initial_height
            &&& m.book is Some ==> crate::listeners::order_book::begun(after, next, time, size).1 == (
            next > after.initial_height->0)
            &&& after.events == m.events && after.collecting == m.collecting
            &&& after.last_l2 == m.last_l2 && after.last_trigger == m.last_trigger
        }),
{
}

// ── What is sent ─────────────────────────────────────────────────────────

/// Between two events for which snapshots were sent lie at least ten milliseconds, and between two for
/// which those of the trigger orders were made anew half a second; after so long the next event that
/// is the last of its batch, and that someone may want, is sent again.
pub proof fn law_snapshots_keep_their_distance(
    m: ListenerModel,
    n: ListenerModel,
    changed: bool,
    quiet: bool,
    has_l2: bool,
    now: u64,
    later: u64,
)
    requires
        m.book is Some,
        n.book is Some,
        n.last_l2 == crate::listeners::order_book::ended(m, changed, false, true, now).0.last_l2,
        n.last_trigger == crate::listeners::order_book::ended(
            m,
            changed,
            false,
            true,
            now,
        ).0.last_trigger,
        crate::listeners::order_book::ended(m, changed, false, true, now).1.l2,
    ensures
        ({
            let second = crate::listeners::order_book::ended(n, changed, quiet, has_l2, later).1;
            &&& second.l2 <==> !quiet && has_l2 && later - now >= 10_000_000
            &&& crate::listeners::order_book::ended(m, changed, false, true, now).1.triggers
                ==> (second.triggers <==> !quiet && later - now >= 500_000_000)
        }),
{
}

/// Nothing is sent while more events follow at once, nor without a book. The best prices are sent where
/// a coin changed, and the first snapshots at once.
pub proof fn law_what_is_sent(
    m: ListenerModel,
    changed: bool,
    quiet: bool,
    has_l2: bool,
    now: u64,
)
    ensures
        ({
            let (after, sent) = crate::listeners::order_book::ended(m, changed, quiet, has_l2, now);
            &&& quiet || m.book is None ==> sent == (Broadcast {
                bbo: false,
                l2: false,
                triggers: false,
            }) && after.last_l2 == m.last_l2 && after.last_trigger == m.last_trigger
            &&& !quiet && m.book is Some ==> sent.bbo == changed
            &&& !quiet && m.book is Some && m.last_l2 is None ==> sent.l2 == has_l2
            &&& !quiet && m.book is Some && m.last_l2 is None && m.last_trigger is None
                ==> sent.triggers
            &&& sent.l2 ==> after.last_l2 == Some(now)
            &&& !sent.l2 ==> after.last_l2 == m.last_l2
            &&& sent.triggers ==> after.last_trigger == Some(now)
            &&& !sent.triggers ==> after.last_trigger == m.last_trigger
            &&& m.events < u64::MAX ==> after.events == m.events + 1
            &&& after.book is Some <==> m.book is Some
            &&& after.latest_height == m.latest_height && after.initial_height == m.initial_height
        }),
{
}

/// What waits is cut down at the first event and then at every thousandth, and at no other.
pub proof fn law_cleaning_up_is_rare(
    m: ListenerModel,
    changed: bool,
    quiet: bool,
    has_l2: bool,
    now: u64,
)
    requires
        m.book is Some,
    ensures
        ({
            let after = crate::listeners::order_book::ended(m, changed, quiet, has_l2, now).0;
            &&& m.events % 1000 != 0 ==> after.book == m.book
            &&& m.events % 1000 == 0 && m.book->0.statuses.len() > 10_000 ==> after.book->0.status_order
                == m.book->0.status_order.skip((m.book->0.status_order.len() / 2) as int)
            &&& m.events % 1000 == 0 && m.book->0.news.len() > 1_000 ==> after.book->0.new_order
                == m.book->0.new_order.skip((m.book->0.new_order.len() / 2) as int)
            &&& m.events % 1000 == 0 && m.book->0.removals.len() > 100_000
                ==> after.book->0.removal_order == m.book->0.removal_order.skip(
                (m.book->0.removal_order.len() / 2) as int,
            )
            &&& m.book->0.statuses.len() <= 10_000 ==> after.book->0.status_order
                == m.book->0.status_order && after.book->0.statuses == m.book->0.statuses
            &&& m.book->0.news.len() <= 1_000 ==> after.book->0.new_order == m.book->0.new_order
                && after.book->0.news == m.book->0.news
            &&& m.book->0.removals.len() <= 100_000 ==> after.book->0.removal_order
                == m.book->0.removal_order && after.book->0.removals == m.book->0.removals
            &&& m.events < u64::MAX ==> after.events == m.events + 1
        }),
{
}

/// A book that leads the data is not behind; the lag is otherwise the distance.
pub proof fn law_lag_is_a_distance(height: i64, latest: i64)
    ensures
        crate::listeners::order_book::lag(height, latest) >= 0,
        crate::listeners::order_book::lag(height, latest) >= latest - height,
        crate::listeners::order_book::lag(height, latest) == 0 || height
            + crate::listeners::order_book::lag(height, latest) == latest,
{
}

} // verus!

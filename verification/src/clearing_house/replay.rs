//! Replaying recorded events on top of a snapshot: which events count, in which order they come, and
//! what each does.
use crate::clearing_house::fill::FillAmounts;
use crate::clearing_house::misc_events::{apply_misc_event_batch, MiscEventBatch};
use crate::clearing_house::replica::{apply_replica_block, ReplicaBlock};
use crate::clearing_house::{LiquidationState, StateModel};
use crate::json::{array_len_at, items_at, string_at};
use crate::order::stable_order;
use crate::text::{chars_of, find_text, parse_u64, push_text, text_of, to_lowercase};
use vstd::prelude::*;

verus! {

// ── Which events count ───────────────────────────────────────────────────

/// Whether a block is replayed. A snapshot at a block includes the state after that block, so the
/// range starts behind `from` and ends with `to`.
pub fn in_replay_range(block: u64, from: u64, to: u64) -> (r: bool)
    ensures
        r == (from < block <= to),
{
    block > from && block <= to
}

/// Whether a block is replayed where one kind of events is replayed alone: the range starts with `from`
/// and ends before `to`.
pub fn in_block_range(block: u64, from: u64, to: u64) -> (r: bool)
    ensures
        r == (from <= block < to),
{
    from <= block && block < to
}

/// Whether a file of replica blocks may hold a block of the range. A file named by a number holds
/// the blocks from that number on, about ten thousand of them; a file with another name may hold any.
pub fn replica_file_counts(file_block: Option<u64>, from: u64, to: u64) -> (r: bool)
    ensures
        r == match file_block {
            Some(b) => b <= to && b.wrapping_add(10_000) > from,
            None => true,
        },
{
    match file_block {
        Some(b) => !(b > to || b.wrapping_add(10_000) <= from),
        None => true,
    }
}

/// The block that a line of a file of replica blocks holds.
pub fn replica_line_block(file_block: Option<u64>, line: u64) -> (r: u64)
    ensures
        r == (match file_block {
            Some(b) => b,
            None => 0,
        }).wrapping_add(line),
{
    let base: u64 = match file_block {
        Some(b) => b,
        None => 0,
    };
    base.wrapping_add(line)
}

/// The run of digits at the start of a text.
pub open spec fn leading_digits(s: Seq<char>) -> Seq<char>
    decreases s.len(),
{
    if s.len() == 0 || !crate::text::is_digit(s[0]) {
        Seq::empty()
    } else {
        seq![s[0]] + leading_digits(s.skip(1))
    }
}

/// What stands before the block number in a line.
pub const BLOCK_NUMBER_KEY: &'static str = "\"block_number\":";

/// The block number in a line: the digits behind the first key of that name.
pub open spec fn block_number_in(line: Seq<char>) -> Option<u64> {
    match crate::text::first_at(line, BLOCK_NUMBER_KEY@) {
        Some(p) => match crate::text::decimal(
            leading_digits(line.skip(p + BLOCK_NUMBER_KEY@.len())),
            u64::MAX as nat,
        ) {
            Some(n) => Some(n as u64),
            None => None,
        },
        None => None,
    }
}

/// The block number in a line, found without parsing the rest.
pub fn extract_block_number(line: &str) -> (r: Option<u64>)
    ensures
        r == block_number_in(line@),
{
    let v = chars_of(line);
    let key = chars_of(BLOCK_NUMBER_KEY);
    let p: usize = match find_text(&v, &key) {
        Some(p) => p,
        None => {
            return None;
        },
    };
    let all: usize = v.len();
    assert(p + key@.len() <= all);
    let start: usize = p + key.len();
    let mut end: usize = start;
    let ghost rest = line@.skip(start as int);
    assert(rest.skip(0) =~= rest);
    assert(leading_digits(rest) =~= v@.subrange(start as int, start as int) + leading_digits(rest));
    while end < v.len() && '0' <= v[end] && v[end] <= '9'
        invariant
            start <= end <= v@.len(),
            v@ == line@,
            rest == line@.skip(start as int),
            leading_digits(rest) == v@.subrange(start as int, end as int) + leading_digits(
                rest.skip(end - start),
            ),
        decreases v@.len() - end,
    {
        proof {
            let tail = rest.skip(end - start);
            assert(tail[0] == v@[end as int]);
            assert(tail.skip(1) =~= rest.skip(end + 1 - start));
            assert(v@.subrange(start as int, end + 1) =~= v@.subrange(start as int, end as int).push(
                v@[end as int],
            ));
            assert(v@.subrange(start as int, end as int) + (seq![tail[0]] + leading_digits(
                tail.skip(1),
            )) =~= v@.subrange(start as int, end + 1) + leading_digits(tail.skip(1)));
        }
        end = end + 1;
    }
    let digits = text_of(&v, start, end);
    proof {
        let tail = rest.skip(end - start);
        if end < v@.len() {
            assert(tail[0] == v@[end as int]);
        }
        assert(leading_digits(tail) =~= Seq::<char>::empty());
        assert(digits@ =~= leading_digits(rest));
    }
    parse_u64(digits.as_str())
}

// ── In which order they come ─────────────────────────────────────────────

/// The kinds of events, in the order in which they come within a block: mark prices before
/// everything so that margin uses the right price, changes by replica commands and orders before
/// misc events, fills last.
#[derive(Debug, Clone, Copy, PartialEq, Eq, Structural)]
pub enum EventType {
    Hip3Oracle,
    Replica,
    OrderStatus,
    MiscEvent,
    Fill,
}

impl EventType {
    /// The place of the kind within a block.
    pub open spec fn place(self) -> int {
        match self {
            EventType::Hip3Oracle => 0,
            EventType::Replica => 1,
            EventType::OrderStatus => 2,
            EventType::MiscEvent => 3,
            EventType::Fill => 4,
        }
    }

    fn rank(&self) -> (r: u8)
        ensures
            r == self.place(),
    {
        match self {
            EventType::Hip3Oracle => 0,
            EventType::Replica => 1,
            EventType::OrderStatus => 2,
            EventType::MiscEvent => 3,
            EventType::Fill => 4,
        }
    }
}

/// Whether event `a` comes before event `b`: by block, then by kind, then as they were collected.
pub open spec fn earlier(events: Seq<(u64, EventType)>, a: int, b: int) -> bool {
    let (x, y) = (events[a], events[b]);
    x.0 < y.0 || x.0 == y.0 && (x.1.place() < y.1.place() || x.1.place() == y.1.place() && a < b)
}

/// Whether every event in the list comes before those behind it.
pub open spec fn ordered(events: Seq<(u64, EventType)>, r: Seq<usize>) -> bool {
    forall|i: int, j: int|
        0 <= i < j < r.len() ==> earlier(events, #[trigger] r[i] as int, #[trigger] r[j] as int)
}

/// The positions of the events in the order in which they are replayed. Every event comes once.
pub fn replay_order(events: &Vec<(u64, EventType)>) -> (r: Vec<usize>)
    ensures
        r@.len() == events@.len(),
        forall|x: usize| r@.contains(x) <==> x < events@.len(),
        ordered(events@, r@),
{
    let mut ranks: Vec<u128> = Vec::new();
    let mut i: usize = 0;
    while i < events.len()
        invariant
            i <= events@.len(),
            ranks@.len() == i,
            forall|j: int|
                0 <= j < i ==> #[trigger] ranks@[j] == events@[j].0 * 8 + events@[j].1.place(),
        decreases events@.len() - i,
    {
        ranks.push(events[i].0 as u128 * 8 + events[i].1.rank() as u128);
        i = i + 1;
    }
    let r = stable_order(&ranks);
    proof {
        assert forall|i: int, j: int| 0 <= i < j < r@.len() implies earlier(
            events@,
            #[trigger] r@[i] as int,
            #[trigger] r@[j] as int,
        ) by {
            let (a, b) = (r@[i], r@[j]);
            assert(r@.contains(a) && r@.contains(b));
            assert(crate::order::ranked_before(ranks@, a as int, b as int));
            assert(ranks@[a as int] == events@[a as int].0 * 8 + events@[a as int].1.place());
            assert(ranks@[b as int] == events@[b as int].0 * 8 + events@[b as int].1.place());
        }
    }
    r
}

/// The actions of a block are replayed before the fills of the same block and of later ones.
pub proof fn law_actions_come_before_fills(
    events: Seq<(u64, EventType)>,
    r: Seq<usize>,
    i: int,
    j: int,
)
    requires
        ordered(events, r),
        0 <= i < r.len(),
        0 <= j < r.len(),
        events[r[i] as int].1 is Replica,
        events[r[j] as int].1 is Fill,
        events[r[i] as int].0 <= events[r[j] as int].0,
    ensures
        i < j,
{
    if j < i {
        assert(earlier(events, r[j] as int, r[i] as int));
    }
}

// ── What each does ───────────────────────────────────────────────────────

/// An event that is replayed.
pub enum ReplayEvent {
    /// Coins with the bits of their mark prices; a price that is not above zero is absent.
    Marks(Vec<(String, Option<u64>)>),
    Replica(ReplicaBlock),
    Misc(MiscEventBatch),
    /// A fill, with what it amounts to.
    Fill { user: String, coin: String, amounts: Option<FillAmounts> },
}

/// How much was replayed.
#[derive(Debug, Clone, Copy, PartialEq, Eq, Structural)]
pub struct ReplayTotals {
    pub fills: u64,
    pub replica: u64,
    pub misc: u64,
    pub oracle: u64,
}

impl ReplayTotals {
    pub fn new() -> (r: ReplayTotals)
        ensures
            r == (ReplayTotals { fills: 0, replica: 0, misc: 0, oracle: 0 }),
    {
        ReplayTotals { fills: 0, replica: 0, misc: 0, oracle: 0 }
    }
}

/// The state with the first `n` of the mark prices, and how many of their coins are known.
pub open spec fn marks_applied(s: StateModel, marks: Seq<(String, Option<u64>)>, n: int) -> (
    StateModel,
    int,
)
    decreases n,
{
    if n <= 0 {
        (s, 0)
    } else {
        let (t, count) = marks_applied(s, marks, n - 1);
        let (coin, px) = marks[n - 1];
        match px {
            Some(bits) if t.coins.contains_key(coin@) => (
                crate::clearing_house::replica::with_mark(
                    t,
                    t.coins[coin@].0 as u32,
                    t.coins[coin@].1 as u32,
                    bits,
                ),
                count + 1,
            ),
            _ => (t, count),
        }
    }
}

/// What an event does to the state and to the totals.
pub open spec fn replayed(s: StateModel, t: ReplayTotals, e: ReplayEvent) -> (
    StateModel,
    ReplayTotals,
) {
    match e {
        ReplayEvent::Marks(marks) => {
            let (after, n) = marks_applied(s, marks@, marks@.len() as int);
            (after, ReplayTotals { oracle: t.oracle.wrapping_add(n as u64), ..t })
        },
        ReplayEvent::Replica(block) => (
            crate::clearing_house::replica::block_effect(s, block).state,
            ReplayTotals { replica: t.replica.wrapping_add(1), ..t },
        ),
        ReplayEvent::Misc(batch) => {
            let (after, funding, ledger) = crate::clearing_house::misc_events::events_effect(
                s,
                batch.events@,
                batch.events@.len() as int,
            );
            (
                after,
                ReplayTotals {
                    misc: t.misc.wrapping_add((funding as u64).wrapping_add(ledger as u64)),
                    ..t
                },
            )
        },
        ReplayEvent::Fill { user, coin, amounts } => (
            crate::clearing_house::fill::state_after_fill(s, user@, coin@, amounts),
            ReplayTotals { fills: t.fills.wrapping_add(1), ..t },
        ),
    }
}

fn apply_marks(state: &mut LiquidationState, marks: &Vec<(String, Option<u64>)>) -> (r: u64)
    ensures
        (final(state)@, r as int) == marks_applied(old(state)@, marks@, marks@.len() as int),
        final(state)@.coins == old(state)@.coins,
        final(state)@.dexes == old(state)@.dexes,
{
    let mut count: u64 = 0;
    let mut i: usize = 0;
    while i < marks.len()
        invariant
            i <= marks@.len(),
            count <= i,
            (state@, count as int) == marks_applied(old(state)@, marks@, i as int),
            state@.coins == old(state)@.coins,
            state@.dexes == old(state)@.dexes,
        decreases marks@.len() - i,
    {
        let px: Option<u64> = marks[i].1;
        if let Some(bits) = px {
            let at: Option<(usize, usize)> = match state.coin_to_dex_asset.get(
                marks[i].0.as_str(),
            ) {
                Some(p) => Some(*p),
                None => None,
            };
            if let Some((di, ai)) = at {
                #[verifier::truncate]
                let d: u32 = di as u32;
                #[verifier::truncate]
                let a: u32 = ai as u32;
                state.set_mark_price(d, a, bits);
                count = count + 1;
            }
        }
        i = i + 1;
    }
    count
}

/// Replays one event.
pub fn replay_event(state: &mut LiquidationState, totals: &mut ReplayTotals, event: &ReplayEvent)
    requires
        old(state)@.coins_valid(),
    ensures
        (final(state)@, *final(totals)) == replayed(old(state)@, *old(totals), *event),
        final(state)@.coins_valid(),
{
    match event {
        ReplayEvent::Marks(marks) => {
            let n: u64 = apply_marks(state, marks);
            totals.oracle = totals.oracle.wrapping_add(n);
        },
        ReplayEvent::Replica(block) => {
            let _ = apply_replica_block(state, block);
            totals.replica = totals.replica.wrapping_add(1);
        },
        ReplayEvent::Misc(batch) => {
            let (funding, ledger): (u64, u64) = apply_misc_event_batch(state, batch);
            totals.misc = totals.misc.wrapping_add(funding.wrapping_add(ledger));
        },
        ReplayEvent::Fill { user, coin, amounts } => {
            let _ = state.apply_fill(user.as_str(), coin.as_str(), *amounts);
            totals.fills = totals.fills.wrapping_add(1);
        },
    }
}

/// The users in whose logs the actions of the first `n` actions of a bundle are entered, with the
/// place of each action: those that change the state and are done for a vault.
pub open spec fn logged_in(
    actions: Seq<crate::clearing_house::replica::SignedAction>,
    bi: int,
    n: int,
) -> Seq<(int, int, Seq<char>)>
    decreases n,
{
    if n <= 0 {
        Seq::empty()
    } else {
        let a = actions[n - 1];
        match a.vault_address {
            Some(v) if !a.action.ignored() => logged_in(actions, bi, n - 1).push(
                (bi, n - 1, crate::text::lowercase(v@)),
            ),
            _ => logged_in(actions, bi, n - 1),
        }
    }
}

/// The same for the first `n` bundles of a block.
pub open spec fn logged_of(
    bundles: Seq<(String, crate::clearing_house::replica::ActionBundle)>,
    n: int,
) -> Seq<(int, int, Seq<char>)>
    decreases n,
{
    if n <= 0 {
        Seq::empty()
    } else {
        let actions = bundles[n - 1].1.signed_actions@;
        logged_of(bundles, n - 1) + logged_in(actions, n - 1, actions.len() as int)
    }
}

/// What a list of places and users holds.
pub open spec fn target_views(v: Seq<(usize, usize, String)>) -> Seq<(int, int, Seq<char>)> {
    v.map_values(|t: (usize, usize, String)| (t.0 as int, t.1 as int, t.2@))
}

/// Which actions of a block are entered in whose log: bundle, action and user.
pub fn replica_log_targets(block: &ReplicaBlock) -> (r: Vec<(usize, usize, String)>)
    ensures
        target_views(r@) == logged_of(
            block.abci_block.signed_action_bundles@,
            block.abci_block.signed_action_bundles@.len() as int,
        ),
{
    let ghost bundles = block.abci_block.signed_action_bundles@;
    let mut r: Vec<(usize, usize, String)> = Vec::new();
    assert(target_views(r@) =~= Seq::<(int, int, Seq<char>)>::empty());
    let mut i: usize = 0;
    while i < block.abci_block.signed_action_bundles.len()
        invariant
            i <= bundles.len(),
            bundles == block.abci_block.signed_action_bundles@,
            target_views(r@) == logged_of(bundles, i as int),
        decreases bundles.len() - i,
    {
        let actions = &block.abci_block.signed_action_bundles[i].1.signed_actions;
        let ghost seen = target_views(r@);
        let mut k: usize = 0;
        assert(target_views(r@) =~= seen + logged_in(actions@, i as int, 0));
        while k < actions.len()
            invariant
                k <= actions@.len(),
                target_views(r@) == seen + logged_in(actions@, i as int, k as int),
            decreases actions@.len() - k,
        {
            let ghost was = r@;
            if let Some(v) = &actions[k].vault_address {
                if !actions[k].action.is_ignored() {
                    let u = to_lowercase(v.as_str());
                    r.push((i, k, u));
                    assert(target_views(r@) =~= target_views(was).push(
                        (i as int, k as int, u@),
                    ));
                }
            }
            assert(target_views(r@) =~= seen + logged_in(actions@, i as int, k + 1));
            k = k + 1;
        }
        i = i + 1;
    }
    r
}

// ── What lines of events hold ────────────────────────────────────────────

/// The coins and prices of the first `n` pairs of an oracle update. A pair that is no list of two or
/// more does not count.
pub open spec fn pairs_in(ps: Seq<Seq<char>>, n: int) -> Seq<(Seq<char>, Seq<char>)>
    decreases n,
{
    if n <= 0 {
        Seq::empty()
    } else {
        let before = pairs_in(ps, n - 1);
        let p = ps[n - 1];
        match crate::json::array_len_found(p, ""@) {
            Some(l) => if l >= 2 {
                before.push(
                    (
                        match crate::json::string_found(p, "/0"@) {
                            Some(c) => c,
                            None => ""@,
                        },
                        match crate::json::string_found(p, "/1/px"@) {
                            Some(px) => px,
                            None => "0"@,
                        },
                    ),
                )
            } else {
                before
            },
            None => before,
        }
    }
}

/// The coins and prices of an oracle update.
pub open spec fn update_pairs(ev: Seq<char>) -> Seq<(Seq<char>, Seq<char>)> {
    match crate::json::items_found(ev, "/oracle_pxs/coin_to_mark_px"@) {
        Some(ps) => pairs_in(ps, ps.len() as int),
        None => Seq::empty(),
    }
}

/// The coins and prices of the first `n` oracle updates of a line.
pub open spec fn updates_in(evs: Seq<Seq<char>>, n: int) -> Seq<(Seq<char>, Seq<char>)>
    decreases n,
{
    if n <= 0 {
        Seq::empty()
    } else {
        updates_in(evs, n - 1) + update_pairs(evs[n - 1])
    }
}

/// The coins and prices of a line of oracle updates.
pub open spec fn line_pairs(line: Seq<char>) -> Seq<(Seq<char>, Seq<char>)> {
    match crate::json::items_found(line, "/events"@) {
        Some(evs) => updates_in(evs, evs.len() as int),
        None => Seq::empty(),
    }
}

fn push_pairs(r: &mut Vec<(String, String)>, ev: &str)
    ensures
        crate::json::pair_texts(final(r)@) == crate::json::pair_texts(old(r)@) + update_pairs(ev@),
{
    let ghost start = crate::json::pair_texts(r@);
    assert(start + Seq::<(Seq<char>, Seq<char>)>::empty() =~= start);
    let ps = match items_at(ev, "/oracle_pxs/coin_to_mark_px") {
        Some(ps) => ps,
        None => {
            return;
        },
    };
    let ghost all = crate::json::texts(ps@);
    let mut i: usize = 0;
    while i < ps.len()
        invariant
            i <= ps@.len(),
            all == crate::json::texts(ps@),
            crate::json::pair_texts(r@) == start + pairs_in(all, i as int),
        decreases ps@.len() - i,
    {
        let p = ps[i].as_str();
        assert(all[i as int] == p@);
        let long = match array_len_at(p, "") {
            Some(l) => l >= 2,
            None => false,
        };
        if long {
            let coin = match string_at(p, "/0") {
                Some(c) => c,
                None => "".to_owned(),
            };
            let px = match string_at(p, "/1/px") {
                Some(px) => px,
                None => "0".to_owned(),
            };
            let ghost was = r@;
            let ghost pair = (coin@, px@);
            r.push((coin, px));
            proof {
                assert(crate::json::pair_texts(r@) =~= crate::json::pair_texts(was).push(pair));
                assert((start + pairs_in(all, i as int)).push(pair) =~= start + pairs_in(
                    all,
                    i as int,
                ).push(pair));
            }
        }
        i = i + 1;
    }
    assert(all.len() == ps@.len());
}

/// The coins and prices of a line of oracle updates, as texts.
pub fn oracle_pairs(line: &str) -> (r: Vec<(String, String)>)
    ensures
        crate::json::pair_texts(r@) == line_pairs(line@),
{
    let mut r: Vec<(String, String)> = Vec::new();
    assert(crate::json::pair_texts(r@) =~= Seq::<(Seq<char>, Seq<char>)>::empty());
    let evs = match items_at(line, "/events") {
        Some(evs) => evs,
        None => {
            return r;
        },
    };
    let ghost all = crate::json::texts(evs@);
    let mut i: usize = 0;
    while i < evs.len()
        invariant
            i <= evs@.len(),
            all == crate::json::texts(evs@),
            crate::json::pair_texts(r@) == updates_in(all, i as int),
        decreases evs@.len() - i,
    {
        assert(all[i as int] == evs@[i as int]@);
        push_pairs(&mut r, evs[i].as_str());
        i = i + 1;
    }
    assert(all.len() == evs@.len());
    r
}

/// What the log says of a funding payment.
pub fn funding_note(coin: &str, amount: &str) -> (r: String)
    ensures
        r@ == "funding coin="@ + coin@ + " amt="@ + amount@,
{
    let mut r = "funding coin=".to_owned();
    push_text(&mut r, coin);
    push_text(&mut r, " amt=");
    push_text(&mut r, amount);
    r
}

/// The block height that the name of a snapshot file gives, without its ending.
pub fn block_height_from_rmp(file_stem: &str) -> (r: Option<u64>)
    ensures
        r == (match crate::text::decimal(file_stem@, u64::MAX as nat) {
            Some(n) => Some(n as u64),
            None => None,
        }),
{
    parse_u64(file_stem)
}

} // verus!

//! What waits between the order events of a node and its book.
//!
//! The statuses and the size changes of orders come from separate files, in no common order. An order
//! enters the book when both its status and its `New` change have been seen; the half that comes first
//! waits here. An order that is removed before both halves came stays out as long as its removal is
//! remembered. Of what waits in too large a number the older half is given up.
use crate::arrivals::Arrivals;
use crate::text::{contains_text, str_eq};
use vstd::prelude::*;

verus! {

/// The most statuses that wait before the older half of them is given up.
pub const MAX_PENDING_ORDERS: usize = 10_000;

/// The most sizes that wait before the older half of them is given up.
pub const MAX_PENDING_DIFFS: usize = 1_000;

/// The most removed orders that are remembered before the older half of them is forgotten.
pub const MAX_PENDING_REMOVALS: usize = 100_000;

/// The status of an order: what the book needs to know of it, and the event as it was read.
pub struct OrderStatus {
    pub oid: u64,
    pub coin: String,
    pub is_trigger: bool,
    pub status: String,
    pub order_type: String,
    /// Time of the event in milliseconds.
    pub time: u64,
    /// Whether an order in this status rests in a book.
    pub inserted_into_book: bool,
    pub event: String,
}

/// A change to an order in the book.
#[derive(Debug, Clone, Copy, PartialEq, Eq, Structural)]
pub enum Diff {
    New { sz: u64 },
    Update { new_sz: u64 },
    Remove,
}

/// What the book has to do for a status.
pub enum StatusAction {
    /// Nothing.
    Ignore,
    /// Add the order with the size, matching it against the book. A trigger order that is no longer
    /// open is turned into an ordinary one as of the given time.
    Add { status: OrderStatus, sz: u64, convert_at: Option<u64> },
    /// Insert the order as it is, without matching.
    Rest { status: OrderStatus },
}

/// What the book has to do for a status: first, perhaps, cancel the order; then act.
pub struct StatusStep {
    pub cancel: bool,
    pub action: StatusAction,
}

/// What the book has to do for a change.
pub enum DiffAction {
    /// Nothing.
    Ignore,
    /// Add the order with the size, as for a status.
    Add { status: OrderStatus, sz: u64, convert_at: Option<u64> },
    /// Change the size of the order.
    Resize { new_sz: u64 },
    /// Cancel the order.
    Cancel,
}

/// What waits, in which order it came, and how far the blocks have come.
#[verifier::ext_equal]
pub struct BookModel {
    pub height: u64,
    pub time: u64,
    pub block_size_bytes: u64,
    pub ignore_spot: bool,
    pub statuses: Map<u64, OrderStatus>,
    /// The orders whose statuses wait, the oldest first.
    pub status_order: Seq<u64>,
    pub news: Map<u64, u64>,
    /// The orders whose `New` changes wait, the oldest first.
    pub new_order: Seq<u64>,
    pub removals: Set<u64>,
    /// The removed orders, the oldest first.
    pub removal_order: Seq<u64>,
}

pub struct OrderBookState {
    height: u64,
    time: u64,
    current_block_size_bytes: u64,
    ignore_spot: bool,
    pending_order_statuses: Arrivals<OrderStatus>,
    pending_new_diffs: Arrivals<u64>,
    pending_removals: Arrivals<()>,
}

impl View for OrderBookState {
    type V = BookModel;

    closed spec fn view(&self) -> BookModel {
        BookModel {
            height: self.height,
            time: self.time,
            block_size_bytes: self.current_block_size_bytes,
            ignore_spot: self.ignore_spot,
            statuses: self.pending_order_statuses@.items,
            status_order: self.pending_order_statuses@.order,
            news: self.pending_new_diffs@.items,
            new_order: self.pending_new_diffs@.order,
            removals: self.pending_removals@.items.dom(),
            removal_order: self.pending_removals@.order,
        }
    }
}

impl BookModel {
    /// No order waits for its other half twice, none that was removed waits, and the order of arrival
    /// lists each of them once.
    pub open spec fn consistent(self) -> bool {
        &&& forall|o: u64| #[trigger] self.statuses.contains_key(o) ==> !self.news.contains_key(o)
        &&& forall|o: u64| #[trigger] self.statuses.contains_key(o) ==> !self.removals.contains(o)
        &&& forall|o: u64| #[trigger] self.news.contains_key(o) ==> !self.removals.contains(o)
        &&& crate::arrivals::lists(self.status_order, self.statuses.dom())
        &&& crate::arrivals::lists(self.new_order, self.news.dom())
        &&& crate::arrivals::lists(self.removal_order, self.removals)
    }

    /// A state with nothing waiting.
    pub open spec fn fresh(height: u64, time: u64, ignore_spot: bool) -> BookModel {
        BookModel {
            height,
            time,
            block_size_bytes: 0,
            ignore_spot,
            statuses: Map::empty(),
            status_order: Seq::empty(),
            news: Map::empty(),
            new_order: Seq::empty(),
            removals: Set::empty(),
            removal_order: Seq::empty(),
        }
    }
}

// ── Blocks ───────────────────────────────────────────────────────────────

/// The state after a batch of a block: a later block starts anew, the same block adds up, and an
/// earlier block changes nothing.
pub open spec fn progressed(m: BookModel, height: u64, time: u64, size: u64) -> BookModel {
    if height > m.height {
        BookModel { height, time, block_size_bytes: size, ..m }
    } else if height == m.height {
        BookModel {
            time,
            block_size_bytes: if m.block_size_bytes + size > u64::MAX {
                u64::MAX
            } else {
                (m.block_size_bytes + size) as u64
            },
            ..m
        }
    } else {
        m
    }
}

// ── Statuses ─────────────────────────────────────────────────────────────

/// Whether the order is a trigger order that still waits for its price.
pub open spec fn open_trigger(s: OrderStatus) -> bool {
    s.is_trigger && s.status@ == "open"@
}

/// Whether the order trades at the market price.
pub open spec fn market_type(s: OrderStatus) -> bool {
    crate::text::occurs(s.order_type@, "market"@) || crate::text::occurs(s.order_type@, "Market"@)
}

/// When a trigger order is to be turned into an ordinary one.
pub open spec fn conversion(s: OrderStatus) -> Option<u64> {
    if open_trigger(s) {
        None
    } else {
        Some(s.time)
    }
}

/// The state in which a status waits as the newest one.
pub open spec fn status_waits(m: BookModel, s: OrderStatus) -> BookModel {
    BookModel {
        statuses: m.statuses.insert(s.oid, s),
        status_order: crate::arrivals::without(m.status_order, s.oid).push(s.oid),
        ..m
    }
}

/// The state in which no status of an order waits.
pub open spec fn status_gone(m: BookModel, oid: u64) -> BookModel {
    BookModel {
        statuses: m.statuses.remove(oid),
        status_order: crate::arrivals::without(m.status_order, oid),
        ..m
    }
}

/// The state in which a `New` change waits as the newest one.
pub open spec fn new_waits(m: BookModel, oid: u64, sz: u64) -> BookModel {
    BookModel {
        news: m.news.insert(oid, sz),
        new_order: crate::arrivals::without(m.new_order, oid).push(oid),
        ..m
    }
}

/// The state in which no `New` change of an order waits.
pub open spec fn new_gone(m: BookModel, oid: u64) -> BookModel {
    BookModel {
        news: m.news.remove(oid),
        new_order: crate::arrivals::without(m.new_order, oid),
        ..m
    }
}

/// The state in which an order is remembered as the last one that was removed.
pub open spec fn removal_noted(m: BookModel, oid: u64) -> BookModel {
    BookModel {
        removals: m.removals.insert(oid),
        removal_order: crate::arrivals::without(m.removal_order, oid).push(oid),
        ..m
    }
}

/// What a status does.
pub open spec fn status_step(m: BookModel, s: OrderStatus) -> (BookModel, StatusStep) {
    if m.removals.contains(s.oid) {
        (m, StatusStep { cancel: false, action: StatusAction::Ignore })
    } else {
        let cancel = s.is_trigger && s.status@ != "open"@;
        if m.news.contains_key(s.oid) {
            (
                new_gone(m, s.oid),
                StatusStep {
                    cancel,
                    action: StatusAction::Add {
                        status: s,
                        sz: m.news[s.oid],
                        convert_at: conversion(s),
                    },
                },
            )
        } else if open_trigger(s) && market_type(s) {
            (m, StatusStep { cancel, action: StatusAction::Rest { status: s } })
        } else if s.inserted_into_book {
            (
                status_waits(m, s),
                StatusStep { cancel, action: StatusAction::Ignore },
            )
        } else {
            (m, StatusStep { cancel, action: StatusAction::Ignore })
        }
    }
}

/// Whether the coin of a status is to be reported as changed, given whether the book had the order
/// that was to be cancelled.
pub open spec fn status_changes(step: StatusStep, cancelled: bool) -> bool {
    (step.cancel && cancelled) || !(step.action is Ignore)
}

// ── Changes ──────────────────────────────────────────────────────────────

/// What a change does.
pub open spec fn diff_step(m: BookModel, oid: u64, d: Diff) -> (BookModel, DiffAction) {
    match d {
        Diff::New { sz } => if m.removals.contains(oid) {
            (m, DiffAction::Ignore)
        } else if m.statuses.contains_key(oid) {
            let s = m.statuses[oid];
            (
                status_gone(m, oid),
                DiffAction::Add { status: s, sz, convert_at: conversion(s) },
            )
        } else {
            (new_waits(m, oid, sz), DiffAction::Ignore)
        },
        Diff::Update { new_sz } => (m, DiffAction::Resize { new_sz }),
        Diff::Remove => (
            removal_noted(new_gone(status_gone(m, oid), oid), oid),
            DiffAction::Cancel,
        ),
    }
}

/// The coin to be reported as changed by a change to an order in the given coin.
pub open spec fn diff_changes(a: DiffAction, coin: Seq<char>) -> Option<Seq<char>> {
    match a {
        DiffAction::Ignore => None,
        DiffAction::Add { status, .. } => Some(status.coin@),
        DiffAction::Resize { .. } => Some(coin),
        DiffAction::Cancel => Some(coin),
    }
}

// ── Giving up ────────────────────────────────────────────────────────────

/// The state with the newer half of each collection that has grown too large.
pub open spec fn trimmed(m: BookModel) -> BookModel {
    let statuses_over = m.statuses.len() > MAX_PENDING_ORDERS;
    let news_over = m.news.len() > MAX_PENDING_DIFFS;
    let removals_over = m.removals.len() > MAX_PENDING_REMOVALS;
    BookModel {
        statuses: if statuses_over {
            m.statuses.restrict(crate::arrivals::newer_half(m.status_order).to_set())
        } else {
            m.statuses
        },
        status_order: if statuses_over {
            crate::arrivals::newer_half(m.status_order)
        } else {
            m.status_order
        },
        news: if news_over {
            m.news.restrict(crate::arrivals::newer_half(m.new_order).to_set())
        } else {
            m.news
        },
        new_order: if news_over {
            crate::arrivals::newer_half(m.new_order)
        } else {
            m.new_order
        },
        removals: if removals_over {
            crate::arrivals::newer_half(m.removal_order).to_set()
        } else {
            m.removals
        },
        removal_order: if removals_over {
            crate::arrivals::newer_half(m.removal_order)
        } else {
            m.removal_order
        },
        ..m
    }
}

impl OrderStatus {
    fn is_open_trigger(&self) -> (r: bool)
        ensures
            r == open_trigger(*self),
    {
        self.is_trigger && str_eq(self.status.as_str(), "open")
    }

    fn is_market_type(&self) -> (r: bool)
        ensures
            r == market_type(*self),
    {
        contains_text(self.order_type.as_str(), "market") || contains_text(
            self.order_type.as_str(),
            "Market",
        )
    }

    fn converts_at(&self) -> (r: Option<u64>)
        ensures
            r == conversion(*self),
    {
        if self.is_open_trigger() {
            None
        } else {
            Some(self.time)
        }
    }
}

impl StatusStep {
    /// Whether the coin of the status is to be reported as changed.
    pub fn changes(&self, cancelled: bool) -> (r: bool)
        ensures
            r == status_changes(*self, cancelled),
    {
        if self.cancel && cancelled {
            return true;
        }
        match &self.action {
            StatusAction::Ignore => false,
            _ => true,
        }
    }
}

impl DiffAction {
    /// The coin to be reported as changed.
    pub fn changes(&self, coin: &str) -> (r: Option<String>)
        ensures
            crate::json::text_opt(r) == diff_changes(*self, coin@),
    {
        match self {
            DiffAction::Ignore => None,
            DiffAction::Add { status, .. } => Some(status.coin.clone()),
            _ => Some(coin.to_owned()),
        }
    }
}

impl OrderBookState {
    #[verifier::type_invariant]
    spec fn inv(self) -> bool {
        &&& forall|o: u64| #[trigger]
            self.pending_order_statuses@.items.contains_key(o)
                ==> !self.pending_new_diffs@.items.contains_key(o)
        &&& forall|o: u64| #[trigger]
            self.pending_order_statuses@.items.contains_key(o)
                ==> !self.pending_removals@.items.contains_key(o)
        &&& forall|o: u64| #[trigger]
            self.pending_new_diffs@.items.contains_key(o)
                ==> !self.pending_removals@.items.contains_key(o)
        &&& self.pending_order_statuses@.wf()
        &&& self.pending_new_diffs@.wf()
        &&& self.pending_removals@.wf()
    }

    /// A state that starts from a snapshot of the book.
    pub fn from_snapshot(height: u64, time: u64, ignore_spot: bool) -> (r: Self)
        ensures
            r@ == BookModel::fresh(height, time, ignore_spot),
            r@.consistent(),
    {
        OrderBookState {
            height,
            time,
            current_block_size_bytes: 0,
            ignore_spot,
            pending_order_statuses: Arrivals::new(),
            pending_new_diffs: Arrivals::new(),
            pending_removals: Arrivals::new(),
        }
    }

    pub fn height(&self) -> (r: u64)
        ensures
            r == self@.height,
    {
        self.height
    }

    pub fn time(&self) -> (r: u64)
        ensures
            r == self@.time,
    {
        self.time
    }

    pub fn block_size_bytes(&self) -> (r: u64)
        ensures
            r == self@.block_size_bytes,
    {
        self.current_block_size_bytes
    }

    /// Notes a batch of a block.
    pub fn record_block_progress(&mut self, height: u64, time: u64, batch_size_bytes: u64)
        ensures
            final(self)@ == progressed(old(self)@, height, time, batch_size_bytes),
            final(self)@.consistent(),
    {
        proof {
            use_type_invariant(&*self);
        }
        if height > self.height {
            self.height = height;
            self.time = time;
            self.current_block_size_bytes = batch_size_bytes;
        } else if height == self.height {
            self.time = time;
            self.current_block_size_bytes =
            self.current_block_size_bytes.saturating_add(batch_size_bytes);
        }
    }

    /// The number of statuses that wait for their `New` change.
    pub fn pending_order_statuses_count(&self) -> (r: usize)
        ensures
            r == self@.statuses.len(),
    {
        self.pending_order_statuses.len()
    }

    /// The number of `New` changes that wait for their status.
    pub fn pending_new_diffs_count(&self) -> (r: usize)
        ensures
            r == self@.news.len(),
    {
        self.pending_new_diffs.len()
    }

    /// The number of removed orders that are remembered.
    pub fn pending_removals_count(&self) -> (r: usize)
        ensures
            r == self@.removals.len(),
    {
        self.pending_removals.len()
    }

    /// Drops the older half of what waits, or is remembered, in too large a number.
    pub fn cleanup_stale_pending(&mut self)
        ensures
            final(self)@ == trimmed(old(self)@),
            final(self)@.consistent(),
    {
        proof {
            use_type_invariant(&*self);
        }
        let ghost before = self@;
        let mut whole = OrderBookState::from_snapshot(0, 0, false);
        std::mem::swap(self, &mut whole);
        let OrderBookState {
            height,
            time,
            current_block_size_bytes,
            ignore_spot,
            mut pending_order_statuses,
            mut pending_new_diffs,
            mut pending_removals,
        } = whole;
        if pending_order_statuses.len() > MAX_PENDING_ORDERS {
            pending_order_statuses.drop_older_half();
        }
        if pending_new_diffs.len() > MAX_PENDING_DIFFS {
            pending_new_diffs.drop_older_half();
        }
        if pending_removals.len() > MAX_PENDING_REMOVALS {
            pending_removals.drop_older_half();
        }
        *self =
        OrderBookState {
            height,
            time,
            current_block_size_bytes,
            ignore_spot,
            pending_order_statuses,
            pending_new_diffs,
            pending_removals,
        };
        assert(self@ =~= trimmed(before));
    }

    /// Takes in the status of an order.
    pub fn on_status(&mut self, s: OrderStatus) -> (r: StatusStep)
        ensures
            (final(self)@, r) == status_step(old(self)@, s),
            final(self)@.consistent(),
    {
        proof {
            use_type_invariant(&*self);
        }
        let ghost before = self@;
        let oid: u64 = s.oid;
        if self.pending_removals.contains(oid) {
            return StatusStep { cancel: false, action: StatusAction::Ignore };
        }
        let cancel = s.is_trigger && !str_eq(s.status.as_str(), "open");
        let convert_at: Option<u64> = s.converts_at();
        let mut whole = OrderBookState::from_snapshot(0, 0, false);
        std::mem::swap(self, &mut whole);
        let OrderBookState {
            height,
            time,
            current_block_size_bytes,
            ignore_spot,
            mut pending_order_statuses,
            mut pending_new_diffs,
            pending_removals,
        } = whole;
        let found: Option<u64> = pending_new_diffs.remove(oid);
        let action = match found {
            Some(sz) => StatusAction::Add { status: s, sz, convert_at },
            None => if s.is_open_trigger() && s.is_market_type() {
                StatusAction::Rest { status: s }
            } else {
                if s.inserted_into_book {
                    pending_order_statuses.insert(oid, s);
                }
                StatusAction::Ignore
            },
        };
        proof {
            if found is None {
                assert(!before.new_order.to_set().contains(oid));
                assert(pending_new_diffs@.items =~= before.news);
            }
        }
        *self =
        OrderBookState {
            height,
            time,
            current_block_size_bytes,
            ignore_spot,
            pending_order_statuses,
            pending_new_diffs,
            pending_removals,
        };
        assert(self@ =~= status_step(before, s).0);
        StatusStep { cancel, action }
    }

    /// Whether a change in a coin is passed over; `is_spot` says whether the coin is of the spot
    /// market.
    pub fn skips(&self, is_spot: bool) -> (r: bool)
        ensures
            r == (is_spot && self@.ignore_spot),
    {
        is_spot && self.ignore_spot
    }

    /// Takes in a change to an order.
    pub fn on_diff(&mut self, oid: u64, d: Diff) -> (r: DiffAction)
        ensures
            (final(self)@, r) == diff_step(old(self)@, oid, d),
            final(self)@.consistent(),
    {
        proof {
            use_type_invariant(&*self);
        }
        let ghost before = self@;
        let mut whole = OrderBookState::from_snapshot(0, 0, false);
        std::mem::swap(self, &mut whole);
        let OrderBookState {
            height,
            time,
            current_block_size_bytes,
            ignore_spot,
            mut pending_order_statuses,
            mut pending_new_diffs,
            mut pending_removals,
        } = whole;
        let action = match d {
            Diff::New { sz } => {
                if pending_removals.contains(oid) {
                    DiffAction::Ignore
                } else {
                    match pending_order_statuses.remove(oid) {
                        Some(status) => {
                            let convert_at: Option<u64> = status.converts_at();
                            DiffAction::Add { status, sz, convert_at }
                        },
                        None => {
                            assert(!before.status_order.to_set().contains(oid));
                            assert(pending_order_statuses@.items =~= before.statuses);
                            pending_new_diffs.insert(oid, sz);
                            DiffAction::Ignore
                        },
                    }
                }
            },
            Diff::Update { new_sz } => DiffAction::Resize { new_sz },
            Diff::Remove => {
                pending_new_diffs.remove(oid);
                pending_order_statuses.remove(oid);
                pending_removals.insert(oid, ());
                assert(pending_removals@.items.dom() =~= before.removals.insert(oid));
                DiffAction::Cancel
            },
        };
        *self =
        OrderBookState {
            height,
            time,
            current_block_size_bytes,
            ignore_spot,
            pending_order_statuses,
            pending_new_diffs,
            pending_removals,
        };
        assert(self@ =~= diff_step(before, oid, d).0);
        action
    }
}

// ── Laws ─────────────────────────────────────────────────────────────────

/// The height never goes down.
pub proof fn law_height_never_falls(m: BookModel, height: u64, time: u64, size: u64)
    ensures
        progressed(m, height, time, size).height >= m.height,
        progressed(m, height, time, size).height >= height || m.height > height,
{
}

/// What came last and is dropped leaves the list as it was.
proof fn lemma_pushed_and_dropped(order: Seq<u64>, members: Set<u64>, oid: u64)
    requires
        crate::arrivals::lists(order, members),
        !members.contains(oid),
    ensures
        crate::arrivals::without(order, oid) == order,
        crate::arrivals::without(order.push(oid), oid) == order,
{
    assert(!order.to_set().contains(oid));
    let t = order.push(oid);
    assert(t[order.len() as int] == oid);
    assert(t.contains(oid));
    let i = t.index_of(oid);
    if i < order.len() {
        assert(order[i] == oid);
        assert(order.contains(oid));
    }
    assert(t.remove(i) =~= order);
}

/// A status and the `New` change of its order may come in either order: the state that is left and
/// what the book has to add are the same.
pub proof fn law_halves_meet_in_either_order(m: BookModel, s: OrderStatus, sz: u64)
    requires
        m.consistent(),
        !m.removals.contains(s.oid),
        !m.statuses.contains_key(s.oid),
        !m.news.contains_key(s.oid),
        s.inserted_into_book,
        !(open_trigger(s) && market_type(s)),
    ensures
        ({
            let (a, first) = status_step(m, s);
            let (b, second) = diff_step(a, s.oid, Diff::New { sz });
            let (c, early) = diff_step(m, s.oid, Diff::New { sz });
            let (d, late) = status_step(c, s);
            &&& b == d
            &&& b == m
            &&& first.action is Ignore
            &&& early is Ignore
            &&& second == (DiffAction::Add { status: s, sz, convert_at: conversion(s) })
            &&& late.action == (StatusAction::Add { status: s, sz, convert_at: conversion(s) })
            &&& first.cancel == late.cancel
        }),
{
    lemma_pushed_and_dropped(m.status_order, m.statuses.dom(), s.oid);
    lemma_pushed_and_dropped(m.new_order, m.news.dom(), s.oid);
    let (a, first) = status_step(m, s);
    let (b, second) = diff_step(a, s.oid, Diff::New { sz });
    assert(b.statuses =~= m.statuses);
    let (c, early) = diff_step(m, s.oid, Diff::New { sz });
    let (d, late) = status_step(c, s);
    assert(d.news =~= m.news);
}

/// A removed order does not come back: as long as its removal is remembered, neither its status nor a
/// `New` change has the book add it.
pub proof fn law_removed_orders_stay_out(m: BookModel, oid: u64, s: OrderStatus, sz: u64)
    requires
        s.oid == oid,
    ensures
        ({
            let gone = diff_step(m, oid, Diff::Remove).0;
            &&& gone.removals.contains(oid)
            &&& status_step(gone, s).0 == gone
            &&& !status_step(gone, s).1.cancel
            &&& status_step(gone, s).1.action is Ignore
            &&& diff_step(gone, oid, Diff::New { sz }) == (gone, DiffAction::Ignore)
        }),
{
}

/// Only a clean-up forgets removals, and only the older half of them: statuses and changes keep what is
/// remembered, and a clean-up keeps the newer half, or all where they are not too many.
pub proof fn law_removals_are_kept(m: BookModel, s: OrderStatus, oid: u64, d: Diff, gone: u64)
    requires
        m.removals.contains(gone),
    ensures
        status_step(m, s).0.removals.contains(gone),
        diff_step(m, oid, d).0.removals.contains(gone),
        m.removals.len() <= MAX_PENDING_REMOVALS ==> trimmed(m).removals.contains(gone),
        crate::arrivals::newer_half(m.removal_order).contains(gone) ==> trimmed(
            m,
        ).removals.contains(gone),
{
}

/// A clean-up cuts each collection that is over its limit to its newer half, whose entries stay as they
/// are. Collections within their limits stay whole, and nothing else changes.
pub proof fn law_cleanup_keeps_the_newer_half(m: BookModel)
    requires
        m.consistent(),
    ensures
        ({
            let t = trimmed(m);
            let n = m.statuses.len();
            if n > MAX_PENDING_ORDERS {
                &&& t.statuses.len() == n - n / 2
                &&& t.statuses.dom() == crate::arrivals::newer_half(m.status_order).to_set()
                &&& t.statuses.submap_of(m.statuses)
            } else {
                t.statuses == m.statuses && t.status_order == m.status_order
            }
        }),
        ({
            let t = trimmed(m);
            let n = m.news.len();
            if n > MAX_PENDING_DIFFS {
                &&& t.news.len() == n - n / 2
                &&& t.news.dom() == crate::arrivals::newer_half(m.new_order).to_set()
                &&& t.news.submap_of(m.news)
            } else {
                t.news == m.news && t.new_order == m.new_order
            }
        }),
        ({
            let t = trimmed(m);
            let n = m.removals.len();
            if n > MAX_PENDING_REMOVALS {
                &&& t.removals.len() == n - n / 2
                &&& t.removals == crate::arrivals::newer_half(m.removal_order).to_set()
                &&& t.removals.subset_of(m.removals)
            } else {
                t.removals == m.removals && t.removal_order == m.removal_order
            }
        }),
        trimmed(m).height == m.height,
        trimmed(m).time == m.time,
        trimmed(m).block_size_bytes == m.block_size_bytes,
        trimmed(m).ignore_spot == m.ignore_spot,
{
    let t = trimmed(m);
    crate::arrivals::lemma_newer_half(m.status_order, m.statuses.dom());
    crate::arrivals::lemma_newer_half(m.new_order, m.news.dom());
    crate::arrivals::lemma_newer_half(m.removal_order, m.removals);
    m.status_order.unique_seq_to_set();
    m.new_order.unique_seq_to_set();
    m.removal_order.unique_seq_to_set();
    if m.statuses.len() > MAX_PENDING_ORDERS {
        assert(t.statuses.dom() =~= crate::arrivals::newer_half(m.status_order).to_set());
    }
    if m.news.len() > MAX_PENDING_DIFFS {
        assert(t.news.dom() =~= crate::arrivals::newer_half(m.new_order).to_set());
    }
}

/// No step leaves an order waiting in two places, or a removed order waiting.
pub proof fn law_waiting_stays_consistent(m: BookModel, s: OrderStatus, oid: u64, d: Diff)
    requires
        m.consistent(),
    ensures
        status_step(m, s).0.consistent(),
        diff_step(m, oid, d).0.consistent(),
        trimmed(m).consistent(),
{
    crate::arrivals::lemma_without(m.status_order, m.statuses.dom(), s.oid);
    crate::arrivals::lemma_without(m.new_order, m.news.dom(), s.oid);
    crate::arrivals::lemma_without(m.status_order, m.statuses.dom(), oid);
    crate::arrivals::lemma_without(m.new_order, m.news.dom(), oid);
    crate::arrivals::lemma_without(m.removal_order, m.removals, oid);
    assert(m.statuses.insert(s.oid, s).dom() =~= m.statuses.dom().insert(s.oid));
    law_cleanup_keeps_the_newer_half(m);
    crate::arrivals::lemma_newer_half(m.status_order, m.statuses.dom());
    crate::arrivals::lemma_newer_half(m.new_order, m.news.dom());
    crate::arrivals::lemma_newer_half(m.removal_order, m.removals);
}

} // verus!

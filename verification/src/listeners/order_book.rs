//! The listener that keeps a book up to date from the node's event files.
pub mod state;
pub mod state_laws;

use crate::listeners::order_book::state::{Diff, DiffAction, OrderBookState, OrderStatus, StatusStep};
use crate::text::{decimal_string, push_text, signed_string};
use vstd::prelude::*;

verus! {

/// Snapshots of the book are sent no more often than this, in nanoseconds.
pub const L2_INTERVAL: u64 = 10_000_000;

/// Snapshots of the trigger orders are made anew no more often than this, in nanoseconds.
pub const TRIGGER_INTERVAL: u64 = 500_000_000;

/// What waits is looked at once in so many events.
pub const CLEANUP_PERIOD: u64 = 1_000;

/// What the listener knows between two events.
#[verifier::ext_equal]
pub struct ListenerModel {
    pub ignore_spot: bool,
    pub book: Option<crate::listeners::order_book::state::BookModel>,
    /// Whether updates are being collected while a snapshot is made.
    pub collecting: bool,
    /// The height of the first snapshot that an event met.
    pub initial_height: Option<u64>,
    /// The greatest height that an event named.
    pub latest_height: u64,
    /// The number of events that were taken in.
    pub events: u64,
    pub last_l2: Option<u64>,
    pub last_trigger: Option<u64>,
}

pub struct OrderBookListener {
    ignore_spot: bool,
    order_book_state: Option<OrderBookState>,
    collecting: bool,
    initial_height: Option<u64>,
    latest_height: u64,
    events: u64,
    last_l2_broadcast: Option<u64>,
    last_trigger_broadcast: Option<u64>,
}

/// What there is to be sent after an event.
#[derive(Debug, Clone, Copy, PartialEq, Eq, Structural)]
pub struct Broadcast {
    /// The best prices of the coins that changed.
    pub bbo: bool,
    /// The snapshots of the book.
    pub l2: bool,
    /// Whether the snapshots of the trigger orders are to be made anew before that.
    pub triggers: bool,
}

pub open spec fn book_view(b: Option<OrderBookState>) -> Option<
    crate::listeners::order_book::state::BookModel,
> {
    match b {
        Some(s) => Some(s@),
        None => None,
    }
}

impl View for OrderBookListener {
    type V = ListenerModel;

    closed spec fn view(&self) -> ListenerModel {
        ListenerModel {
            ignore_spot: self.ignore_spot,
            book: book_view(self.order_book_state),
            collecting: self.collecting,
            initial_height: self.initial_height,
            latest_height: self.latest_height,
            events: self.events,
            last_l2: self.last_l2_broadcast,
            last_trigger: self.last_trigger_broadcast,
        }
    }
}

/// The listener after it has seen which block an event is of, and whether the event is to be applied.
/// Events up to the height of the first snapshot are passed over. Without a book nothing is noted but
/// the height, and the event goes on to be sent.
pub open spec fn begun(m: ListenerModel, height: u64, time: u64, size: u64) -> (ListenerModel, bool) {
    let seen = ListenerModel {
        latest_height: if height > m.latest_height {
            height
        } else {
            m.latest_height
        },
        ..m
    };
    match m.book {
        Some(b) => {
            let first = match m.initial_height {
                Some(h) => h,
                None => b.height,
            };
            let known = ListenerModel { initial_height: Some(first), ..seen };
            if height <= first {
                (known, false)
            } else {
                (
                    ListenerModel {
                        book: Some(
                            crate::listeners::order_book::state::progressed(b, height, time, size),
                        ),
                        ..known
                    },
                    true,
                )
            }
        },
        None => (seen, true),
    }
}

/// Whether so much time has passed since the last time; a first time is always due.
pub open spec fn due(last: Option<u64>, now: u64, interval: u64) -> bool {
    match last {
        Some(t) => now - t >= interval,
        None => true,
    }
}

/// The listener after an event was applied, and what there is to be sent. `changed` says whether a coin
/// changed, `quiet` that more events follow at once, and `has_l2` that someone may want snapshots.
pub open spec fn ended(m: ListenerModel, changed: bool, quiet: bool, has_l2: bool, now: u64) -> (
    ListenerModel,
    Broadcast,
) {
    let book = match m.book {
        Some(b) => if m.events % CLEANUP_PERIOD == 0 {
            Some(crate::listeners::order_book::state::trimmed(b))
        } else {
            m.book
        },
        None => None,
    };
    let l2 = !quiet && m.book is Some && due(m.last_l2, now, L2_INTERVAL);
    let triggers = l2 && due(m.last_trigger, now, TRIGGER_INTERVAL);
    (
        ListenerModel {
            book,
            events: if m.events == u64::MAX {
                0
            } else {
                (m.events + 1) as u64
            },
            last_l2: if l2 && has_l2 {
                Some(now)
            } else {
                m.last_l2
            },
            last_trigger: if triggers {
                Some(now)
            } else {
                m.last_trigger
            },
            ..m
        },
        Broadcast { bbo: !quiet && changed && m.book is Some, l2: l2 && has_l2, triggers },
    )
}

fn is_due(last: Option<u64>, now: u64, interval: u64) -> (r: bool)
    ensures
        r == due(last, now, interval),
{
    match last {
        Some(t) => now >= t && now - t >= interval,
        None => true,
    }
}

impl OrderBookListener {
    pub fn new(ignore_spot: bool) -> (r: Self)
        ensures
            r@ == (ListenerModel {
                ignore_spot,
                book: None,
                collecting: false,
                initial_height: None,
                latest_height: 0,
                events: 0,
                last_l2: None,
                last_trigger: None,
            }),
    {
        OrderBookListener {
            ignore_spot,
            order_book_state: None,
            collecting: false,
            initial_height: None,
            latest_height: 0,
            events: 0,
            last_l2_broadcast: None,
            last_trigger_broadcast: None,
        }
    }

    /// Whether there is a book.
    pub fn is_ready(&self) -> (r: bool)
        ensures
            r == (self@.book is Some),
    {
        self.order_book_state.is_some()
    }

    pub fn latest_height(&self) -> (r: u64)
        ensures
            r == self@.latest_height,
    {
        self.latest_height
    }

    /// What waits for the book, where there is one.
    pub fn state(&self) -> (r: Option<&OrderBookState>)
        ensures
            match (r, self@.book) {
                (Some(s), Some(b)) => s@ == b,
                (None, None) => true,
                _ => false,
            },
    {
        self.order_book_state.as_ref()
    }

    /// Starts to collect updates, before a snapshot is made.
    pub fn begin_caching(&mut self)
        ensures
            final(self)@ == (ListenerModel { collecting: true, ..old(self)@ }),
    {
        self.collecting = true;
    }

    /// Stops collecting updates. What came meanwhile is not applied: the snapshot is trusted.
    pub fn take_cache(&mut self)
        ensures
            final(self)@ == (ListenerModel { collecting: false, ..old(self)@ }),
    {
        self.collecting = false;
    }

    /// Starts anew from a snapshot.
    pub fn init_from_snapshot(&mut self, height: u64)
        ensures
            final(self)@ == (ListenerModel {
                book: Some(
                    crate::listeners::order_book::state::BookModel::fresh(
                        height,
                        0,
                        old(self)@.ignore_spot,
                    ),
                ),
                collecting: false,
                ..old(self)@
            }),
    {
        let s = OrderBookState::from_snapshot(height, 0, self.ignore_spot);
        self.order_book_state = Some(s);
        self.collecting = false;
    }

    /// Sees which block an event is of; `line_len` is the length of its line in bytes. Gives back
    /// whether the event is to be applied and sent.
    pub fn begin_event(&mut self, height: u64, block_time: u64, line_len: u64) -> (r: bool)
        ensures
            (final(self)@, r) == begun(old(self)@, height, block_time, line_len),
    {
        let ghost before = self@;
        if height > self.latest_height {
            self.latest_height = height;
        }
        match self.order_book_state.as_mut() {
            Some(state) => {
                let first: u64 = match self.initial_height {
                    Some(h) => h,
                    None => state.height(),
                };
                self.initial_height = Some(first);
                if height <= first {
                    return false;
                }
                state.record_block_progress(height, block_time, line_len);
            },
            None => {},
        }
        true
    }

    /// Takes in the status of an order. Nothing is to be done without a book.
    pub fn on_status(&mut self, s: OrderStatus) -> (r: Option<StatusStep>)
        ensures
            match old(self)@.book {
                Some(b) => {
                    let (after, step) = crate::listeners::order_book::state::status_step(b, s);
                    final(self)@ == (ListenerModel { book: Some(after), ..old(self)@ }) && r == Some(
                        step,
                    )
                },
                None => final(self)@ == old(self)@ && r is None,
            },
    {
        match self.order_book_state.as_mut() {
            Some(state) => Some(state.on_status(s)),
            None => None,
        }
    }

    /// Takes in a change to an order; `is_spot` says whether its coin is of the spot market. Nothing is
    /// to be done without a book, or in a coin that is passed over.
    pub fn on_diff(&mut self, oid: u64, is_spot: bool, d: Diff) -> (r: Option<DiffAction>)
        ensures
            match old(self)@.book {
                Some(b) => if is_spot && b.ignore_spot {
                    final(self)@ == old(self)@ && r is None
                } else {
                    let (after, action) = crate::listeners::order_book::state::diff_step(b, oid, d);
                    final(self)@ == (ListenerModel { book: Some(after), ..old(self)@ }) && r == Some(
                        action,
                    )
                },
                None => final(self)@ == old(self)@ && r is None,
            },
    {
        match self.order_book_state.as_mut() {
            Some(state) => if state.skips(is_spot) {
                None
            } else {
                Some(state.on_diff(oid, d))
            },
            None => None,
        }
    }

    /// Gives the book up after an event that could not be applied.
    pub fn give_up(&mut self)
        ensures
            final(self)@ == (ListenerModel { book: None, ..old(self)@ }),
    {
        self.order_book_state = None;
    }

    /// Ends an event. `changed` says whether a coin changed, `quiet` that more events follow at once,
    /// `has_l2` that someone may want snapshots; `now` is a time in nanoseconds.
    pub fn end_event(&mut self, changed: bool, quiet: bool, has_l2: bool, now: u64) -> (r: Broadcast)
        ensures
            (final(self)@, r) == ended(old(self)@, changed, quiet, has_l2, now),
    {
        let ready = self.is_ready();
        if self.events % CLEANUP_PERIOD == 0 {
            match self.order_book_state.as_mut() {
                Some(state) => {
                    state.cleanup_stale_pending();
                },
                None => {},
            }
        }
        self.events =
        if self.events == u64::MAX {
            0
        } else {
            self.events + 1
        };
        let l2 = !quiet && ready && is_due(self.last_l2_broadcast, now, L2_INTERVAL);
        let triggers = l2 && is_due(self.last_trigger_broadcast, now, TRIGGER_INTERVAL);
        if triggers {
            self.last_trigger_broadcast = Some(now);
        }
        if l2 && has_l2 {
            self.last_l2_broadcast = Some(now);
        }
        Broadcast { bbo: !quiet && changed && ready, l2: l2 && has_l2, triggers }
    }
}

/// Whether an event is followed at once by another of its batch, so that nothing is sent for it.
pub fn followed(i: usize, batch_len: usize) -> (r: bool)
    requires
        i < batch_len,
    ensures
        r == (i + 1 < batch_len),
{
    i != batch_len - 1
}

/// Whether a snapshot is being fetched.
#[derive(Debug, Clone, Copy, PartialEq, Eq, Structural)]
pub struct SnapshotFetch {
    pub pending: bool,
}

impl SnapshotFetch {
    /// At a tick: whether a snapshot is to be fetched. There is one fetch at a time, and none once
    /// there is a book.
    pub fn tick(&mut self, ready: bool) -> (r: bool)
        ensures
            r == (!ready && !old(self).pending),
            final(self).pending == (old(self).pending || r),
    {
        if !ready && !self.pending {
            self.pending = true;
            true
        } else {
            false
        }
    }

    /// A fetch has come to an end.
    pub fn finished(&mut self)
        ensures
            !final(self).pending,
    {
        self.pending = false;
    }
}

/// How many blocks the book is behind the data.
pub open spec fn lag(height: i64, latest: i64) -> int {
    if latest > height {
        latest - height
    } else {
        0
    }
}

/// The report on the health of the server.
pub open spec fn health_text(ready: bool, uptime: u64, height: i64, latest: i64, connections: i64) -> Seq<
    char,
> {
    "{\"status\":\""@ + (if ready {
        "ready"@
    } else {
        "initializing"@
    }) + "\",\"uptime_seconds\":"@ + crate::text::decimal_text(uptime as nat) + ",\"height\":"@
        + crate::text::signed_text(height as int) + ",\"latest_data_height\":"@
        + crate::text::signed_text(latest as int) + ",\"block_lag\":"@ + crate::text::signed_text(
        lag(height, latest),
    ) + ",\"connections\":"@ + crate::text::signed_text(connections as int)
        + "}\"\n                    "@
}

/// The report on the health of the server.
pub fn health_body(ready: bool, uptime: u64, height: i64, latest: i64, connections: i64) -> (r: String)
    ensures
        r@ == health_text(ready, uptime, height, latest, connections),
{
    let mut r = "{\"status\":\"".to_owned();
    if ready {
        push_text(&mut r, "ready");
    } else {
        push_text(&mut r, "initializing");
    }
    push_text(&mut r, "\",\"uptime_seconds\":");
    let uptime_text = decimal_string(uptime);
    push_text(&mut r, uptime_text.as_str());
    push_text(&mut r, ",\"height\":");
    let height_text = signed_string(height as i128);
    push_text(&mut r, height_text.as_str());
    push_text(&mut r, ",\"latest_data_height\":");
    let latest_text = signed_string(latest as i128);
    push_text(&mut r, latest_text.as_str());
    push_text(&mut r, ",\"block_lag\":");
    let behind: i128 = if latest > height {
        latest as i128 - height as i128
    } else {
        0
    };
    let behind_text = signed_string(behind);
    push_text(&mut r, behind_text.as_str());
    push_text(&mut r, ",\"connections\":");
    let connections_text = signed_string(connections as i128);
    push_text(&mut r, connections_text.as_str());
    push_text(&mut r, "}\"\n                    ");
    r
}

/// Events come to be applied only in blocks behind the first snapshot, and the height that the book
/// reaches is theirs or greater.
pub proof fn law_applied_events_are_new(m: ListenerModel, height: u64, time: u64, size: u64)
    requires
        m.book is Some,
    ensures
        ({
            let (after, apply) = begun(m, height, time, size);
            &&& after.initial_height is Some
            &&& apply == (height > after.initial_height->Some_0)
            &&& apply ==> after.book is Some && after.book->Some_0.height >= height
            &&& !apply ==> after.book == m.book
        }),
{
}

} // verus!

//! Watching how far a node is behind.
use crate::json::u64_at;
use crate::text::{push_decimal, push_text, str_eq};
use vstd::prelude::*;

verus! {

/// The request for the time of a node's last block.
pub const STATE_REQUEST: &'static str =
    "{\"type\":\"clearinghouseState\",\"user\":\"0x0000000000000000000000000000000000000000\"}";

/// The request for the price of an asset.
pub const MARK_REQUEST: &'static str =
    "{\"coin\":\"BTC\",\"type\":\"activeAssetData\",\"user\":\"0x0000000000000000000000000000000000000000\"}";

/// What is said of an answer without a time.
pub const NO_TIME: &'static str = "missing or invalid 'time' field";

/// The state of a node that does not answer.
pub const DOWN: &'static str = "DOWN";

/// The state of a node that is so many seconds behind.
pub open spec fn status_of(lag_s: u64) -> Seq<char> {
    if lag_s < 5 {
        "SYNCED"@
    } else if lag_s < 30 {
        "BEHIND"@
    } else if lag_s < 120 {
        "LAGGING"@
    } else {
        "FAR_BEHIND"@
    }
}

/// The state of a node that is so many seconds behind.
pub fn classify_status(lag_s: u64) -> (r: &'static str)
    ensures
        r@ == status_of(lag_s),
{
    if lag_s < 5 {
        "SYNCED"
    } else if lag_s < 30 {
        "BEHIND"
    } else if lag_s < 120 {
        "LAGGING"
    } else {
        "FAR_BEHIND"
    }
}

/// The state in colour, padded to one width.
pub open spec fn colored(status: Seq<char>) -> Seq<char> {
    if status == "SYNCED"@ {
        "\x1b[32mSYNCED\x1b[0m    "@
    } else if status == "BEHIND"@ {
        "\x1b[33mBEHIND\x1b[0m    "@
    } else if status == "LAGGING"@ {
        "\x1b[31mLAGGING\x1b[0m   "@
    } else if status == "FAR_BEHIND"@ {
        "\x1b[31;1mFAR BEHIND\x1b[0m"@
    } else {
        "\x1b[36mUNKNOWN\x1b[0m   "@
    }
}

/// The state in colour, padded to one width.
pub fn colored_status(status: &str) -> (r: &'static str)
    ensures
        r@ == colored(status@),
{
    if str_eq(status, "SYNCED") {
        "\x1b[32mSYNCED\x1b[0m    "
    } else if str_eq(status, "BEHIND") {
        "\x1b[33mBEHIND\x1b[0m    "
    } else if str_eq(status, "LAGGING") {
        "\x1b[31mLAGGING\x1b[0m   "
    } else if str_eq(status, "FAR_BEHIND") {
        "\x1b[31;1mFAR BEHIND\x1b[0m"
    } else {
        "\x1b[36mUNKNOWN\x1b[0m   "
    }
}

/// The number as a signed one, or the largest of those.
pub open spec fn capped(value: u64) -> i64 {
    if value <= i64::MAX {
        value as i64
    } else {
        i64::MAX
    }
}

/// The number as a signed one, or the largest of those.
pub fn to_i64(value: u64) -> (r: i64)
    ensures
        r == capped(value),
{
    if value <= i64::MAX as u64 {
        value as i64
    } else {
        i64::MAX
    }
}

/// A number below one hundred in two digits.
pub open spec fn two_digits(n: nat) -> Seq<char> {
    if n < 10 {
        "0"@ + crate::text::decimal_text(n)
    } else {
        crate::text::decimal_text(n)
    }
}

fn push_two(s: &mut String, n: u64)
    ensures
        final(s)@ == old(s)@ + two_digits(n as nat),
{
    let ghost before = s@;
    if n < 10 {
        push_text(s, "0");
    }
    push_decimal(s, n);
    assert(s@ =~= before + two_digits(n as nat));
}

/// The time of day of a time in milliseconds.
pub fn fmt_time(ms: u64) -> (r: String)
    ensures
        r@ == two_digits((ms / 3_600_000 % 24) as nat) + ":"@ + two_digits((ms / 60_000 % 60) as nat)
            + ":"@ + two_digits((ms / 1_000 % 60) as nat),
{
    let secs: u64 = ms / 1_000;
    let mut r = String::new();
    assert(r@ =~= Seq::<char>::empty());
    proof {
        assert(ms / 1_000 / 3_600 == ms / 3_600_000) by (nonlinear_arith);
        assert(ms / 1_000 / 60 == ms / 60_000) by (nonlinear_arith);
    }
    push_two(&mut r, secs / 3_600 % 24);
    push_text(&mut r, ":");
    push_two(&mut r, secs / 60 % 60);
    push_text(&mut r, ":");
    push_two(&mut r, secs % 60);
    assert(r@ =~= two_digits((ms / 3_600_000 % 24) as nat) + ":"@ + two_digits(
        (ms / 60_000 % 60) as nat,
    ) + ":"@ + two_digits((ms / 1_000 % 60) as nat));
    r
}

/// The time of the last block in a node's answer.
pub fn block_time_in(answer: &str) -> (r: Option<u64>)
    ensures
        r == crate::json::u64_found(answer@, "/time"@),
{
    u64_at(answer, "/time")
}

// ── Samples ──────────────────────────────────────────────────────────────

/// How the blocks of a node went on since the last look.
#[derive(Debug, Clone, Copy, PartialEq, Eq, Structural)]
pub enum Advance {
    FirstCheck,
    Stalled,
    By { ms: u64 },
}

/// What a look at a node that answers gives.
pub struct Sample {
    pub collected_at_ms: i64,
    pub block_time_ms: i64,
    pub lag_s: u64,
    pub lag_seconds: i64,
    pub advance: Advance,
    pub advance_ms: Option<i64>,
    pub status: &'static str,
}

/// The time by which a node is behind, in seconds.
pub open spec fn lag_of(now_ms: u64, block_time_ms: u64) -> u64 {
    if now_ms >= block_time_ms {
        ((now_ms - block_time_ms) / 1_000) as u64
    } else {
        0
    }
}

/// How the blocks went on.
pub open spec fn advanced(prev: Option<u64>, block_time_ms: u64) -> Advance {
    match prev {
        None => Advance::FirstCheck,
        Some(p) => if block_time_ms > p {
            Advance::By { ms: (block_time_ms - p) as u64 }
        } else {
            Advance::Stalled
        },
    }
}

/// How the blocks went on, in milliseconds.
pub open spec fn advance_ms_of(a: Advance) -> Option<i64> {
    match a {
        Advance::FirstCheck => None,
        Advance::Stalled => Some(0),
        Advance::By { ms } => Some(capped(ms)),
    }
}

/// What is remembered between two looks: the time of the block seen last.
pub struct Poller {
    pub prev_block_time: Option<u64>,
}

impl Poller {
    /// Takes in the answer of a node at a time.
    pub fn on_answer(&mut self, now_ms: u64, block_time_ms: u64) -> (r: Sample)
        ensures
            final(self).prev_block_time == Some(block_time_ms),
            r.collected_at_ms == capped(now_ms),
            r.block_time_ms == capped(block_time_ms),
            r.lag_s == lag_of(now_ms, block_time_ms),
            r.lag_seconds == capped(r.lag_s),
            r.advance == advanced(old(self).prev_block_time, block_time_ms),
            r.advance_ms == advance_ms_of(r.advance),
            r.status@ == status_of(r.lag_s),
    {
        let lag_s: u64 = if now_ms >= block_time_ms {
            (now_ms - block_time_ms) / 1_000
        } else {
            0
        };
        let advance = match self.prev_block_time {
            None => Advance::FirstCheck,
            Some(p) => if block_time_ms > p {
                Advance::By { ms: block_time_ms - p }
            } else {
                Advance::Stalled
            },
        };
        let advance_ms: Option<i64> = match advance {
            Advance::FirstCheck => None,
            Advance::Stalled => Some(0),
            Advance::By { ms } => Some(to_i64(ms)),
        };
        self.prev_block_time = Some(block_time_ms);
        Sample {
            collected_at_ms: to_i64(now_ms),
            block_time_ms: to_i64(block_time_ms),
            lag_s,
            lag_seconds: to_i64(lag_s),
            advance,
            advance_ms,
            status: classify_status(lag_s),
        }
    }
}

// ── Series ───────────────────────────────────────────────────────────────

/// The window and the number of samples that are asked for.
#[derive(Debug, Clone, Copy, PartialEq, Eq, Structural)]
pub struct SeriesWindow {
    pub minutes: u32,
    pub limit: u32,
}

/// The number, moved into the range.
pub open spec fn between(n: u32, lo: u32, hi: u32) -> u32 {
    if n < lo {
        lo
    } else if n > hi {
        hi
    } else {
        n
    }
}

fn clamp(n: u32, lo: u32, hi: u32) -> (r: u32)
    ensures
        r == between(n, lo, hi),
{
    if n < lo {
        lo
    } else if n > hi {
        hi
    } else {
        n
    }
}

/// The window and the number of samples that a request stands for: an hour and two thousand where it
/// does not say, at most thirty days, and from fifty to ten thousand samples.
pub fn resolve_series_query(minutes: Option<u32>, limit: Option<u32>) -> (r: SeriesWindow)
    ensures
        r.minutes == between(
            match minutes {
                Some(m) => m,
                None => 60,
            },
            1,
            43_200,
        ),
        r.limit == between(
            match limit {
                Some(l) => l,
                None => 2_000,
            },
            50,
            10_000,
        ),
{
    let m: u32 = match minutes {
        Some(m) => m,
        None => 60,
    };
    let l: u32 = match limit {
        Some(l) => l,
        None => 2_000,
    };
    SeriesWindow { minutes: clamp(m, 1, 43_200), limit: clamp(l, 50, 10_000) }
}

/// The time from which samples are shown.
pub fn cutoff_ms(now_ms: i64, minutes: u32) -> (r: i64)
    ensures
        r == if now_ms - minutes * 60_000 < i64::MIN {
            i64::MIN as int
        } else {
            now_ms - minutes * 60_000
        },
{
    let span: i64 = minutes as i64 * 60_000;
    if now_ms < i64::MIN + span {
        i64::MIN
    } else {
        now_ms - span
    }
}

/// What a stored sample tells: the time by which the node was behind, and whether it did not answer.
pub struct Reading {
    pub lag_seconds: Option<i64>,
    pub status: String,
}

/// The lags that are known of the first `n` readings.
pub open spec fn known_lags(rs: Seq<Reading>, n: int) -> Seq<i64>
    decreases n,
{
    if n <= 0 {
        Seq::empty()
    } else {
        match rs[n - 1].lag_seconds {
            Some(l) => known_lags(rs, n - 1).push(l),
            None => known_lags(rs, n - 1),
        }
    }
}

/// The number of the first `n` readings at which the node did not answer.
pub open spec fn down_count(rs: Seq<Reading>, n: int) -> int
    decreases n,
{
    if n <= 0 {
        0
    } else {
        down_count(rs, n - 1) + if rs[n - 1].status@ == DOWN@ {
            1int
        } else {
            0
        }
    }
}

/// The sum of the first `n` numbers, wrapping around.
pub open spec fn wrapped_sum(v: Seq<i64>, n: int) -> i64
    decreases n,
{
    if n <= 0 {
        0
    } else {
        wrapped_sum(v, n - 1).wrapping_add(v[n - 1])
    }
}

/// Whether the numbers go up.
pub open spec fn going_up(v: Seq<i64>) -> bool {
    forall|i: int, j: int| 0 <= i <= j < v.len() ==> v[i] <= v[j]
}

/// Whether a list is another in order.
pub open spec fn sorts(v: Seq<i64>, s: Seq<i64>) -> bool {
    going_up(s) && s.to_multiset() == v.to_multiset() && s.len() == v.len()
}

/// Where the 95th percentile of so many numbers in order stands.
pub open spec fn p95_place(n: int) -> int {
    (19 * n + 19) / 20 - 1
}

/// A summary of readings. The average is given by the sum and the number of the lags.
pub struct Summary {
    pub total_samples: usize,
    pub ok_samples: usize,
    pub down_samples: usize,
    pub lag_count: usize,
    pub lag_sum: i64,
    pub p95_lag_seconds: Option<i64>,
    pub max_lag_seconds: Option<i64>,
}

fn sorted(v: &Vec<i64>) -> (s: Vec<i64>)
    ensures
        sorts(v@, s@),
{
    broadcast use vstd::seq_lib::group_to_multiset_ensures;

    let mut s: Vec<i64> = Vec::new();
    let mut i: usize = 0;
    assert(v@.take(0) =~= s@);
    while i < v.len()
        invariant
            i <= v@.len(),
            s@.len() == i,
            going_up(s@),
            s@.to_multiset() == v@.take(i as int).to_multiset(),
        decreases v@.len() - i,
    {
        broadcast use vstd::seq_lib::group_to_multiset_ensures;

        let x: i64 = v[i];
        let mut p: usize = s.len();
        while p > 0 && s[p - 1] > x
            invariant
                p <= s@.len(),
                going_up(s@),
                forall|j: int| p <= j < s@.len() ==> s@[j] > x,
            decreases p,
        {
            p = p - 1;
        }
        let ghost was = s@;
        s.insert(p, x);
        proof {
            assert(s@.remove(p as int) =~= was);
            assert(s@.to_multiset().remove(x) =~= was.to_multiset());
            assert(s@.contains(s@[p as int]));
            assert(s@.to_multiset().count(x) > 0);
            assert(s@.to_multiset() =~= was.to_multiset().insert(x));
            assert(v@.take(i + 1) =~= v@.take(i as int).push(x));
        }
        i = i + 1;
    }
    assert(v@.take(v@.len() as int) =~= v@);
    s
}

/// Sums readings up.
pub fn build_summary(readings: &Vec<Reading>) -> (r: Summary)
    ensures
        ({
            let n = readings@.len() as int;
            let lags = known_lags(readings@, n);
            &&& r.total_samples == n
            &&& r.down_samples == down_count(readings@, n)
            &&& r.ok_samples == n - r.down_samples
            &&& r.lag_count == lags.len()
            &&& r.lag_sum == wrapped_sum(lags, lags.len() as int)
            &&& exists|s: Seq<i64>| #[trigger]
                sorts(lags, s) && (if s.len() == 0 {
                    r.p95_lag_seconds is None && r.max_lag_seconds is None
                } else {
                    r.p95_lag_seconds == Some(s[p95_place(s.len() as int)]) && r.max_lag_seconds
                        == Some(s.last())
                })
        }),
{
    let mut lags: Vec<i64> = Vec::new();
    let mut sum: i64 = 0;
    let mut down: usize = 0;
    let mut i: usize = 0;
    while i < readings.len()
        invariant
            i <= readings@.len(),
            lags@ == known_lags(readings@, i as int),
            sum == wrapped_sum(lags@, lags@.len() as int),
            down == down_count(readings@, i as int),
            down <= i,
            lags@.len() <= i,
        decreases readings@.len() - i,
    {
        let x = &readings[i];
        if let Some(l) = x.lag_seconds {
            let ghost was = lags@;
            lags.push(l);
            proof {
                lemma_sum_of_prefix(was, lags@, was.len() as int);
            }
            sum = sum.wrapping_add(l);
        }
        if str_eq(x.status.as_str(), DOWN) {
            down = down + 1;
        }
        i = i + 1;
    }
    let s = sorted(&lags);
    let n: usize = s.len();
    let p95: Option<i64> = if n == 0 {
        None
    } else {
        let place: u128 = (19 * n as u128 + 19) / 20 - 1;
        assert(place == p95_place(n as int));
        assert(place < n);
        Some(s[place as usize])
    };
    let most: Option<i64> = if n == 0 {
        None
    } else {
        Some(s[n - 1])
    };
    let total: usize = readings.len();
    proof {
        assert(sorts(lags@, s@));
    }
    Summary {
        total_samples: total,
        ok_samples: total - down,
        down_samples: down,
        lag_count: n,
        lag_sum: sum,
        p95_lag_seconds: p95,
        max_lag_seconds: most,
    }
}

proof fn lemma_sum_of_prefix(a: Seq<i64>, b: Seq<i64>, n: int)
    requires
        0 <= n <= a.len() <= b.len(),
        forall|i: int| 0 <= i < a.len() ==> a[i] == b[i],
    ensures
        wrapped_sum(a, n) == wrapped_sum(b, n),
    decreases n,
{
    if n > 0 {
        lemma_sum_of_prefix(a, b, n - 1);
    }
}

// ── Laws ─────────────────────────────────────────────────────────────────

/// Every reading is counted once: the node answered, or it did not.
pub proof fn law_readings_are_counted(rs: Seq<Reading>, n: int)
    requires
        0 <= n <= rs.len(),
    ensures
        0 <= down_count(rs, n) <= n,
        known_lags(rs, n).len() <= n,
    decreases n,
{
    if n > 0 {
        law_readings_are_counted(rs, n - 1);
    }
}

/// At least ninety-five of a hundred lags are no greater than the 95th percentile.
pub proof fn law_p95_covers(s: Seq<i64>)
    requires
        going_up(s),
        s.len() > 0,
    ensures
        0 <= p95_place(s.len() as int) < s.len(),
        100 * (p95_place(s.len() as int) + 1) >= 95 * s.len(),
        forall|i: int| 0 <= i <= p95_place(s.len() as int) ==> (#[trigger] s[i]) <= s[p95_place(s.len() as int)],
{
}

} // verus!

//! Requests for the totals of users.
use crate::referral::address::{address_string, parse_address, Address};
use crate::referral::stats_db::UserStats;
use crate::text::{push_text, wide_string};
use vstd::prelude::*;

verus! {

// ── Dates ────────────────────────────────────────────────────────────────

/// How dates are written: YYYY-MM-DD.
pub const DAY_FORMAT: &'static str = "%Y-%m-%d";

/// The number of 1970-01-01, counted from 0001-01-01 as day 1.
pub const EPOCH_DAY: i32 = 719_163;

/// The number, counted from 0001-01-01 as day 1, of the date that a text gives when it is read by a
/// format.
pub uninterp spec fn day_read(text: Seq<char>, format: Seq<char>) -> Option<i32>;

/// The text of the date with a number, counted from 0001-01-01 as day 1, written by a format; nothing
/// where there is no such date.
pub uninterp spec fn day_shown(number: i32, format: Seq<char>) -> Option<Seq<char>>;

/// Calls `NaiveDate::parse_from_str` of `chrono`, and `Datelike::num_days_from_ce` for the number of
/// the date. The result is named `day_read`.
#[verifier::external_body]
fn read_day(text: &str, format: &str) -> (r: Option<i32>)
    ensures
        r == day_read(text@, format@),
{
    chrono::NaiveDate::parse_from_str(text, format).ok().map(|d| chrono::Datelike::num_days_from_ce(&d))
}

/// Calls `NaiveDate::from_num_days_from_ce_opt` of `chrono` for the date with a number, and
/// `NaiveDate::format`. The result is named `day_shown`. A format that `chrono` does not know is left
/// out: it cannot be written.
#[verifier::external_body]
fn show_day(number: i32, format: &str) -> (r: Option<String>)
    requires
        format@ == DAY_FORMAT@,
    ensures
        crate::json::text_opt(r) == day_shown(number, format@),
{
    chrono::NaiveDate::from_num_days_from_ce_opt(number).map(|d| d.format(format).to_string())
}

/// The day, in days since 1970, of a date with a number; dates before 1970 have none.
pub open spec fn day_in_range(number: Option<i32>) -> Option<u32> {
    match number {
        Some(n) => if n >= EPOCH_DAY {
            Some((n - EPOCH_DAY) as u32)
        } else {
            None
        },
        None => None,
    }
}

/// The day of a date with a number.
pub fn day_from(number: Option<i32>) -> (r: Option<u32>)
    ensures
        r == day_in_range(number),
{
    match number {
        Some(n) => if n >= EPOCH_DAY {
            Some((n - EPOCH_DAY) as u32)
        } else {
            None
        },
        None => None,
    }
}

/// The number of the date of a day, where numbers go so far.
pub open spec fn number_of(day: u32) -> Option<i32> {
    if day + EPOCH_DAY <= i32::MAX {
        Some((day + EPOCH_DAY) as i32)
    } else {
        None
    }
}

/// The number of the date of a day.
pub fn number_from(day: u32) -> (r: Option<i32>)
    ensures
        r == number_of(day),
{
    let n: i64 = day as i64 + EPOCH_DAY as i64;
    if n <= i32::MAX as i64 {
        Some(n as i32)
    } else {
        None
    }
}

/// The day, in days since 1970, of a date of the form YYYY-MM-DD.
pub fn parse_epoch_day(s: &str) -> (r: Option<u32>)
    ensures
        r == day_in_range(day_read(s@, DAY_FORMAT@)),
{
    day_from(read_day(s, DAY_FORMAT))
}

/// The date of a day, in the form YYYY-MM-DD.
pub fn epoch_day_to_date(day: u32) -> (r: Option<String>)
    ensures
        crate::json::text_opt(r) == match number_of(day) {
            Some(n) => day_shown(n, DAY_FORMAT@),
            None => None,
        },
{
    match number_from(day) {
        Some(n) => show_day(n, DAY_FORMAT),
        None => None,
    }
}

/// A day and the number of its date go with each other.
pub proof fn law_day_numbers_round_trip(day: u32)
    ensures
        number_of(day) is Some ==> day_in_range(number_of(day)) == Some(day),
{
}

// ── Daily rows ───────────────────────────────────────────────────────────

/// The first and last day of a report, YYYY-MM-DD. Without them, the last thirty days.
pub struct DailyQuery {
    pub from: Option<String>,
    pub to: Option<String>,
}

/// The range of a report, from the days that its bounds give: `None` for a bound that is absent,
/// `Some(None)` for one that is no date.
pub open spec fn range_of(from: Option<Option<u32>>, to: Option<Option<u32>>, today: u32) -> Result<
    (u32, u32),
    Seq<char>,
> {
    match to {
        Some(None) => Err("invalid `to` date, want YYYY-MM-DD"@),
        _ => {
            let last = match to {
                Some(Some(d)) => d,
                _ => today,
            };
            match from {
                Some(None) => Err("invalid `from` date, want YYYY-MM-DD"@),
                _ => {
                    let first = match from {
                        Some(Some(d)) => d,
                        _ => if last >= 29 {
                            (last - 29) as u32
                        } else {
                            0
                        },
                    };
                    if first > last {
                        Err("`from` is after `to`"@)
                    } else {
                        Ok((first, last))
                    }
                },
            }
        },
    }
}

/// Whether an outcome is as it should be.
pub open spec fn outcome_is(
    r: Result<(u32, u32), &'static str>,
    want: Result<(u32, u32), Seq<char>>,
) -> bool {
    match (r, want) {
        (Ok(a), Ok(b)) => a == b,
        (Err(a), Err(b)) => a@ == b,
        _ => false,
    }
}

/// The range of a report, from the days that its bounds give.
pub fn report_range(from: Option<Option<u32>>, to: Option<Option<u32>>, today: u32) -> (r: Result<
    (u32, u32),
    &'static str,
>)
    ensures
        outcome_is(r, range_of(from, to, today)),
{
    let last: u32 = match to {
        Some(Some(d)) => d,
        Some(None) => {
            return Err("invalid `to` date, want YYYY-MM-DD");
        },
        None => today,
    };
    let first: u32 = match from {
        Some(Some(d)) => d,
        Some(None) => {
            return Err("invalid `from` date, want YYYY-MM-DD");
        },
        None => last.saturating_sub(29),
    };
    if first > last {
        return Err("`from` is after `to`");
    }
    Ok((first, last))
}

/// The day of a bound, where there is one.
pub open spec fn bound_of(o: Option<String>) -> Option<Option<u32>> {
    match o {
        Some(s) => Some(day_in_range(day_read(s@, DAY_FORMAT@))),
        None => None,
    }
}

/// The days that a report on a user covers.
pub fn daily_range(q: &DailyQuery, today: u32) -> (r: Result<(u32, u32), &'static str>)
    ensures
        outcome_is(r, range_of(bound_of(q.from), bound_of(q.to), today)),
{
    let to: Option<Option<u32>> = match &q.to {
        Some(s) => Some(parse_epoch_day(s.as_str())),
        None => None,
    };
    let from: Option<Option<u32>> = match &q.from {
        Some(s) => Some(parse_epoch_day(s.as_str())),
        None => None,
    };
    report_range(from, to, today)
}

/// The user that a request names.
pub fn user_request(addr: &str) -> (r: Result<Address, &'static str>)
    ensures
        match crate::referral::address::address_in(addr@) {
            Some(a) => r is Ok && r->Ok_0@ == a,
            None => r is Err && r->Err_0@ == "invalid address"@,
        },
{
    match parse_address(addr) {
        Some(a) => Ok(a),
        None => Err("invalid address"),
    }
}

// ── Top users ────────────────────────────────────────────────────────────

pub struct TopQuery {
    pub limit: Option<usize>,
}

/// How many users a request for the top ones gets: a hundred where it does not say, at least one and
/// at most a thousand.
pub fn top_limit(q: &TopQuery) -> (r: usize)
    ensures
        r == (match q.limit {
            None => 100,
            Some(n) => if n < 1 {
                1
            } else if n > 1000 {
                1000
            } else {
                n as int
            },
        }),
{
    let n: usize = match q.limit {
        Some(n) => n,
        None => 100,
    };
    if n < 1 {
        1
    } else if n > 1000 {
        1000
    } else {
        n
    }
}

// ── Accruals ─────────────────────────────────────────────────────────────

/// One user of a request for accruals: with `from`, the days from that date on count; without it,
/// all time does.
pub struct AccrualUser {
    pub address: String,
    pub from: Option<String>,
}

pub struct AccrualBatch {
    pub users: Vec<AccrualUser>,
}

/// The largest number of users that one request may ask for.
pub const MAX_ACCRUAL_USERS: usize = 1000;

/// What an accrual is summed up from.
#[derive(Debug, Clone, Copy, PartialEq, Eq, Structural)]
pub enum AccrualSpan {
    /// The row of the user.
    AllTime,
    /// The daily rows between the two days.
    Days(u32, u32),
    /// Nothing: the first day is still to come.
    Nothing,
}

/// The span of an accrual, from the day that its bound gives.
pub open spec fn span_of(from: Option<u32>, today: u32) -> AccrualSpan {
    match from {
        None => AccrualSpan::AllTime,
        Some(d) => if d <= today {
            AccrualSpan::Days(d, today)
        } else {
            AccrualSpan::Nothing
        },
    }
}

/// The span of an accrual, from the day that its bound gives.
pub fn accrual_span(from: Option<u32>, today: u32) -> (r: AccrualSpan)
    ensures
        r == span_of(from, today),
{
    match from {
        None => AccrualSpan::AllTime,
        Some(d) => if d <= today {
            AccrualSpan::Days(d, today)
        } else {
            AccrualSpan::Nothing
        },
    }
}

/// The user and the span that one entry of a request asks for, or why it is refused.
pub fn accrual_request(u: &AccrualUser, today: u32) -> (r: Result<(Address, AccrualSpan), String>)
    ensures
        match crate::referral::address::address_in(u.address@) {
            None => r is Err && r->Err_0@ == "invalid address: "@ + u.address@,
            Some(a) => match u.from {
                None => r is Ok && r->Ok_0.0@ == a && r->Ok_0.1 == AccrualSpan::AllTime,
                Some(s) => match day_in_range(day_read(s@, DAY_FORMAT@)) {
                    Some(d) => r is Ok && r->Ok_0.0@ == a && r->Ok_0.1 == span_of(Some(d), today),
                    None => r is Err && r->Err_0@ == "invalid `from` date: "@ + s@,
                },
            },
        },
{
    let addr = match parse_address(u.address.as_str()) {
        Some(a) => a,
        None => {
            let mut e = "invalid address: ".to_owned();
            push_text(&mut e, u.address.as_str());
            return Err(e);
        },
    };
    match &u.from {
        None => Ok((addr, accrual_span(None, today))),
        Some(s) => match parse_epoch_day(s.as_str()) {
            Some(d) => Ok((addr, accrual_span(Some(d), today))),
            None => {
                let mut e = "invalid `from` date: ".to_owned();
                push_text(&mut e, s.as_str());
                Err(e)
            },
        },
    }
}

/// Whether a request asks for too many users.
pub fn too_many_users(batch: &AccrualBatch) -> (r: bool)
    ensures
        r == (batch.users@.len() > MAX_ACCRUAL_USERS),
{
    batch.users.len() > MAX_ACCRUAL_USERS
}

/// What a user accrued.
#[derive(Debug, Clone, Copy, PartialEq, Eq, Structural)]
pub struct Accrual {
    pub builder_fees: u128,
    pub volume: u128,
    pub fill_count: u64,
    pub last_update_ms: u64,
}

/// What the first `n` rows add up to.
pub open spec fn accrued(rows: Seq<UserStats>, n: int) -> Accrual
    decreases n,
{
    if n <= 0 {
        Accrual { builder_fees: 0, volume: 0, fill_count: 0, last_update_ms: 0 }
    } else {
        let a = accrued(rows, n - 1);
        let s = rows[n - 1];
        Accrual {
            builder_fees: crate::bytes::capped_sum(a.builder_fees, s.builder_fees_quote_e8),
            volume: crate::bytes::capped_sum(a.volume, s.volume_quote_e8),
            fill_count: if a.fill_count + s.fill_count <= u64::MAX {
                (a.fill_count + s.fill_count) as u64
            } else {
                u64::MAX
            },
            last_update_ms: if s.last_update_ms > a.last_update_ms {
                s.last_update_ms
            } else {
                a.last_update_ms
            },
        }
    }
}

/// What rows add up to: the daily rows of a span, or the row of the user alone.
pub fn accrual_of(rows: &Vec<UserStats>) -> (r: Accrual)
    ensures
        r == accrued(rows@, rows@.len() as int),
{
    let mut a = Accrual { builder_fees: 0, volume: 0, fill_count: 0, last_update_ms: 0 };
    let mut i: usize = 0;
    while i < rows.len()
        invariant
            i <= rows@.len(),
            a == accrued(rows@, i as int),
        decreases rows@.len() - i,
    {
        let s = &rows[i];
        a = Accrual {
            builder_fees: a.builder_fees.saturating_add(s.builder_fees_quote_e8),
            volume: a.volume.saturating_add(s.volume_quote_e8),
            fill_count: a.fill_count.saturating_add(s.fill_count),
            last_update_ms: if s.last_update_ms > a.last_update_ms {
                s.last_update_ms
            } else {
                a.last_update_ms
            },
        };
        i = i + 1;
    }
    a
}

/// What is reported of the accrual of a user; the sums as text.
pub struct AccrualEntry {
    pub address: String,
    pub builder_fees_quote_e8: String,
    pub volume_quote_e8: String,
    pub fill_count: u64,
    pub last_update_ms: u64,
}

/// What is reported of the accrual of a user.
pub fn accrual_entry(addr: &Address, a: Accrual) -> (r: AccrualEntry)
    ensures
        r.address@ == crate::referral::address::address_text(addr@),
        r.builder_fees_quote_e8@ == crate::text::decimal_text(a.builder_fees as nat),
        r.volume_quote_e8@ == crate::text::decimal_text(a.volume as nat),
        r.fill_count == a.fill_count,
        r.last_update_ms == a.last_update_ms,
{
    AccrualEntry {
        address: address_string(addr),
        builder_fees_quote_e8: wide_string(a.builder_fees),
        volume_quote_e8: wide_string(a.volume),
        fill_count: a.fill_count,
        last_update_ms: a.last_update_ms,
    }
}

} // verus!

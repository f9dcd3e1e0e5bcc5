//! Adding fills to the totals of their strategies.
//!
//! Whether a fill is counted at all is decided where fills are counted by user; for every fill that
//! is, the client order id of its order is looked at here.
use crate::daykeys::push_day;
use crate::rows::RowMap;
use crate::strategy::stats_db::{cum_key, decode_strategy_cloid, StrategyModel, StrategyStats};
use vstd::prelude::*;

verus! {

pub const MS_PER_DAY: u64 = 86_400_000;

/// The day of a time, in days since 1970.
pub open spec fn day_at(ms: u64) -> u32 {
    (ms / MS_PER_DAY) as u32
}

/// The day of a time, in days since 1970.
pub fn epoch_day(ms: u64) -> (r: u32)
    ensures
        r == day_at(ms),
{
    #[verifier::truncate]
    let r: u32 = (ms / MS_PER_DAY) as u32;
    r
}

/// The keys of the two rows that a fill counts on: that of its strategy, and that of the strategy and
/// the day. None for a fill without the id of a strategy's order.
pub open spec fn rows_of(cloid: Option<Seq<char>>, ms: u64) -> Option<(Seq<u8>, Seq<u8>)> {
    match cloid {
        Some(c) => match crate::strategy::stats_db::key_in_cloid(c) {
            Some(k) => Some((k, crate::daykeys::day_key(k, day_at(ms)))),
            None => None,
        },
        None => None,
    }
}

/// What an optional text is.
pub open spec fn str_opt(o: Option<&str>) -> Option<Seq<char>> {
    match o {
        Some(s) => Some(s@),
        None => None,
    }
}

/// The keys of the two rows that a fill counts on.
pub fn strategy_row_keys(cloid: Option<&str>, block_ms: u64) -> (r: Option<(Vec<u8>, Vec<u8>)>)
    ensures
        match (rows_of(str_opt(cloid), block_ms), r) {
            (Some((a, b)), Some(found)) => found.0@ == a && found.1@ == b,
            (None, None) => true,
            _ => false,
        },
{
    let id = match cloid {
        Some(c) => c,
        None => {
            return None;
        },
    };
    let key = match decode_strategy_cloid(id) {
        Some(k) => k,
        None => {
            return None;
        },
    };
    let total = cum_key(&key);
    let mut a: Vec<u8> = Vec::new();
    crate::bytes::push_bytes(&mut a, total.as_slice());
    assert(a@ =~= key@);
    let mut b: Vec<u8> = Vec::new();
    crate::bytes::push_bytes(&mut b, total.as_slice());
    assert(b@ =~= key@);
    push_day(&mut b, epoch_day(block_ms));
    Some((a, b))
}

/// What a row of the store holds; nothing where there is none.
pub open spec fn stored_view(o: Option<StrategyStats>) -> StrategyModel {
    match o {
        Some(s) => s@,
        None => StrategyModel::none(),
    }
}

/// The rows, with one more fill on one of them. A row that is not among them yet starts from what the
/// store holds.
pub open spec fn with_fill_on(
    m: Map<Seq<u8>, StrategyModel>,
    key: Seq<u8>,
    stored: StrategyModel,
    notional: u128,
    fee: u128,
    user: Seq<char>,
    ms: u64,
    track: bool,
) -> Map<Seq<u8>, StrategyModel> {
    m.insert(
        key,
        (if m.contains_key(key) {
            m[key]
        } else {
            stored
        }).with_fill(notional, fee, user, ms, track),
    )
}

fn add_fill(
    by_key: &mut RowMap<StrategyStats>,
    key: Vec<u8>,
    stored: Option<StrategyStats>,
    notional_e8: u128,
    builder_fee_e8: u128,
    user_lower: &str,
    block_ms: u64,
    track_users: bool,
)
    ensures
        final(by_key)@ == with_fill_on(
            old(by_key)@,
            key@,
            stored_view(stored),
            notional_e8,
            builder_fee_e8,
            user_lower@,
            block_ms,
            track_users,
        ),
{
    match by_key.get_mut(key.as_slice()) {
        Some(row) => {
            row.accumulate(notional_e8, builder_fee_e8, user_lower, block_ms, track_users);
        },
        None => {
            let mut row = match stored {
                Some(s) => s,
                None => StrategyStats::default(),
            };
            row.accumulate(notional_e8, builder_fee_e8, user_lower, block_ms, track_users);
            by_key.add(key, row);
        },
    }
}

/// Adds a fill that is counted to the rows of its strategy: the total, which keeps the users, and the
/// day, which does not. `stored_total` and `stored_day` are what the store holds under the two keys.
/// A fill without the id of a strategy's order adds nothing.
pub fn accumulate_strategy_fill(
    by_key: &mut RowMap<StrategyStats>,
    stored_total: Option<StrategyStats>,
    stored_day: Option<StrategyStats>,
    cloid: Option<&str>,
    notional_e8: u128,
    user_lower: &str,
    block_ms: u64,
    builder_fee_e8: u128,
)
    ensures
        final(by_key)@ == (match rows_of(str_opt(cloid), block_ms) {
            Some((total, day)) => with_fill_on(
                with_fill_on(
                    old(by_key)@,
                    total,
                    stored_view(stored_total),
                    notional_e8,
                    builder_fee_e8,
                    user_lower@,
                    block_ms,
                    true,
                ),
                day,
                stored_view(stored_day),
                notional_e8,
                builder_fee_e8,
                user_lower@,
                block_ms,
                false,
            ),
            None => old(by_key)@,
        }),
{
    if let Some((total, day)) = strategy_row_keys(cloid, block_ms) {
        add_fill(
            by_key,
            total,
            stored_total,
            notional_e8,
            builder_fee_e8,
            user_lower,
            block_ms,
            true,
        );
        add_fill(
            by_key,
            day,
            stored_day,
            notional_e8,
            builder_fee_e8,
            user_lower,
            block_ms,
            false,
        );
    }
}

/// A fill counts alike on the row of its strategy and on that of the day: volume, fees and number of
/// fills grow by the same.
pub proof fn law_rows_grow_together(
    total: StrategyModel,
    day: StrategyModel,
    notional: u128,
    fee: u128,
    user: Seq<char>,
    ms: u64,
)
    requires
        total.volume_quote_e8 + notional <= u128::MAX,
        day.volume_quote_e8 + notional <= u128::MAX,
        total.builder_fees_quote_e8 + fee <= u128::MAX,
        day.builder_fees_quote_e8 + fee <= u128::MAX,
        total.fill_count < u64::MAX,
        day.fill_count < u64::MAX,
    ensures
        ({
            let t = total.with_fill(notional, fee, user, ms, true);
            let d = day.with_fill(notional, fee, user, ms, false);
            t.volume_quote_e8 - total.volume_quote_e8 == d.volume_quote_e8 - day.volume_quote_e8
                && t.builder_fees_quote_e8 - total.builder_fees_quote_e8 == d.builder_fees_quote_e8
                - day.builder_fees_quote_e8 && t.fill_count - total.fill_count == d.fill_count
                - day.fill_count && t.unique_users.contains(user) && d.unique_users
                == day.unique_users
        }),
{
}

} // verus!

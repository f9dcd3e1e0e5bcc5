//! Adding fills to the totals of their users.
use crate::daykeys::push_day;
use crate::referral::address::{address_string, parse_address, Address};
use crate::referral::referrer_tracker::ReferrerTracker;
use crate::referral::stats_db::{add_to_token_map, UserModel, UserStats};
use crate::rows::RowMap;
use crate::strategy::aggregator::{accumulate_strategy_fill, epoch_day};
use crate::strategy::stats_db::StrategyStats;
use vstd::prelude::*;

verus! {

pub const FLAG_REFERRAL: u8 = 1;

pub const FLAG_BUILDER: u8 = 2;

/// A fill, with its amounts in 8 decimals.
pub struct FillRecord {
    pub addr: Address,
    /// The builder address that the fill carries.
    pub builder: Option<String>,
    /// The builder fee that comes with the fill; zero where it is missing or not positive.
    pub builder_fee_e8: u128,
    pub cloid: Option<String>,
    /// Price times size; zero where that is not a positive number.
    pub notional_e8: u128,
    pub fee_token: String,
    /// The fee; absent where it is zero or not a number.
    pub fee_e8: Option<i128>,
    /// The part of the fee that is paid out as referral reward.
    pub reward_e8: i128,
}

/// Whether a fill carries our builder address.
pub open spec fn carries(builder: Option<String>, target: Seq<u8>) -> bool {
    match builder {
        Some(b) => crate::referral::address::address_in(b@) == Some(target),
        None => false,
    }
}

/// Whether a fill carries our builder address.
pub fn is_our_builder(builder: &Option<String>, target: &Address) -> (r: bool)
    ensures
        r == carries(*builder, target@),
{
    match builder {
        Some(b) => match parse_address(b.as_str()) {
            Some(a) => crate::bytes::same_bytes(a.as_slice(), target.as_slice()),
            None => false,
        },
        None => false,
    }
}

/// What a fill counts as: by the referral set, by our builder.
#[derive(Debug, Clone, Copy, PartialEq, Eq, Structural)]
pub struct Attribution {
    pub referral: bool,
    pub builder: bool,
}

impl Attribution {
    /// The flags of the totals for what a fill counts as.
    pub open spec fn flags(self) -> u8 {
        if self.referral && self.builder {
            3
        } else if self.referral {
            FLAG_REFERRAL
        } else if self.builder {
            FLAG_BUILDER
        } else {
            0
        }
    }
}

/// What a fill counts as.
pub open spec fn attribution(members: Set<Seq<char>>, target: Seq<u8>, f: FillRecord) -> Attribution {
    Attribution {
        referral: members.contains(crate::referral::address::address_text(f.addr@)),
        builder: carries(f.builder, target),
    }
}

/// The totals with one more fill.
pub open spec fn with_fill(s: UserModel, f: FillRecord, ms: u64, a: Attribution) -> UserModel {
    UserModel {
        volume_quote_e8: crate::bytes::capped_sum(s.volume_quote_e8, f.notional_e8),
        builder_volume_quote_e8: if a.builder {
            crate::bytes::capped_sum(s.builder_volume_quote_e8, f.notional_e8)
        } else {
            s.builder_volume_quote_e8
        },
        fees_by_token: match f.fee_e8 {
            Some(fee) => crate::referral::stats_db::with_amount(
                s.fees_by_token,
                f.fee_token@,
                fee,
            ),
            None => s.fees_by_token,
        },
        referral_fees_by_token: if f.fee_e8 is Some && a.referral && f.reward_e8 != 0 {
            crate::referral::stats_db::with_amount(
                s.referral_fees_by_token,
                f.fee_token@,
                f.reward_e8,
            )
        } else {
            s.referral_fees_by_token
        },
        builder_fees_quote_e8: if a.builder {
            crate::bytes::capped_sum(s.builder_fees_quote_e8, f.builder_fee_e8)
        } else {
            s.builder_fees_quote_e8
        },
        fill_count: if s.fill_count < u64::MAX {
            (s.fill_count + 1) as u64
        } else {
            u64::MAX
        },
        last_update_ms: ms,
        match_flags: s.match_flags | a.flags(),
    }
}

/// Adds a fill to totals.
pub fn accumulate(stats: &mut UserStats, fill: &FillRecord, block_ms: u64, a: Attribution)
    ensures
        final(stats)@ == with_fill(old(stats)@, *fill, block_ms, a),
{
    stats.volume_quote_e8 = stats.volume_quote_e8.saturating_add(fill.notional_e8);
    if a.builder {
        stats.builder_volume_quote_e8 =
        stats.builder_volume_quote_e8.saturating_add(fill.notional_e8);
        stats.builder_fees_quote_e8 =
        stats.builder_fees_quote_e8.saturating_add(fill.builder_fee_e8);
    }
    if let Some(fee) = fill.fee_e8 {
        add_to_token_map(&mut stats.fees_by_token, fill.fee_token.as_str(), fee);
        if a.referral && fill.reward_e8 != 0 {
            add_to_token_map(
                &mut stats.referral_fees_by_token,
                fill.fee_token.as_str(),
                fill.reward_e8,
            );
        }
    }
    stats.fill_count = stats.fill_count.saturating_add(1);
    stats.last_update_ms = block_ms;
    let flags: u8 = if a.referral && a.builder {
        3
    } else if a.referral {
        FLAG_REFERRAL
    } else if a.builder {
        FLAG_BUILDER
    } else {
        0
    };
    stats.match_flags = stats.match_flags | flags;
}

/// What a row of the store holds; nothing where there is none.
pub open spec fn stored_view(o: Option<UserStats>) -> UserModel {
    match o {
        Some(s) => s@,
        None => UserModel::none(),
    }
}

/// The rows, with one more fill on one of them. A row that is not among them yet starts from what the
/// store holds.
pub open spec fn with_fill_on(
    m: Map<Seq<u8>, UserModel>,
    key: Seq<u8>,
    stored: UserModel,
    f: FillRecord,
    ms: u64,
    a: Attribution,
) -> Map<Seq<u8>, UserModel> {
    m.insert(
        key,
        with_fill(
            if m.contains_key(key) {
                m[key]
            } else {
                stored
            },
            f,
            ms,
            a,
        ),
    )
}

fn add_fill(
    by_key: &mut RowMap<UserStats>,
    key: Vec<u8>,
    stored: Option<UserStats>,
    fill: &FillRecord,
    block_ms: u64,
    a: Attribution,
)
    ensures
        final(by_key)@ == with_fill_on(
            old(by_key)@,
            key@,
            stored_view(stored),
            *fill,
            block_ms,
            a,
        ),
{
    match by_key.get_mut(key.as_slice()) {
        Some(row) => {
            accumulate(row, fill, block_ms, a);
        },
        None => {
            let mut row = match stored {
                Some(s) => s,
                None => UserStats::default(),
            };
            accumulate(&mut row, fill, block_ms, a);
            by_key.add(key, row);
        },
    }
}

/// What a fill counts as.
pub fn attribute(tracker: &ReferrerTracker, target: &Address, fill: &FillRecord) -> (r: Attribution)
    ensures
        r == attribution(tracker@.users, target@, *fill),
{
    let user = address_string(&fill.addr);
    Attribution {
        referral: tracker.is_tracked(user.as_str()),
        builder: is_our_builder(&fill.builder, target),
    }
}

/// The keys of the two rows of a user that a fill counts on: that of the user, and that of the user
/// and the day.
pub fn user_row_keys(addr: &Address, block_ms: u64) -> (r: (Vec<u8>, Vec<u8>))
    ensures
        r.0@ == addr@,
        r.1@ == crate::daykeys::day_key(addr@, crate::strategy::aggregator::day_at(block_ms)),
{
    let mut a: Vec<u8> = Vec::new();
    crate::bytes::push_bytes(&mut a, addr.as_slice());
    assert(a@ =~= addr@);
    let mut b: Vec<u8> = Vec::new();
    crate::bytes::push_bytes(&mut b, addr.as_slice());
    assert(b@ =~= addr@);
    push_day(&mut b, epoch_day(block_ms));
    (a, b)
}

/// What the store holds of the rows that a fill counts on.
pub struct StoredRows {
    pub user_total: Option<UserStats>,
    pub user_day: Option<UserStats>,
    pub strategy_total: Option<StrategyStats>,
    pub strategy_day: Option<StrategyStats>,
}

/// Counts a fill of a batch: on the rows of its user, and on those of its strategy where its order is
/// one of a strategy's. A fill that neither the referral set nor our builder brings in is not counted.
/// Says whether it was.
pub fn record_fill(
    by_key: &mut RowMap<UserStats>,
    strat_by_key: &mut RowMap<StrategyStats>,
    stored: StoredRows,
    tracker: &ReferrerTracker,
    target: &Address,
    fill: &FillRecord,
    block_ms: u64,
) -> (r: bool)
    ensures
        ({
            let a = attribution(tracker@.users, target@, *fill);
            let day = crate::daykeys::day_key(
                fill.addr@,
                crate::strategy::aggregator::day_at(block_ms),
            );
            let user = crate::referral::address::address_text(fill.addr@);
            let fee = if a.builder {
                fill.builder_fee_e8
            } else {
                0u128
            };
            &&& r == (a.referral || a.builder)
            &&& !r ==> final(by_key)@ == old(by_key)@ && final(strat_by_key)@ == old(strat_by_key)@
            &&& r ==> final(by_key)@ == with_fill_on(
                with_fill_on(
                    old(by_key)@,
                    fill.addr@,
                    stored_view(stored.user_total),
                    *fill,
                    block_ms,
                    a,
                ),
                day,
                stored_view(stored.user_day),
                *fill,
                block_ms,
                a,
            )
            &&& r ==> final(strat_by_key)@ == (match crate::strategy::aggregator::rows_of(
                crate::json::text_opt(fill.cloid),
                block_ms,
            ) {
                Some((x, y)) => crate::strategy::aggregator::with_fill_on(
                    crate::strategy::aggregator::with_fill_on(
                        old(strat_by_key)@,
                        x,
                        crate::strategy::aggregator::stored_view(stored.strategy_total),
                        fill.notional_e8,
                        fee,
                        user,
                        block_ms,
                        true,
                    ),
                    y,
                    crate::strategy::aggregator::stored_view(stored.strategy_day),
                    fill.notional_e8,
                    fee,
                    user,
                    block_ms,
                    false,
                ),
                None => old(strat_by_key)@,
            })
        }),
{
    let a = attribute(tracker, target, fill);
    if !a.referral && !a.builder {
        return false;
    }
    let StoredRows { user_total, user_day, strategy_total, strategy_day } = stored;
    let user = address_string(&fill.addr);
    let fee: u128 = if a.builder {
        fill.builder_fee_e8
    } else {
        0
    };
    let cloid: Option<&str> = match &fill.cloid {
        Some(c) => Some(c.as_str()),
        None => None,
    };
    accumulate_strategy_fill(
        strat_by_key,
        strategy_total,
        strategy_day,
        cloid,
        fill.notional_e8,
        user.as_str(),
        block_ms,
        fee,
    );
    let (total, day) = user_row_keys(&fill.addr, block_ms);
    add_fill(by_key, total, user_total, fill, block_ms, a);
    add_fill(by_key, day, user_day, fill, block_ms, a);
    true
}

/// Every counted fill adds one to the number of fills; it adds builder volume and fees only where it
/// carries our builder, and referral rewards only where its user is in the referral set.
pub proof fn law_totals_follow_attribution(
    members: Set<Seq<char>>,
    target: Seq<u8>,
    s: UserModel,
    f: FillRecord,
    ms: u64,
)
    requires
        s.fill_count < u64::MAX,
    ensures
        ({
            let a = attribution(members, target, f);
            let t = with_fill(s, f, ms, a);
            t.fill_count == s.fill_count + 1 && t.last_update_ms == ms && (!a.builder
                ==> t.builder_fees_quote_e8 == s.builder_fees_quote_e8
                && t.builder_volume_quote_e8 == s.builder_volume_quote_e8) && (!a.referral
                ==> t.referral_fees_by_token == s.referral_fees_by_token)
        }),
{
}

} // verus!

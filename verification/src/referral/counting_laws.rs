//! What is counted for users and strategies, whatever fills and actions come in.
use crate::referral::aggregator::{attribution, with_fill, with_fill_on, Attribution, FillRecord};
use crate::referral::handlers::{accrued, day_in_range, range_of, span_of, AccrualSpan};
use crate::referral::referrer_tracker::{
    action_effect,
    block_effect,
    is_revoke,
    RefAction,
    RefBlock,
    RefResp,
    TrackerModel,
};
use crate::referral::stats_db::{sum_for, UserModel, UserStats};
use crate::strategy::handlers::{volumes_in, window_start};
use crate::strategy::stats_db::StrategyModel;
use vstd::prelude::*;

verus! {

// ── Fills of users ───────────────────────────────────────────────────────

/// A fill counts for the referral set where its user is in it, and for our builder where it carries our
/// address, in whatever letters.
pub proof fn law_what_a_fill_counts_as(members: Set<Seq<char>>, target: Seq<u8>, f: FillRecord)
    ensures
        attribution(members, target, f).referral <==> members.contains(
            crate::referral::address::address_text(f.addr@),
        ),
        attribution(members, target, f).builder <==> f.builder is Some
            && crate::referral::address::address_in(f.builder->0@) is Some
            && crate::referral::address::address_in(f.builder->0@)->0 == target,
{
}

/// A fill that counts adds its volume, once; its fee, under the token of the fee; the reward, where its
/// user is in the referral set; and volume and fee of the builder, where it carries our address. All
/// sums are exact while they fit.
pub proof fn law_fills_add_up(s: UserModel, f: FillRecord, ms: u64, a: Attribution, token: Seq<char>)
    requires
        s.volume_quote_e8 + f.notional_e8 <= u128::MAX,
        s.builder_volume_quote_e8 + f.notional_e8 <= u128::MAX,
        s.builder_fees_quote_e8 + f.builder_fee_e8 <= u128::MAX,
        f.fee_e8 is Some ==> i128::MIN <= sum_for(s.fees_by_token, f.fee_token@) + f.fee_e8->0
            <= i128::MAX,
        i128::MIN <= sum_for(s.referral_fees_by_token, f.fee_token@) + f.reward_e8 <= i128::MAX,
        s.fill_count < u64::MAX,
    ensures
        ({
            let t = with_fill(s, f, ms, a);
            &&& t.volume_quote_e8 == s.volume_quote_e8 + f.notional_e8
            &&& t.builder_volume_quote_e8 == s.builder_volume_quote_e8 + (if a.builder {
                f.notional_e8 as int
            } else {
                0
            })
            &&& t.builder_fees_quote_e8 == s.builder_fees_quote_e8 + (if a.builder {
                f.builder_fee_e8 as int
            } else {
                0
            })
            &&& sum_for(t.fees_by_token, token) == sum_for(s.fees_by_token, token) + (if f.fee_e8 is Some
                && token == f.fee_token@ {
                f.fee_e8->0 as int
            } else {
                0
            })
            &&& sum_for(t.referral_fees_by_token, token) == sum_for(s.referral_fees_by_token, token) + (
            if f.fee_e8 is Some && a.referral && token == f.fee_token@ {
                f.reward_e8 as int
            } else {
                0
            })
            &&& t.fill_count == s.fill_count + 1
            &&& t.last_update_ms == ms
        }),
{
    if f.fee_e8 is Some {
        crate::referral::stats_db::law_amounts_add_up(s.fees_by_token, f.fee_token@, f.fee_e8->0);
    }
    crate::referral::stats_db::law_amounts_add_up(
        s.referral_fees_by_token,
        f.fee_token@,
        f.reward_e8,
    );
}

/// The flags of a row say for what its fills counted: one for the referral set, two for our builder;
/// what a fill sets stays set.
pub proof fn law_flags_are_kept(s: UserModel, f: FillRecord, ms: u64, a: Attribution)
    ensures
        ({
            let t = with_fill(s, f, ms, a).match_flags;
            &&& a.referral ==> t & 1 == 1
            &&& a.builder ==> t & 2 == 2
            &&& t & s.match_flags == s.match_flags
            &&& !a.referral ==> t & 1 == s.match_flags & 1
            &&& !a.builder ==> t & 2 == s.match_flags & 2
        }),
{
    let x = s.match_flags;
    let y = a.flags();
    assert(y == 0 || y == 1 || y == 2 || y == 3);
    assert((x | 1u8) & 1u8 == 1u8 && (x | 2u8) & 2u8 == 2u8 && (x | 3u8) & 1u8 == 1u8 && (x | 3u8) & 2u8
        == 2u8) by (bit_vector);
    assert((x | y) & x == x) by (bit_vector);
    assert((x | 2u8) & 1u8 == x & 1u8 && (x | 1u8) & 2u8 == x & 2u8 && (x | 0u8) & 1u8 == x & 1u8 && (x
        | 0u8) & 2u8 == x & 2u8) by (bit_vector);
}

/// A fill changes the row with its key only. A row that is not among those of the batch starts from
/// what the store holds.
pub proof fn law_fills_change_their_row(
    m: Map<Seq<u8>, UserModel>,
    key: Seq<u8>,
    stored: UserModel,
    f: FillRecord,
    ms: u64,
    a: Attribution,
    other: Seq<u8>,
)
    ensures
        ({
            let t = with_fill_on(m, key, stored, f, ms, a);
            &&& t.contains_key(key)
            &&& m.contains_key(key) ==> t[key] == with_fill(m[key], f, ms, a)
            &&& !m.contains_key(key) ==> t[key] == with_fill(stored, f, ms, a)
            &&& other != key ==> t.contains_key(other) == m.contains_key(other) && (m.contains_key(other)
                ==> t[other] == m[other])
        }),
{
}

// ── Who is tracked ───────────────────────────────────────────────────────

/// Who did something: the vault that it was done for, or else the user of the answer, with small
/// letters.
pub open spec fn doer(a: RefAction, resp: Option<RefResp>) -> Option<Seq<char>> {
    if a.vault_address is Some {
        Some(crate::text::ascii_lower(a.vault_address->0@))
    } else if resp is Some && resp->0.user is Some {
        Some(crate::text::ascii_lower(resp->0.user->0@))
    } else {
        None
    }
}

/// Whether an answer says that it went wrong.
pub open spec fn went_wrong(resp: Option<RefResp>) -> bool {
    resp is Some && resp->0.status is Some && resp->0.status->0@ != "ok"@
}

/// Whether two names are the same but for capitals.
pub open spec fn same_name(a: Seq<char>, b: Seq<char>) -> bool {
    crate::text::ascii_lower(a) == crate::text::ascii_lower(b)
}

/// Whether a rate is nothing: zeros, points and percent signs only.
pub open spec fn is_nothing(rate: Seq<char>) -> bool {
    rate.len() > 0 && forall|i: int|
        0 <= i < rate.len() ==> #[trigger] rate[i] == '0' || rate[i] == '.' || rate[i] == '%'
}

/// A user comes under the referral code exactly by setting it, in whatever letters, and into the
/// builder's set exactly by approving our builder at a rate that is not nothing; only if it went
/// through. Nobody else comes in, and nobody leaves.
pub proof fn law_who_comes_to_be_tracked(
    t: TrackerModel,
    a: RefAction,
    resp: Option<RefResp>,
    u: Seq<char>,
)
    ensures
        ({
            let after = action_effect(t, a, resp);
            let did = !went_wrong(resp) && doer(a, resp) == Some(u) && a.action_type is Some;
            &&& after.users.contains(u) <==> t.users.contains(u) || did && a.action_type->0@
                == "setReferrer"@ && a.code is Some && same_name(a.code->0@, t.code)
            &&& after.builder_users.contains(u) <==> t.builder_users.contains(u) || did
                && a.action_type->0@ == "approveBuilderFee"@ && a.builder is Some && same_name(
                a.builder->0@,
                t.builder,
            ) && !(a.max_fee_rate is Some && is_nothing(a.max_fee_rate->0@))
            &&& after.code == t.code
            &&& after.builder == t.builder
        }),
{
    reveal_strlit("setReferrer");
    reveal_strlit("approveBuilderFee");
    assert("setReferrer"@.len() == 11 && "approveBuilderFee"@.len() == 17);
    if a.max_fee_rate is Some {
        let rate = a.max_fee_rate->0@;
        assert(is_nothing(rate) == is_revoke(rate));
    }
}

proof fn lemma_bundle(t: TrackerModel, b: RefBlock, bi: int, n: int, k: int, u: Seq<char>)
    requires
        0 <= k < n <= b.bundles@[bi]@.len(),
        action_effect(
            crate::referral::referrer_tracker::bundle_effect(t, b, bi, k),
            b.bundles@[bi]@[k],
            crate::referral::referrer_tracker::answer_to(b, bi, k),
        ).users.contains(u),
    ensures
        crate::referral::referrer_tracker::bundle_effect(t, b, bi, n).users.contains(u),
    decreases n,
{
    if k < n - 1 {
        lemma_bundle(t, b, bi, n - 1, k, u);
        law_who_comes_to_be_tracked(
            crate::referral::referrer_tracker::bundle_effect(t, b, bi, n - 1),
            b.bundles@[bi]@[n - 1],
            crate::referral::referrer_tracker::answer_to(b, bi, n - 1),
            u,
        );
    }
}

/// A user who sets our code in any action of a block that goes through is tracked after the block.
pub proof fn law_every_action_of_a_block_counts(
    t: TrackerModel,
    b: RefBlock,
    bi: int,
    k: int,
    u: Seq<char>,
)
    requires
        0 <= bi < b.bundles@.len(),
        0 <= k < b.bundles@[bi]@.len(),
        ({
            let a = b.bundles@[bi]@[k];
            let resp = if b.resps is Some && bi < b.resps->0@.len() && k < b.resps->0@[bi]@.len() {
                Some(b.resps->0@[bi]@[k])
            } else {
                None
            };
            &&& !went_wrong(resp)
            &&& doer(a, resp) == Some(u)
            &&& a.action_type is Some && a.action_type->0@ == "setReferrer"@
            &&& a.code is Some && same_name(a.code->0@, t.code)
        }),
    ensures
        block_effect(t, b, b.bundles@.len() as int).users.contains(u),
{
    lemma_block(t, b, b.bundles@.len() as int, bi, k, u);
}

proof fn lemma_block(t: TrackerModel, b: RefBlock, n: int, bi: int, k: int, u: Seq<char>)
    requires
        0 <= bi < n <= b.bundles@.len(),
        0 <= k < b.bundles@[bi]@.len(),
        ({
            let a = b.bundles@[bi]@[k];
            let resp = crate::referral::referrer_tracker::answer_to(b, bi, k);
            &&& !went_wrong(resp)
            &&& doer(a, resp) == Some(u)
            &&& a.action_type is Some && a.action_type->0@ == "setReferrer"@
            &&& a.code is Some && same_name(a.code->0@, t.code)
        }),
    ensures
        block_effect(t, b, n).users.contains(u),
    decreases n,
{
    let before = block_effect(t, b, n - 1);
    let len = b.bundles@[n - 1]@.len() as int;
    if bi == n - 1 {
        let s = crate::referral::referrer_tracker::bundle_effect(before, b, bi, k);
        crate::referral::referrer_tracker::law_tracked_users_stay(t, b, n - 1);
        lemma_code(before, b, bi, k);
        law_who_comes_to_be_tracked(
            s,
            b.bundles@[bi]@[k],
            crate::referral::referrer_tracker::answer_to(b, bi, k),
            u,
        );
        lemma_bundle(before, b, bi, len, k, u);
    } else {
        lemma_block(t, b, n - 1, bi, k, u);
        lemma_kept(before, b, n - 1, len, u);
    }
}

proof fn lemma_code(t: TrackerModel, b: RefBlock, bi: int, n: int)
    ensures
        crate::referral::referrer_tracker::bundle_effect(t, b, bi, n).code == t.code,
    decreases n,
{
    if n > 0 {
        lemma_code(t, b, bi, n - 1);
    }
}

proof fn lemma_kept(t: TrackerModel, b: RefBlock, bi: int, n: int, u: Seq<char>)
    requires
        t.users.contains(u),
    ensures
        crate::referral::referrer_tracker::bundle_effect(t, b, bi, n).users.contains(u),
    decreases n,
{
    if n > 0 {
        lemma_kept(t, b, bi, n - 1, u);
    }
}

// ── Reports ──────────────────────────────────────────────────────────────

/// A report covers the days that are asked for: to the last day, or today; from the first, or for
/// thirty days up to the last. It is refused for a bound that is no date, and for one that starts after
/// its end, and for nothing else.
pub proof fn law_reports_cover_their_days(
    from: Option<Option<u32>>,
    to: Option<Option<u32>>,
    today: u32,
)
    ensures
        ({
            let r = range_of(from, to, today);
            let last = if to is Some && to->0 is Some {
                to->0->0
            } else {
                today
            };
            &&& to == Some(None::<u32>) ==> r == Err::<(u32, u32), Seq<char>>(
                "invalid `to` date, want YYYY-MM-DD"@,
            )
            &&& to != Some(None::<u32>) && from == Some(None::<u32>) ==> r == Err::<(u32, u32), Seq<char>>(
                "invalid `from` date, want YYYY-MM-DD"@,
            )
            &&& to != Some(None::<u32>) && from is Some && from->0 is Some ==> (r is Ok <==> from->0->0
                <= last) && (r is Ok ==> r->Ok_0 == (from->0->0, last)) && (r is Err ==> r->Err_0
                == "`from` is after `to`"@)
            &&& to != Some(None::<u32>) && from is None ==> r is Ok && (r->Ok_0).1 == last && (if last
                >= 29 {
                last - (r->Ok_0).0 + 1 == 30
            } else {
                (r->Ok_0).0 == 0
            })
        }),
{
}

/// An accrual is of all time without a first day, of the days from the first one to today, and of
/// nothing while the first day is still to come.
pub proof fn law_accruals_start_on_their_day(day: u32, today: u32)
    ensures
        span_of(None, today) is AllTime,
        day <= today ==> span_of(Some(day), today) == AccrualSpan::Days(day, today),
        day > today ==> span_of(Some(day), today) is Nothing,
{
}

/// Days are counted from the first of January 1970, which is number 719163 of all days; there is none
/// before it.
pub proof fn law_days_start_in_1970(n: i32)
    ensures
        n >= 719_163 ==> day_in_range(Some(n)) == Some((n - 719_163) as u32),
        n < 719_163 ==> day_in_range(Some(n)) is None,
        day_in_range(None) is None,
{
}

/// The sum of the volumes of the first `n` rows.
pub open spec fn volume_sum(rows: Seq<UserStats>, n: int) -> int
    decreases n,
{
    if n <= 0 {
        0
    } else {
        volume_sum(rows, n - 1) + rows[n - 1].volume_quote_e8
    }
}

/// The sum of the builder fees of the first `n` rows.
pub open spec fn fee_sum(rows: Seq<UserStats>, n: int) -> int
    decreases n,
{
    if n <= 0 {
        0
    } else {
        fee_sum(rows, n - 1) + rows[n - 1].builder_fees_quote_e8
    }
}

/// The number of the fills of the first `n` rows.
pub open spec fn fill_sum(rows: Seq<UserStats>, n: int) -> int
    decreases n,
{
    if n <= 0 {
        0
    } else {
        fill_sum(rows, n - 1) + rows[n - 1].fill_count
    }
}

/// An accrual is the sum of its rows, exact while it fits and the largest number otherwise, and as late
/// as the latest of them.
pub proof fn law_accruals_add_up(rows: Seq<UserStats>, n: int)
    requires
        0 <= n <= rows.len(),
    ensures
        volume_sum(rows, n) >= 0 && fee_sum(rows, n) >= 0 && fill_sum(rows, n) >= 0,
        volume_sum(rows, n) <= u128::MAX ==> accrued(rows, n).volume == volume_sum(rows, n),
        volume_sum(rows, n) > u128::MAX ==> accrued(rows, n).volume == u128::MAX,
        fee_sum(rows, n) <= u128::MAX ==> accrued(rows, n).builder_fees == fee_sum(rows, n),
        fee_sum(rows, n) > u128::MAX ==> accrued(rows, n).builder_fees == u128::MAX,
        fill_sum(rows, n) <= u64::MAX ==> accrued(rows, n).fill_count == fill_sum(rows, n),
        fill_sum(rows, n) > u64::MAX ==> accrued(rows, n).fill_count == u64::MAX,
        forall|i: int|
            0 <= i < n ==> (#[trigger] rows[i]).last_update_ms <= accrued(rows, n).last_update_ms,
        n > 0 ==> exists|i: int|
            0 <= i < n && (#[trigger] rows[i]).last_update_ms == accrued(rows, n).last_update_ms,
    decreases n,
{
    if n > 0 {
        law_accruals_add_up(rows, n - 1);
        if n == 1 {
            assert(rows[0].last_update_ms == accrued(rows, 1).last_update_ms) by {
                reveal_with_fuel(accrued, 2);
            }
        } else if rows[n - 1].last_update_ms <= accrued(rows, n - 1).last_update_ms {
            let i = choose|i: int|
                0 <= i < n - 1 && (#[trigger] rows[i]).last_update_ms == accrued(
                    rows,
                    n - 1,
                ).last_update_ms;
            assert(rows[i].last_update_ms == accrued(rows, n).last_update_ms);
        } else {
            assert(rows[n - 1].last_update_ms == accrued(rows, n).last_update_ms);
        }
    }
}

// ── Strategies ───────────────────────────────────────────────────────────

/// A fill of a strategy adds its volume and its fee, counts once, and brings its user in on the row that
/// keeps users. The row is as early as its earliest fill and as late as its latest.
pub proof fn law_strategy_fills_add_up(
    s: StrategyModel,
    notional: u128,
    fee: u128,
    user: Seq<char>,
    ms: u64,
    track: bool,
    other: Seq<char>,
)
    requires
        s.volume_quote_e8 + notional <= u128::MAX,
        s.builder_fees_quote_e8 + fee <= u128::MAX,
        s.fill_count < u64::MAX,
        ms > 0,
    ensures
        ({
            let t = s.with_fill(notional, fee, user, ms, track);
            &&& t.volume_quote_e8 == s.volume_quote_e8 + notional
            &&& t.builder_fees_quote_e8 == s.builder_fees_quote_e8 + fee
            &&& t.fill_count == s.fill_count + 1
            &&& t.unique_users.contains(other) <==> s.unique_users.contains(other) || track && other
                == user
            &&& t.first_update_ms <= ms && ms <= t.last_update_ms
            &&& s.first_update_ms > 0 ==> t.first_update_ms <= s.first_update_ms
            &&& t.first_update_ms == ms || t.first_update_ms == s.first_update_ms
            &&& t.first_update_ms > 0
            &&& t.last_update_ms >= s.last_update_ms
            &&& t.last_update_ms == ms || t.last_update_ms == s.last_update_ms
        }),
{
}

/// A window of so many days ends today and has that many days, unless it would start before the first
/// of all.
pub proof fn law_windows_have_their_length(today: u32, days: u32)
    requires
        days > 0,
    ensures
        window_start(today, days) <= today,
        today + 1 >= days ==> today - window_start(today, days) + 1 == days,
        today + 1 < days ==> window_start(today, days) == 0,
{
}

/// How many of the first `n` rows lie in a window.
pub open spec fn rows_within(rows: Seq<(u32, u128)>, from: u32, to: u32, n: int) -> int
    decreases n,
{
    if n <= 0 {
        0
    } else {
        rows_within(rows, from, to, n - 1) + if from <= rows[n - 1].0 && rows[n - 1].0 <= to {
            1int
        } else {
            0
        }
    }
}

/// The volumes of a window are those of the rows whose day lies in it, first and last day included, in
/// order and no others.
pub proof fn law_windows_take_their_days(
    rows: Seq<(u32, u128)>,
    from: u32,
    to: u32,
    n: int,
    i: int,
)
    requires
        0 <= i < n <= rows.len(),
    ensures
        volumes_in(rows, from, to, n).len() == rows_within(rows, from, to, n),
        from <= rows[i].0 <= to ==> 0 <= rows_within(rows, from, to, i) < volumes_in(
            rows,
            from,
            to,
            n,
        ).len() && volumes_in(rows, from, to, n)[rows_within(rows, from, to, i)] == rows[i].1,
    decreases n,
{
    lemma_within(rows, from, to, n);
    lemma_within(rows, from, to, i);
    if i < n - 1 {
        law_windows_take_their_days(rows, from, to, n - 1, i);
    } else {
        lemma_within(rows, from, to, n - 1);
    }
}

proof fn lemma_within(rows: Seq<(u32, u128)>, from: u32, to: u32, n: int)
    requires
        0 <= n <= rows.len(),
    ensures
        volumes_in(rows, from, to, n).len() == rows_within(rows, from, to, n),
        rows_within(rows, from, to, n) >= 0,
    decreases n,
{
    if n > 0 {
        lemma_within(rows, from, to, n - 1);
    }
}

/// The day of a time is the number of whole days since 1970.
pub proof fn law_days_are_whole(ms: u64)
    requires
        ms / 86_400_000 <= u32::MAX,
    ensures
        ({
            let day = crate::strategy::aggregator::day_at(ms);
            day * 86_400_000 <= ms < (day + 1) * 86_400_000
        }),
{
}

} // verus!

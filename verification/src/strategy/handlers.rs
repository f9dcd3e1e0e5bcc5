//! Requests for the totals of strategies.
use crate::nameset::NameSet;
use crate::strategy::stats_db::{decode_strat_key_hex, StratKey, StrategyModel, StrategyStats};
use crate::strmap::StrMap;
use crate::text::to_ascii_lowercase;
use vstd::prelude::*;

verus! {

/// The largest number of strategies that one request may ask for.
pub const MAX_BATCH: usize = 500;

/// The largest number of users that are listed.
pub const MAX_USERS: usize = 500;

/// What is reported of a strategy. Amounts are in 8 decimals; the volumes of the last days are given
/// row by row, so that whoever reports them can sum them up.
pub struct StrategyView {
    pub strat_key: String,
    pub volume_quote_e8: u128,
    pub fills: u64,
    pub unique_users: u64,
    pub builder_fees_quote_e8: u128,
    pub vol_24h: Vec<u128>,
    pub vol_7d: Vec<u128>,
    pub vol_30d: Vec<u128>,
    pub first_ts: u64,
    pub last_ts: u64,
    /// The users, where they were asked for.
    pub users: Option<Vec<String>>,
}

/// The first day of a window of so many days that ends today.
pub open spec fn window_start(today: u32, days: u32) -> u32 {
    if days == 0 {
        today
    } else if today >= days - 1 {
        (today - (days - 1)) as u32
    } else {
        0
    }
}

/// The first day of a window of so many days that ends today.
pub fn window_from(today: u32, days: u32) -> (r: u32)
    ensures
        r == window_start(today, days),
{
    today.saturating_sub(days.saturating_sub(1))
}

/// The volumes of those of the first `n` rows whose day lies between the two.
pub open spec fn volumes_in(rows: Seq<(u32, u128)>, from: u32, to: u32, n: int) -> Seq<u128>
    decreases n,
{
    if n <= 0 {
        Seq::empty()
    } else {
        let (day, volume) = rows[n - 1];
        if from <= day <= to {
            volumes_in(rows, from, to, n - 1).push(volume)
        } else {
            volumes_in(rows, from, to, n - 1)
        }
    }
}

fn window(rows: &Vec<(u32, u128)>, from: u32, to: u32) -> (r: Vec<u128>)
    ensures
        r@ == volumes_in(rows@, from, to, rows@.len() as int),
{
    let mut r: Vec<u128> = Vec::new();
    let mut i: usize = 0;
    while i < rows.len()
        invariant
            i <= rows@.len(),
            r@ == volumes_in(rows@, from, to, i as int),
        decreases rows@.len() - i,
    {
        let (day, volume): (u32, u128) = rows[i];
        if from <= day && day <= to {
            r.push(volume);
        }
        i = i + 1;
    }
    r
}

/// Whether the list of users is what it should be: absent where it was not asked for, else the first
/// of the users in dictionary order.
pub open spec fn users_listed(
    listed: Option<Vec<String>>,
    users: Set<Seq<char>>,
    with_users: bool,
) -> bool {
    match listed {
        Some(v) => with_users && exists|us: Seq<Seq<char>>| #[trigger]
            crate::strmap::listing(us, users) && crate::json::texts(v@) == us.take(
                if us.len() < MAX_USERS {
                    us.len() as int
                } else {
                    MAX_USERS as int
                },
            ),
        None => !with_users,
    }
}

/// What is known of a strategy; nothing for an unknown one.
pub open spec fn known_stats(o: Option<&StrategyStats>) -> StrategyModel {
    match o {
        Some(s) => s@,
        None => StrategyModel::none(),
    }
}

/// What is reported of a strategy, of which the store holds `stats`. `daily` are its daily rows, day
/// and volume, from at least thirty days back. An unknown strategy is reported as all zeros.
pub fn build_view(
    hex: &str,
    stats: Option<&StrategyStats>,
    daily: &Vec<(u32, u128)>,
    today: u32,
    with_users: bool,
) -> (r: StrategyView)
    ensures
        ({
            let s = known_stats(stats);
            let n = daily@.len() as int;
            &&& r.strat_key@ == hex@
            &&& r.volume_quote_e8 == s.volume_quote_e8
            &&& r.fills == s.fill_count
            &&& r.unique_users == s.unique_users.len()
            &&& r.builder_fees_quote_e8 == s.builder_fees_quote_e8
            &&& r.first_ts == s.first_update_ms
            &&& r.last_ts == s.last_update_ms
            &&& users_listed(r.users, s.unique_users, with_users)
            &&& stats is None ==> r.vol_24h@.len() == 0 && r.vol_7d@.len() == 0
                && r.vol_30d@.len() == 0
            &&& stats is Some ==> r.vol_24h@ == volumes_in(
                daily@,
                window_start(today, 1),
                today,
                n,
            ) && r.vol_7d@ == volumes_in(daily@, window_start(today, 7), today, n) && r.vol_30d@
                == volumes_in(daily@, window_start(today, 30), today, n)
        }),
{
    match stats {
        Some(s) => StrategyView {
            strat_key: hex.to_owned(),
            volume_quote_e8: s.volume_quote_e8,
            fills: s.fill_count,
            unique_users: s.unique_users.len() as u64,
            builder_fees_quote_e8: s.builder_fees_quote_e8,
            vol_24h: window(daily, window_from(today, 1), today),
            vol_7d: window(daily, window_from(today, 7), today),
            vol_30d: window(daily, window_from(today, 30), today),
            first_ts: s.first_update_ms,
            last_ts: s.last_update_ms,
            users: if with_users {
                Some(s.unique_users.first(MAX_USERS))
            } else {
                None
            },
        },
        None => {
            let nobody = NameSet::new();
            StrategyView {
                strat_key: hex.to_owned(),
                volume_quote_e8: 0,
                fills: 0,
                unique_users: nobody.len() as u64,
                builder_fees_quote_e8: 0,
                vol_24h: Vec::new(),
                vol_7d: Vec::new(),
                vol_30d: Vec::new(),
                first_ts: 0,
                last_ts: 0,
                users: if with_users {
                    Some(nobody.first(MAX_USERS))
                } else {
                    None
                },
            }
        },
    }
}

/// The strategy that a request names: its digits in lower case, and its key.
pub fn strategy_request(strat_key: &str) -> (r: Result<(String, StratKey), &'static str>)
    ensures
        match crate::strategy::stats_db::key_in_hex(crate::text::ascii_lower(strat_key@)) {
            Some(k) => r is Ok && r->Ok_0.0@ == crate::text::ascii_lower(strat_key@)
                && r->Ok_0.1@ == k,
            None => r is Err && r->Err_0@ == "invalid stratKey, want 16 hex chars"@,
        },
{
    let hex = to_ascii_lowercase(strat_key);
    match decode_strat_key_hex(hex.as_str()) {
        Some(k) => Ok((hex, k)),
        None => Err("invalid stratKey, want 16 hex chars"),
    }
}

/// A request for several strategies.
pub struct BatchRequest {
    pub strat_keys: Vec<String>,
}

/// Whether one of the first `n` names is, in lower case, the digits.
pub open spec fn named(names: Seq<String>, hex: Seq<char>, n: int) -> bool {
    exists|i: int| 0 <= i < n && crate::text::ascii_lower(#[trigger] names[i]@) == hex
}

/// The strategies that the first `n` names stand for: digits in lower case → key. Names that are no
/// key are left out.
pub open spec fn strategies_named(names: Seq<String>, n: int) -> Map<Seq<char>, Seq<u8>> {
    Map::new(
        |hex: Seq<char>|
            crate::strategy::stats_db::key_in_hex(hex) is Some && named(names, hex, n),
        |hex: Seq<char>| crate::strategy::stats_db::key_in_hex(hex)->Some_0,
    )
}

/// The strategies that a request for several names. Too many names are refused.
pub fn batch_request(req: &BatchRequest) -> (r: Result<StrMap<StratKey>, &'static str>)
    ensures
        if req.strat_keys@.len() > MAX_BATCH {
            r is Err && r->Err_0@ == "too many stratKeys (max 500)"@
        } else {
            r is Ok && r->Ok_0@ == strategies_named(
                req.strat_keys@,
                req.strat_keys@.len() as int,
            )
        },
{
    if req.strat_keys.len() > MAX_BATCH {
        return Err("too many stratKeys (max 500)");
    }
    let ghost names = req.strat_keys@;
    let mut out: StrMap<StratKey> = StrMap::new();
    let mut i: usize = 0;
    assert(out@ =~= strategies_named(names, 0));
    while i < req.strat_keys.len()
        invariant
            i <= names.len(),
            names == req.strat_keys@,
            out@ == strategies_named(names, i as int),
        decreases names.len() - i,
    {
        let hex = to_ascii_lowercase(req.strat_keys[i].as_str());
        let ghost h = hex@;
        let ghost before = out@;
        let key = decode_strat_key_hex(hex.as_str());
        if let Some(k) = key {
            out.insert(hex, k);
        }
        proof {
            assert forall|x: Seq<char>| named(names, x, i + 1) <==> named(names, x, i as int) || x
                == h by {
                if named(names, x, i + 1) {
                    let j = choose|j: int|
                        0 <= j < i + 1 && crate::text::ascii_lower(#[trigger] names[j]@) == x;
                    if j < i {
                        assert(named(names, x, i as int));
                    }
                }
                if named(names, x, i as int) {
                    let j = choose|j: int|
                        0 <= j < i && crate::text::ascii_lower(#[trigger] names[j]@) == x;
                    assert(0 <= j < i + 1 && crate::text::ascii_lower(names[j]@) == x);
                }
                assert(crate::text::ascii_lower(names[i as int]@) == h);
            }
            assert(out@ =~= strategies_named(names, i + 1));
        }
        i = i + 1;
    }
    Ok(out)
}

} // verus!

//! Totals by user, and the keys under which they are stored.
//!
//! The row of a user lies under the twenty bytes of the address, the daily rows under those bytes and
//! the day behind them.
use crate::daykeys::push_day;
use crate::order::stable_order;
use crate::referral::address::Address;
use crate::strmap::StrMap;
use crate::text::{parse_i128, signed_string};
use vstd::prelude::*;

verus! {

pub struct UserStats {
    /// Notional value of all fills, in 8 decimals.
    pub volume_quote_e8: u128,
    /// What the user paid in fees, by token: the text of the sum in 8 decimals. Rebates are negative.
    pub fees_by_token: StrMap<String>,
    /// Builder fees earned, in 8 decimals of the quote currency.
    pub builder_fees_quote_e8: u128,
    /// Notional value of the fills that went through our builder only.
    pub builder_volume_quote_e8: u128,
    /// Referral rewards earned, by token: the text of the sum in 8 decimals.
    pub referral_fees_by_token: StrMap<String>,
    pub fill_count: u64,
    /// Time of the last fill in milliseconds.
    pub last_update_ms: u64,
    /// 1 for users in the referral set, 2 for users of our builder, 3 for both.
    pub match_flags: u8,
}

/// What the totals of a user are.
#[verifier::ext_equal]
pub struct UserModel {
    pub volume_quote_e8: u128,
    pub fees_by_token: Map<Seq<char>, Seq<char>>,
    pub builder_fees_quote_e8: u128,
    pub builder_volume_quote_e8: u128,
    pub referral_fees_by_token: Map<Seq<char>, Seq<char>>,
    pub fill_count: u64,
    pub last_update_ms: u64,
    pub match_flags: u8,
}

impl View for UserStats {
    type V = UserModel;

    open spec fn view(&self) -> UserModel {
        UserModel {
            volume_quote_e8: self.volume_quote_e8,
            fees_by_token: self.fees_by_token@,
            builder_fees_quote_e8: self.builder_fees_quote_e8,
            builder_volume_quote_e8: self.builder_volume_quote_e8,
            referral_fees_by_token: self.referral_fees_by_token@,
            fill_count: self.fill_count,
            last_update_ms: self.last_update_ms,
            match_flags: self.match_flags,
        }
    }
}

impl UserModel {
    /// No fills.
    pub open spec fn none() -> UserModel {
        UserModel {
            volume_quote_e8: 0,
            fees_by_token: Map::empty(),
            builder_fees_quote_e8: 0,
            builder_volume_quote_e8: 0,
            referral_fees_by_token: Map::empty(),
            fill_count: 0,
            last_update_ms: 0,
            match_flags: 0,
        }
    }
}

impl Default for UserStats {
    fn default() -> (r: UserStats)
        ensures
            r@ == UserModel::none(),
    {
        UserStats {
            volume_quote_e8: 0,
            fees_by_token: StrMap::new(),
            builder_fees_quote_e8: 0,
            builder_volume_quote_e8: 0,
            referral_fees_by_token: StrMap::new(),
            fill_count: 0,
            last_update_ms: 0,
            match_flags: 0,
        }
    }
}

// ── Sums by token ────────────────────────────────────────────────────────

/// The sum that a text stands for; zero where it is none.
pub open spec fn sum_in(text: Seq<char>) -> int {
    match crate::text::signed_decimal(text) {
        Some(n) => n,
        None => 0,
    }
}

/// The sum noted for a token; zero where none is.
pub open spec fn sum_for(m: Map<Seq<char>, Seq<char>>, token: Seq<char>) -> int {
    if m.contains_key(token) {
        sum_in(m[token])
    } else {
        0
    }
}

/// A number held within 128 bits.
pub open spec fn held_in_i128(n: int) -> int {
    if n > i128::MAX {
        i128::MAX as int
    } else if n < i128::MIN {
        i128::MIN as int
    } else {
        n
    }
}

/// The sums with an amount added for a token.
pub open spec fn with_amount(m: Map<Seq<char>, Seq<char>>, token: Seq<char>, delta: i128) -> Map<
    Seq<char>,
    Seq<char>,
> {
    m.insert(token, crate::text::signed_text(held_in_i128(sum_for(m, token) + delta)))
}

fn held_sum(a: i128, b: i128) -> (r: i128)
    ensures
        r == held_in_i128(a + b),
{
    match a.checked_add(b) {
        Some(s) => s,
        None => if b > 0 {
            i128::MAX
        } else {
            i128::MIN
        },
    }
}

/// Adds an amount to what is noted for a token.
pub fn add_to_token_map(map: &mut StrMap<String>, token: &str, delta: i128)
    ensures
        final(map)@ == with_amount(old(map)@, token@, delta),
{
    let prev: i128 = match map.get(token) {
        Some(text) => match parse_i128(text.as_str()) {
            Some(n) => n,
            None => 0,
        },
        None => 0,
    };
    map.insert(token.to_owned(), signed_string(held_sum(prev, delta)));
}

/// Adding amounts for a token adds up, as long as the sum fits 128 bits; other tokens keep theirs.
pub proof fn law_amounts_add_up(m: Map<Seq<char>, Seq<char>>, token: Seq<char>, delta: i128)
    requires
        i128::MIN <= sum_for(m, token) + delta <= i128::MAX,
    ensures
        sum_for(with_amount(m, token, delta), token) == sum_for(m, token) + delta,
        forall|other: Seq<char>|
            other != token ==> #[trigger] sum_for(with_amount(m, token, delta), other) == sum_for(
                m,
                other,
            ),
{
    crate::text::law_signed_round_trip((sum_for(m, token) + delta) as i128);
}

// ── Keys ─────────────────────────────────────────────────────────────────

/// The key of the row of a user.
pub fn cum_key(addr: &Address) -> (r: [u8; 20])
    ensures
        r@ == addr@,
{
    *addr
}

/// The key of the row of a user and a day.
pub fn day_key(addr: &Address, day: u32) -> (r: [u8; 24])
    ensures
        r@ == crate::daykeys::day_key(addr@, day),
{
    let mut v: Vec<u8> = Vec::new();
    push_day(&mut v, day);
    proof {
        crate::bytes::lemma_be_bytes_len(day as nat, 4);
        assert(v@ =~= crate::bytes::be_bytes(day as nat, 4));
    }
    let a = addr;
    let r: [u8; 24] = [
        a[0],
        a[1],
        a[2],
        a[3],
        a[4],
        a[5],
        a[6],
        a[7],
        a[8],
        a[9],
        a[10],
        a[11],
        a[12],
        a[13],
        a[14],
        a[15],
        a[16],
        a[17],
        a[18],
        a[19],
        v[0],
        v[1],
        v[2],
        v[3],
    ];
    assert(r@ =~= crate::daykeys::day_key(addr@, day));
    r
}

/// Whether the row with this key is that of a user, not one of a day.
pub fn is_user_row(key: &[u8]) -> (r: bool)
    ensures
        r == (key@.len() == 20),
{
    key.len() == 20
}

// ── Top users ────────────────────────────────────────────────────────────

/// Whether row `a` comes before row `b` in the list of top users: by volume, the largest first, then
/// as they lie in the store.
pub open spec fn tops(volumes: Seq<u128>, a: int, b: int) -> bool {
    volumes[a] > volumes[b] || volumes[a] == volumes[b] && a < b
}

/// The positions of the rows with the largest volumes, at most `limit` of them, the largest first.
/// `volumes` are those of the rows of users, as they lie in the store.
pub fn top(volumes: &Vec<u128>, limit: usize) -> (r: Vec<usize>)
    ensures
        r@.len() == (if limit < volumes@.len() {
            limit as nat
        } else {
            volumes@.len()
        }),
        forall|i: int| 0 <= i < r@.len() ==> (#[trigger] r@[i]) < volumes@.len(),
        forall|i: int, j: int|
            0 <= i < j < r@.len() ==> tops(volumes@, #[trigger] r@[i] as int, #[trigger] r@[j] as int),
        forall|x: usize|
            x < volumes@.len() && !#[trigger] r@.contains(x) ==> forall|i: int|
                0 <= i < r@.len() ==> tops(volumes@, #[trigger] r@[i] as int, x as int),
{
    let mut ranks: Vec<u128> = Vec::new();
    let mut i: usize = 0;
    while i < volumes.len()
        invariant
            i <= volumes@.len(),
            ranks@.len() == i,
            forall|j: int| 0 <= j < i ==> #[trigger] ranks@[j] == u128::MAX - volumes@[j],
        decreases volumes@.len() - i,
    {
        ranks.push(u128::MAX - volumes[i]);
        i = i + 1;
    }
    let mut r = stable_order(&ranks);
    let ghost all = r@;
    proof {
        assert forall|i: int, j: int| 0 <= i < j < all.len() implies tops(
            volumes@,
            #[trigger] all[i] as int,
            #[trigger] all[j] as int,
        ) by {
            assert(all.contains(all[i]) && all.contains(all[j]));
            assert(crate::order::ranked_before(ranks@, all[i] as int, all[j] as int));
            assert(ranks@[all[i] as int] == u128::MAX - volumes@[all[i] as int]);
            assert(ranks@[all[j] as int] == u128::MAX - volumes@[all[j] as int]);
        }
    }
    if r.len() > limit {
        r.truncate(limit);
    }
    proof {
        assert forall|i: int| 0 <= i < r@.len() implies (#[trigger] r@[i]) < volumes@.len() by {
            assert(all.contains(all[i]));
        }
        assert forall|x: usize| x < volumes@.len() && !#[trigger] r@.contains(x) implies forall|
            i: int,
        |
            0 <= i < r@.len() ==> tops(volumes@, #[trigger] r@[i] as int, x as int) by {
            assert(all.contains(x));
            let k = all.index_of(x);
            assert(all[k] == x);
            if k < r@.len() {
                assert(r@[k] == x);
            }
        }
    }
    r
}

} // verus!

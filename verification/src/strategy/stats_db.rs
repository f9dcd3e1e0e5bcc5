//! Totals by strategy, and the keys under which they are stored.
//!
//! The row of a strategy lies under its eight key bytes, its daily rows under those bytes and the day
//! behind them.
use crate::daykeys::push_day;
use crate::hex::{all_hex, byte_at, digits_of, push_hex};
use crate::nameset::NameSet;
use vstd::prelude::*;

verus! {

/// The key of a strategy.
pub type StratKey = [u8; 8];

/// Whether the first four of the digits are the magic "b05a", in either case.
pub open spec fn has_magic(h: Seq<char>) -> bool {
    crate::text::ascii_lower(h.take(4)) == seq!['b', '0', '5', 'a']
}

/// The key bytes in a client order id: an optional prefix, then 32 hexadecimal digits of which the
/// first four are the magic and those from the seventh on the key.
pub open spec fn key_in_cloid(cloid: Seq<char>) -> Option<Seq<u8>> {
    let h = crate::hex::without_0x(cloid);
    if crate::hex::hex_of_len(h, 32) && has_magic(h) {
        Some(crate::hex::hex_bytes(h, 6, 8))
    } else {
        None
    }
}

/// The key bytes that sixteen hexadecimal digits stand for, with an optional prefix.
pub open spec fn key_in_hex(text: Seq<char>) -> Option<Seq<u8>> {
    let h = crate::hex::without_0x(text);
    if crate::hex::hex_of_len(h, 16) {
        Some(crate::hex::hex_bytes(h, 0, 8))
    } else {
        None
    }
}

/// What an optional key is.
pub open spec fn key_view(o: Option<StratKey>) -> Option<Seq<u8>> {
    match o {
        Some(k) => Some(k@),
        None => None,
    }
}

fn read_key(v: &Vec<char>, at: usize) -> (k: StratKey)
    requires
        at + 16 <= v@.len(),
        forall|i: int| 0 <= i < v@.len() ==> crate::hex::is_hex(#[trigger] v@[i]),
    ensures
        k@ == crate::hex::hex_bytes(v@, at as int, 8),
{
    let all: usize = v.len();
    let k: [u8; 8] = [
        byte_at(v, at),
        byte_at(v, at + 2),
        byte_at(v, at + 4),
        byte_at(v, at + 6),
        byte_at(v, at + 8),
        byte_at(v, at + 10),
        byte_at(v, at + 12),
        byte_at(v, at + 14),
    ];
    assert(k@ =~= crate::hex::hex_bytes(v@, at as int, 8));
    k
}

/// The strategy key in a client order id, where it is one of a strategy's orders.
pub fn decode_strategy_cloid(cloid: &str) -> (r: Option<StratKey>)
    ensures
        key_view(r) == key_in_cloid(cloid@),
{
    let h = digits_of(cloid);
    if !all_hex(&h, 32) {
        return None;
    }
    let magic = (h[0] == 'b' || h[0] == 'B') && h[1] == '0' && h[2] == '5' && (h[3] == 'a' || h[3]
        == 'A');
    proof {
        let low = crate::text::ascii_lower(h@.take(4));
        assert(low.len() == 4);
        assert(low[0] == crate::text::small(h@[0]));
        assert(low[1] == crate::text::small(h@[1]));
        assert(low[2] == crate::text::small(h@[2]));
        assert(low[3] == crate::text::small(h@[3]));
        let want = seq!['b', '0', '5', 'a'];
        if magic {
            assert(low =~= want);
        } else if low == want {
            assert(low[0] == want[0] && low[1] == want[1] && low[2] == want[2] && low[3]
                == want[3]);
        }
    }
    if !magic {
        return None;
    }
    Some(read_key(&h, 6))
}

/// The strategy key that sixteen hexadecimal digits stand for.
pub fn decode_strat_key_hex(hex: &str) -> (r: Option<StratKey>)
    ensures
        key_view(r) == key_in_hex(hex@),
{
    let h = digits_of(hex);
    if !all_hex(&h, 16) {
        return None;
    }
    Some(read_key(&h, 0))
}

/// The sixteen hexadecimal digits of a strategy key, in lower case.
pub fn strat_key_hex(key: &StratKey) -> (r: String)
    ensures
        r@ == crate::hex::hex_text(key@),
{
    let mut s = String::new();
    push_hex(&mut s, key.as_slice());
    assert(s@ =~= crate::hex::hex_text(key@));
    s
}

/// The digits of a key are read back as the key.
pub proof fn law_key_digits_round_trip(key: Seq<u8>)
    requires
        key.len() == 8,
    ensures
        key_in_hex(crate::hex::hex_text(key)) == Some(key),
{
    crate::hex::law_hex_round_trip(key);
}

/// A client order id gives the key whose digits stand in it.
pub proof fn law_cloid_carries_key(head: Seq<char>, key: Seq<u8>, tail: Seq<char>)
    requires
        crate::hex::hex_of_len(head, 6),
        has_magic(head),
        key.len() == 8,
        crate::hex::hex_of_len(tail, 10),
    ensures
        key_in_cloid(seq!['0', 'x'] + (head + crate::hex::hex_text(key) + tail)) == Some(key),
{
    crate::hex::law_hex_round_trip(key);
    let t = crate::hex::hex_text(key);
    let h = head + t + tail;
    let c = seq!['0', 'x'] + h;
    assert(crate::hex::without_0x(c) =~= h);
    assert(h.take(4) =~= head.take(4));
    assert forall|i: int| 0 <= i < 32 implies crate::hex::is_hex(#[trigger] h[i]) by {
        if i < 6 {
            assert(h[i] == head[i]);
        } else if i < 22 {
            assert(h[i] == t[i - 6]);
        } else {
            assert(h[i] == tail[i - 22]);
        }
    }
    assert forall|i: int| 0 <= i < 8 implies crate::hex::hex_byte(h, 6 + 2 * i) == key[i] by {
        assert(h[6 + 2 * i] == t[2 * i]);
        assert(h[7 + 2 * i] == t[2 * i + 1]);
        assert(crate::hex::hex_bytes(t, 0, 8)[i] == key[i]);
    }
    assert(crate::hex::hex_bytes(h, 6, 8) =~= key);
}

// ── Totals ───────────────────────────────────────────────────────────────

pub struct StrategyStats {
    /// Notional value of all fills, in 8 decimals.
    pub volume_quote_e8: u128,
    /// Builder fees earned, in 8 decimals of the quote currency.
    pub builder_fees_quote_e8: u128,
    pub fill_count: u64,
    /// The users of the fills. Kept on the row of the strategy only; daily rows leave it empty.
    pub unique_users: NameSet,
    /// Time of the first fill in milliseconds; zero where there was none.
    pub first_update_ms: u64,
    /// Time of the last fill in milliseconds.
    pub last_update_ms: u64,
}

/// What the totals of a strategy are.
#[verifier::ext_equal]
pub struct StrategyModel {
    pub volume_quote_e8: u128,
    pub builder_fees_quote_e8: u128,
    pub fill_count: u64,
    pub unique_users: Set<Seq<char>>,
    pub first_update_ms: u64,
    pub last_update_ms: u64,
}

impl View for StrategyStats {
    type V = StrategyModel;

    open spec fn view(&self) -> StrategyModel {
        StrategyModel {
            volume_quote_e8: self.volume_quote_e8,
            builder_fees_quote_e8: self.builder_fees_quote_e8,
            fill_count: self.fill_count,
            unique_users: self.unique_users@,
            first_update_ms: self.first_update_ms,
            last_update_ms: self.last_update_ms,
        }
    }
}

impl StrategyModel {
    /// No fills.
    pub open spec fn none() -> StrategyModel {
        StrategyModel {
            volume_quote_e8: 0,
            builder_fees_quote_e8: 0,
            fill_count: 0,
            unique_users: Set::empty(),
            first_update_ms: 0,
            last_update_ms: 0,
        }
    }

    /// The totals with one more fill.
    pub open spec fn with_fill(
        self,
        notional: u128,
        fee: u128,
        user: Seq<char>,
        ms: u64,
        track: bool,
    ) -> StrategyModel {
        StrategyModel {
            volume_quote_e8: crate::bytes::capped_sum(self.volume_quote_e8, notional),
            builder_fees_quote_e8: crate::bytes::capped_sum(self.builder_fees_quote_e8, fee),
            fill_count: if self.fill_count < u64::MAX {
                (self.fill_count + 1) as u64
            } else {
                u64::MAX
            },
            unique_users: if track {
                self.unique_users.insert(user)
            } else {
                self.unique_users
            },
            first_update_ms: if self.first_update_ms == 0 || ms < self.first_update_ms {
                ms
            } else {
                self.first_update_ms
            },
            last_update_ms: if ms > self.last_update_ms {
                ms
            } else {
                self.last_update_ms
            },
        }
    }
}

impl Default for StrategyStats {
    fn default() -> (r: StrategyStats)
        ensures
            r@ == StrategyModel::none(),
    {
        StrategyStats {
            volume_quote_e8: 0,
            builder_fees_quote_e8: 0,
            fill_count: 0,
            unique_users: NameSet::new(),
            first_update_ms: 0,
            last_update_ms: 0,
        }
    }
}

impl StrategyStats {
    /// Adds what one fill contributes. `track_users` is false for daily rows.
    pub fn accumulate(
        &mut self,
        notional_e8: u128,
        builder_fee_e8: u128,
        user_lower: &str,
        block_ms: u64,
        track_users: bool,
    )
        ensures
            final(self)@ == old(self)@.with_fill(
                notional_e8,
                builder_fee_e8,
                user_lower@,
                block_ms,
                track_users,
            ),
    {
        self.volume_quote_e8 = self.volume_quote_e8.saturating_add(notional_e8);
        self.builder_fees_quote_e8 = self.builder_fees_quote_e8.saturating_add(builder_fee_e8);
        self.fill_count = self.fill_count.saturating_add(1);
        if track_users {
            self.unique_users.insert(user_lower.to_owned());
        }
        if self.first_update_ms == 0 || block_ms < self.first_update_ms {
            self.first_update_ms = block_ms;
        }
        if block_ms > self.last_update_ms {
            self.last_update_ms = block_ms;
        }
    }
}

// ── Keys ─────────────────────────────────────────────────────────────────

/// The key of the row of a strategy.
pub fn cum_key(key: &StratKey) -> (r: [u8; 8])
    ensures
        r@ == key@,
{
    *key
}

/// The key of the row of a strategy and a day.
pub fn day_key(key: &StratKey, day: u32) -> (r: [u8; 12])
    ensures
        r@ == crate::daykeys::day_key(key@, day),
{
    let mut v: Vec<u8> = Vec::new();
    push_day(&mut v, day);
    proof {
        crate::bytes::lemma_be_bytes_len(day as nat, 4);
        assert(v@ =~= crate::bytes::be_bytes(day as nat, 4));
    }
    let r: [u8; 12] = [
        key[0],
        key[1],
        key[2],
        key[3],
        key[4],
        key[5],
        key[6],
        key[7],
        v[0],
        v[1],
        v[2],
        v[3],
    ];
    assert(r@ =~= crate::daykeys::day_key(key@, day));
    r
}

} // verus!

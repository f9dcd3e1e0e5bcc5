//! Where books of levels are kept over time, and which of them a query takes.
//!
//! A book lies under the coin, a zero byte, and the time in eight bytes, so that the books of a coin
//! lie side by side in the order of their times.
use crate::bytes::{is_before, push_be, push_bytes, starts_with_bytes};
use vstd::prelude::*;

verus! {

/// A query for the books of a coin between two times.
pub struct HistoryQuery {
    pub coin: String,
    pub start: u64,
    pub end: u64,
    pub n_sig_figs: Option<u32>,
    pub mantissa: Option<u64>,
}

/// What the keys of a coin start with.
pub open spec fn coin_prefix(coin: Seq<char>) -> Seq<u8> {
    vstd::utf8::encode_utf8(coin).push(0)
}

/// The key of a coin and a time.
pub open spec fn book_key(coin: Seq<char>, time: u64) -> Seq<u8> {
    coin_prefix(coin) + crate::bytes::be_bytes(time as nat, 8)
}

/// What the keys of a coin start with.
pub fn make_prefix(coin: &str) -> (r: Vec<u8>)
    ensures
        r@ == coin_prefix(coin@),
{
    let mut key: Vec<u8> = Vec::new();
    push_bytes(&mut key, coin.as_bytes());
    key.push(0);
    assert(key@ =~= coin_prefix(coin@));
    key
}

/// The key of a coin and a time.
pub fn make_key(coin: &str, time: u64) -> (r: Vec<u8>)
    ensures
        r@ == book_key(coin@, time),
{
    let mut key = make_prefix(coin);
    push_be(&mut key, time, 8);
    key
}

/// The key before which the scan of a query stops. There is none behind the largest time: the scan then
/// runs to the last book of the coin.
pub open spec fn stop_key(coin: Seq<char>, end: u64) -> Option<Seq<u8>> {
    if end < u64::MAX {
        Some(book_key(coin, (end + 1) as u64))
    } else {
        None
    }
}

/// Whether a scan goes on with a row: its key starts with the prefix and lies before the stop.
pub open spec fn within(key: Seq<u8>, stop: Option<Seq<u8>>, prefix: Seq<u8>) -> bool {
    &&& stop matches Some(k) ==> crate::bytes::before(key, k)
    &&& prefix.is_prefix_of(key)
}

/// Whether the scan of a query takes the row with this key.
pub open spec fn taken(key: Seq<u8>, coin: Seq<char>, end: u64) -> bool {
    within(key, stop_key(coin, end), coin_prefix(coin))
}

/// The bounds of a query's scan: the key it starts at, the key it stops before, if any, and what all
/// keys start with.
pub struct ScanBounds {
    pub start: Vec<u8>,
    pub stop: Option<Vec<u8>>,
    pub prefix: Vec<u8>,
}

impl ScanBounds {
    /// The bytes of the key that the scan stops before.
    pub open spec fn stop_view(self) -> Option<Seq<u8>> {
        match self.stop {
            Some(k) => Some(k@),
            None => None,
        }
    }
}

impl HistoryQuery {
    /// The bounds of the scan.
    pub fn bounds(&self) -> (r: ScanBounds)
        ensures
            r.start@ == book_key(self.coin@, self.start),
            r.stop_view() == stop_key(self.coin@, self.end),
            r.prefix@ == coin_prefix(self.coin@),
    {
        ScanBounds {
            start: make_key(self.coin.as_str(), self.start),
            stop: if self.end < u64::MAX {
                Some(make_key(self.coin.as_str(), self.end + 1))
            } else {
                None
            },
            prefix: make_prefix(self.coin.as_str()),
        }
    }

    /// Whether books are grouped anew: they are stored with five significant figures.
    pub fn wants_rebucket(&self) -> (r: bool)
        ensures
            r == match self.n_sig_figs {
                Some(n) => n < 5,
                None => false,
            },
    {
        match self.n_sig_figs {
            Some(n) => n < 5,
            None => false,
        }
    }
}

impl ScanBounds {
    /// Whether the scan goes on with the row under this key; it ends at the first for which it does
    /// not.
    pub fn goes_on(&self, key: &[u8]) -> (r: bool)
        ensures
            r == within(key@, self.stop_view(), self.prefix@),
    {
        let early = match &self.stop {
            Some(k) => is_before(key, k.as_slice()),
            None => true,
        };
        early && starts_with_bytes(key, self.prefix.as_slice())
    }
}

proof fn lemma_eight_bytes()
    ensures
        crate::bytes::byte_range(8) == 0x1_0000_0000_0000_0000,
{
    reveal_with_fuel(crate::bytes::byte_range, 9);
}

/// The keys of a coin sort by time.
pub proof fn law_keys_sort_by_time(coin: Seq<char>, m: u64, n: u64)
    ensures
        crate::bytes::before(book_key(coin, m), book_key(coin, n)) <==> m < n,
        book_key(coin, m) == book_key(coin, n) <==> m == n,
{
    lemma_eight_bytes();
    let (x, y) = (
        crate::bytes::be_bytes(m as nat, 8),
        crate::bytes::be_bytes(n as nat, 8),
    );
    crate::bytes::law_be_bytes_keep_order(m as nat, n as nat, 8);
    crate::bytes::lemma_common_start(coin_prefix(coin), x, y);
    if book_key(coin, m) == book_key(coin, n) {
        let l = coin_prefix(coin).len() as int;
        assert(x =~= book_key(coin, m).skip(l));
        assert(y =~= book_key(coin, n).skip(l));
    }
}

/// Of the books of the coin, a query's scan takes exactly those from its start to its end.
pub proof fn law_query_takes_its_range(coin: Seq<char>, start: u64, end: u64, time: u64)
    ensures
        (!crate::bytes::before(book_key(coin, time), book_key(coin, start)) && taken(
            book_key(coin, time),
            coin,
            end,
        )) <==> start <= time <= end,
{
    law_keys_sort_by_time(coin, time, start);
    if end < u64::MAX {
        law_keys_sort_by_time(coin, time, (end + 1) as u64);
    }
    let p = coin_prefix(coin);
    assert(book_key(coin, time).subrange(0, p.len() as int) =~= p);
}

} // verus!

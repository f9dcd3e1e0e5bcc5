//! Keys of daily rows: the key of what is counted, and behind it the day in four bytes. The rows of
//! one thing lie side by side in the store, in the order of their days.
use vstd::prelude::*;

verus! {

/// The key of the row of a day.
pub open spec fn day_key(p: Seq<u8>, day: u32) -> Seq<u8> {
    p + crate::bytes::be_bytes(day as nat, 4)
}

/// The day of the row with this key, behind `n` other bytes.
pub open spec fn day_of(key: Seq<u8>, n: int) -> nat {
    crate::msgpack::be(key.skip(n), 4)
}

/// Whether the row with this key is one of a day of `p` up to `to`.
pub open spec fn belongs(key: Seq<u8>, p: Seq<u8>, to: u32) -> bool {
    key.len() == p.len() + 4 && key.take(p.len() as int) == p && day_of(key, p.len() as int) <= to
}

/// The number of rows, from `i` on, up to the first that does not belong.
pub open spec fn run(keys: Seq<Seq<u8>>, p: Seq<u8>, to: u32, i: int) -> nat
    decreases keys.len() - i,
{
    if i >= keys.len() || !belongs(keys[i], p, to) {
        0
    } else {
        1 + run(keys, p, to, i + 1)
    }
}

/// What the keys of a list are.
pub open spec fn key_views(v: Seq<Vec<u8>>) -> Seq<Seq<u8>> {
    v.map_values(|k: Vec<u8>| k@)
}

/// The days of the rows that a scan takes.
pub open spec fn scanned_days(keys: Seq<Seq<u8>>, p: Seq<u8>, to: u32) -> Seq<u32> {
    Seq::new(run(keys, p, to, 0), |i: int| day_of(keys[i], p.len() as int) as u32)
}

/// A number of four bytes is what was written in them.
pub proof fn lemma_be_of_bytes(n: nat)
    requires
        n < 0x1_0000_0000,
    ensures
        crate::msgpack::be(crate::bytes::be_bytes(n, 4), 4) == n,
{
    reveal_with_fuel(crate::msgpack::be, 5);
    reveal_with_fuel(crate::bytes::be_bytes, 5);
    assert(n / 256 / 256 / 256 < 256);
}

/// Four bytes are those of the number they stand for.
pub proof fn lemma_bytes_of_be(s: Seq<u8>)
    requires
        s.len() == 4,
    ensures
        crate::msgpack::be(s, 4) < 0x1_0000_0000,
        crate::bytes::be_bytes(crate::msgpack::be(s, 4), 4) == s,
{
    reveal_with_fuel(crate::msgpack::be, 5);
    reveal_with_fuel(crate::bytes::be_bytes, 5);
    let n = crate::msgpack::be(s, 4);
    assert(n % 256 == s[3]);
    assert((n / 256) % 256 == s[2]);
    assert((n / 256 / 256) % 256 == s[1]);
    assert((n / 256 / 256 / 256) % 256 == s[0]);
    assert(crate::bytes::be_bytes(n, 4) =~= s);
}

/// Four bytes hold every number of 32 bits.
pub proof fn lemma_four_bytes()
    ensures
        crate::bytes::byte_range(4) == 0x1_0000_0000,
{
    reveal_with_fuel(crate::bytes::byte_range, 5);
}

/// Appends the day to a key.
pub fn push_day(key: &mut Vec<u8>, day: u32)
    ensures
        final(key)@ == day_key(old(key)@, day),
{
    crate::bytes::push_be(key, day as u64, 4);
}

/// The number in the last four bytes of a key.
fn read_day(key: &[u8]) -> (r: u32)
    requires
        key@.len() >= 4,
    ensures
        r == day_of(key@, key@.len() - 4),
{
    let n: usize = key.len();
    proof {
        reveal_with_fuel(crate::msgpack::be, 5);
    }
    let r: u64 = ((key[n - 4] as u64 * 256 + key[n - 3] as u64) * 256 + key[n - 2] as u64) * 256
        + key[n - 1] as u64;
    r as u32
}

/// The days of the rows that a scan for `p` takes, from the first of the given keys on up to the day
/// `to`. The keys are those of the store from where the scan starts.
#[verifier::loop_isolation(false)]
pub fn scan_days(keys: &Vec<Vec<u8>>, p: &[u8], to: u32) -> (r: Vec<u32>)
    ensures
        r@ == scanned_days(key_views(keys@), p@, to),
{
    let ghost ks = key_views(keys@);
    let n: usize = p.len();
    let mut r: Vec<u32> = Vec::new();
    let mut i: usize = 0;
    while i < keys.len()
        invariant
            i <= keys@.len(),
            ks == key_views(keys@),
            n == p@.len(),
            r@.len() == i,
            run(ks, p@, to, 0) == i + run(ks, p@, to, i as int),
            forall|j: int| 0 <= j < i ==> r@[j] == day_of(ks[j], n as int) as u32,
        decreases keys@.len() - i,
    {
        let k = keys[i].as_slice();
        assert(ks[i as int] == k@);
        if k.len() < 4 || k.len() - 4 != n || !crate::bytes::starts_with_bytes(k, p) {
            proof {
                if k@.len() == n + 4 && k@.take(n as int) == p@ {
                    assert(p@.is_prefix_of(k@));
                }
            }
            break ;
        }
        assert(k@.take(n as int) =~= p@);
        let day: u32 = read_day(k);
        if day > to {
            break ;
        }
        r.push(day);
        i = i + 1;
    }
    assert(r@ =~= scanned_days(ks, p@, to));
    r
}

/// Daily rows sort behind the row of what is counted, and by their days.
pub proof fn law_day_keys_sort_by_day(p: Seq<u8>, m: u32, n: u32)
    ensures
        crate::bytes::before(p, day_key(p, m)),
        crate::bytes::before(day_key(p, m), day_key(p, n)) <==> m < n,
        day_key(p, m) == day_key(p, n) <==> m == n,
{
    let (x, y) = (
        crate::bytes::be_bytes(m as nat, 4),
        crate::bytes::be_bytes(n as nat, 4),
    );
    lemma_four_bytes();
    crate::bytes::law_be_bytes_keep_order(m as nat, n as nat, 4);
    crate::bytes::lemma_common_start(p, x, y);
    crate::bytes::lemma_common_start(p, Seq::empty(), x);
    crate::bytes::lemma_be_bytes_len(m as nat, 4);
    assert(p + Seq::<u8>::empty() =~= p);
    if day_key(p, m) == day_key(p, n) {
        assert(x =~= day_key(p, m).skip(p.len() as int));
        assert(y =~= day_key(p, n).skip(p.len() as int));
    }
}

/// All rows of one thing sort before those of another whose key comes later.
pub proof fn law_day_keys_keep_apart(p: Seq<u8>, q: Seq<u8>, m: u32, n: u32)
    requires
        p.len() == q.len(),
        crate::bytes::before(p, q),
    ensures
        crate::bytes::before(day_key(p, m), q),
        crate::bytes::before(day_key(p, m), day_key(q, n)),
{
    crate::bytes::lemma_before_irreflexive(p);
    let x = crate::bytes::be_bytes(m as nat, 4);
    crate::bytes::lemma_starts_decide(p, q, x, Seq::empty());
    assert(q + Seq::<u8>::empty() =~= q);
    crate::bytes::lemma_starts_decide(p, q, x, crate::bytes::be_bytes(n as nat, 4));
}

/// Whether the keys are in the order of the store.
pub open spec fn store_order(keys: Seq<Seq<u8>>) -> bool {
    forall|i: int, j: int|
        0 <= i < j < keys.len() ==> crate::bytes::before(#[trigger] keys[i], #[trigger] keys[j])
}

proof fn lemma_run(keys: Seq<Seq<u8>>, p: Seq<u8>, to: u32, i: int)
    requires
        0 <= i <= keys.len(),
    ensures
        i + run(keys, p, to, i) <= keys.len(),
        forall|j: int| i <= j < i + run(keys, p, to, i) ==> belongs(#[trigger] keys[j], p, to),
        i + run(keys, p, to, i) < keys.len() ==> !belongs(
            keys[i + run(keys, p, to, i)],
            p,
            to,
        ),
    decreases keys.len() - i,
{
    if i < keys.len() && belongs(keys[i], p, to) {
        lemma_run(keys, p, to, i + 1);
    }
}

/// A scan that starts at the row of the day `from` takes exactly the rows of the days from `from` up
/// to `to`, whatever else is in the store.
pub proof fn law_scan_takes_the_days(
    keys: Seq<Seq<u8>>,
    p: Seq<u8>,
    from: u32,
    to: u32,
    i: int,
)
    requires
        store_order(keys),
        forall|j: int|
            0 <= j < keys.len() ==> !crate::bytes::before(#[trigger] keys[j], day_key(p, from)),
        forall|j: int|
            0 <= j < keys.len() ==> (#[trigger] keys[j]).len() == p.len() || keys[j].len()
                == p.len() + 4,
        0 <= i < keys.len(),
    ensures
        i < run(keys, p, to, 0) <==> exists|d: u32|
            from <= d <= to && keys[i] == #[trigger] day_key(p, d),
{
    let t = run(keys, p, to, 0) as int;
    let l = p.len() as int;
    lemma_run(keys, p, to, 0);
    lemma_four_bytes();
    if i < t {
        let k = keys[i];
        assert(belongs(k, p, to));
        lemma_bytes_of_be(k.skip(l));
        let d = day_of(k, l) as u32;
        assert(k =~= day_key(p, d));
        law_day_keys_sort_by_day(p, d, from);
        assert(from <= d <= to && keys[i] == day_key(p, d));
    } else if exists|d: u32| from <= d <= to && keys[i] == #[trigger] day_key(p, d) {
        let d = choose|d: u32| from <= d <= to && keys[i] == #[trigger] day_key(p, d);
        lemma_be_of_bytes(d as nat);
        crate::bytes::lemma_be_bytes_len(d as nat, 4);
        assert(keys[i].take(l) =~= p);
        assert(keys[i].skip(l) =~= crate::bytes::be_bytes(d as nat, 4));
        assert(belongs(keys[i], p, to));
        assert(t < i);
        let k = keys[t];
        let q = k.take(l);
        let x = k.skip(l);
        assert(k =~= q + x);
        assert(!belongs(k, p, to));
        assert(crate::bytes::before(k, keys[i]));
        assert(!crate::bytes::before(k, day_key(p, from)));
        if q != p {
            crate::bytes::lemma_starts_decide(q, p, x, crate::bytes::be_bytes(d as nat, 4));
            crate::bytes::lemma_starts_decide(q, p, x, crate::bytes::be_bytes(from as nat, 4));
        } else if k.len() == l {
            assert(k =~= p);
            law_day_keys_sort_by_day(p, from, from);
        } else {
            lemma_bytes_of_be(x);
            let e = day_of(k, l) as u32;
            assert(k =~= day_key(p, e));
            law_day_keys_sort_by_day(p, e, d);
        }
        assert(false);
    }
}

} // verus!

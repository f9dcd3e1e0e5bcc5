//! Byte keys: their order, and numbers written so that the order of the keys is that of the numbers.
use vstd::prelude::*;

verus! {

/// Whether `a` comes before `b` in a store whose keys are ordered byte by byte.
pub open spec fn before(a: Seq<u8>, b: Seq<u8>) -> bool
    decreases a.len(),
{
    if b.len() == 0 {
        false
    } else if a.len() == 0 {
        true
    } else if a[0] != b[0] {
        a[0] < b[0]
    } else {
        before(a.skip(1), b.skip(1))
    }
}

/// The last `k` bytes of a number, the highest first.
pub open spec fn be_bytes(n: nat, k: nat) -> Seq<u8>
    decreases k,
{
    if k == 0 {
        Seq::empty()
    } else {
        be_bytes(n / 256, (k - 1) as nat).push((n % 256) as u8)
    }
}

/// One more than the largest number of `k` bytes.
pub open spec fn byte_range(k: nat) -> nat
    decreases k,
{
    if k == 0 {
        1
    } else {
        256 * byte_range((k - 1) as nat)
    }
}

pub proof fn lemma_be_bytes_len(n: nat, k: nat)
    ensures
        be_bytes(n, k).len() == k,
    decreases k,
{
    if k > 0 {
        lemma_be_bytes_len(n / 256, (k - 1) as nat);
    }
}

/// Of two keys that start alike, the order is that of what follows.
pub proof fn lemma_common_start(p: Seq<u8>, a: Seq<u8>, b: Seq<u8>)
    ensures
        before(p + a, p + b) == before(a, b),
    decreases p.len(),
{
    if p.len() == 0 {
        assert(p + a =~= a);
        assert(p + b =~= b);
    } else {
        assert((p + a).skip(1) =~= p.skip(1) + a);
        assert((p + b).skip(1) =~= p.skip(1) + b);
        lemma_common_start(p.skip(1), a, b);
    }
}

/// Of two keys whose starts of one length differ, the order is that of the starts.
pub proof fn lemma_starts_decide(a: Seq<u8>, b: Seq<u8>, x: Seq<u8>, y: Seq<u8>)
    requires
        a.len() == b.len(),
        a != b,
    ensures
        before(a + x, b + y) == before(a, b),
    decreases a.len(),
{
    if a.len() == 0 {
        assert(a =~= b);
    } else if a[0] == b[0] {
        assert((a + x).skip(1) =~= a.skip(1) + x);
        assert((b + y).skip(1) =~= b.skip(1) + y);
        if a.skip(1) == b.skip(1) {
            assert(a =~= seq![a[0]] + a.skip(1));
            assert(b =~= seq![b[0]] + b.skip(1));
        }
        lemma_starts_decide(a.skip(1), b.skip(1), x, y);
    }
}

/// No key comes before itself.
pub proof fn lemma_before_irreflexive(a: Seq<u8>)
    ensures
        !before(a, a),
    decreases a.len(),
{
    if a.len() > 0 {
        lemma_before_irreflexive(a.skip(1));
    }
}

/// Of two different keys one comes before the other, and not the other way round.
pub proof fn lemma_before_total(a: Seq<u8>, b: Seq<u8>)
    ensures
        a != b ==> before(a, b) || before(b, a),
        !(before(a, b) && before(b, a)),
    decreases a.len(),
{
    if a.len() > 0 && b.len() > 0 {
        lemma_before_total(a.skip(1), b.skip(1));
        if a[0] == b[0] && a.skip(1) == b.skip(1) {
            assert(a =~= seq![a[0]] + a.skip(1));
            assert(b =~= seq![b[0]] + b.skip(1));
        }
    } else if a.len() == 0 && b.len() == 0 {
        assert(a =~= b);
    }
}

/// What comes before a key comes before those behind it.
pub proof fn lemma_before_transitive(a: Seq<u8>, b: Seq<u8>, c: Seq<u8>)
    requires
        before(a, b),
        before(b, c),
    ensures
        before(a, c),
    decreases a.len(),
{
    if a.len() > 0 && a[0] == b[0] && b[0] == c[0] {
        lemma_before_transitive(a.skip(1), b.skip(1), c.skip(1));
    }
}

/// Numbers written in so many bytes are ordered as they are.
pub proof fn law_be_bytes_keep_order(m: nat, n: nat, k: nat)
    requires
        m < byte_range(k),
        n < byte_range(k),
    ensures
        before(be_bytes(m, k), be_bytes(n, k)) <==> m < n,
        be_bytes(m, k) == be_bytes(n, k) <==> m == n,
    decreases k,
{
    if k == 0 {
        lemma_before_irreflexive(be_bytes(m, k));
    } else {
        let j = (k - 1) as nat;
        law_be_bytes_keep_order(m / 256, n / 256, j);
        lemma_be_bytes_len(m / 256, j);
        lemma_be_bytes_len(n / 256, j);
        let (a, b) = (be_bytes(m / 256, j), be_bytes(n / 256, j));
        let (x, y) = (seq![(m % 256) as u8], seq![(n % 256) as u8]);
        assert(be_bytes(m, k) =~= a + x);
        assert(be_bytes(n, k) =~= b + y);
        if m / 256 == n / 256 {
            lemma_common_start(a, x, y);
            lemma_before_irreflexive(x.skip(1));
            if be_bytes(m, k) == be_bytes(n, k) {
                assert((a + x)[j as int] == (b + y)[j as int]);
            }
        } else {
            lemma_starts_decide(a, b, x, y);
            if be_bytes(m, k) == be_bytes(n, k) {
                assert(a =~= (a + x).take(j as int));
                assert(b =~= (b + y).take(j as int));
            }
        }
    }
}

/// Whether `a` comes before `b`.
pub fn is_before(a: &[u8], b: &[u8]) -> (r: bool)
    ensures
        r == before(a@, b@),
{
    let mut i: usize = 0;
    proof {
        assert(a@.skip(0) =~= a@);
        assert(b@.skip(0) =~= b@);
    }
    while i < a.len() && i < b.len() && a[i] == b[i]
        invariant
            i <= a@.len(),
            i <= b@.len(),
            before(a@, b@) == before(a@.skip(i as int), b@.skip(i as int)),
        decreases a@.len() - i,
    {
        proof {
            assert(a@.skip(i as int).skip(1) =~= a@.skip(i + 1));
            assert(b@.skip(i as int).skip(1) =~= b@.skip(i + 1));
        }
        i = i + 1;
    }
    if i == b.len() {
        false
    } else if i == a.len() {
        true
    } else {
        a[i] < b[i]
    }
}

/// Whether two keys are the same.
pub fn same_bytes(a: &[u8], b: &[u8]) -> (r: bool)
    ensures
        r == (a@ == b@),
{
    if a.len() != b.len() {
        return false;
    }
    let mut i: usize = 0;
    while i < a.len()
        invariant
            i <= a@.len() == b@.len(),
            forall|j: int| 0 <= j < i ==> a@[j] == b@[j],
        decreases a@.len() - i,
    {
        if a[i] != b[i] {
            return false;
        }
        i = i + 1;
    }
    assert(a@ =~= b@);
    true
}

/// Whether a key starts with the bytes.
pub fn starts_with_bytes(a: &[u8], p: &[u8]) -> (r: bool)
    ensures
        r == p@.is_prefix_of(a@),
{
    if a.len() < p.len() {
        return false;
    }
    let mut i: usize = 0;
    while i < p.len()
        invariant
            i <= p@.len() <= a@.len(),
            forall|j: int| 0 <= j < i ==> a@[j] == p@[j],
        decreases p@.len() - i,
    {
        if a[i] != p[i] {
            return false;
        }
        i = i + 1;
    }
    assert(a@.subrange(0, p@.len() as int) =~= p@);
    true
}

/// Appends bytes.
pub fn push_bytes(v: &mut Vec<u8>, b: &[u8])
    ensures
        final(v)@ == old(v)@ + b@,
{
    let ghost start = v@;
    let mut i: usize = 0;
    assert(v@ =~= start + b@.take(0));
    while i < b.len()
        invariant
            i <= b@.len(),
            v@ == start + b@.take(i as int),
        decreases b@.len() - i,
    {
        v.push(b[i]);
        assert(v@ =~= start + b@.take(i + 1));
        i = i + 1;
    }
    assert(b@.take(i as int) =~= b@);
}

/// Appends the last `k` bytes of a number, the highest first.
pub fn push_be(v: &mut Vec<u8>, n: u64, k: u8)
    ensures
        final(v)@ == old(v)@ + be_bytes(n as nat, k as nat),
    decreases k,
{
    if k > 0 {
        push_be(v, n / 256, k - 1);
        v.push((n % 256) as u8);
    }
    assert(v@ =~= old(v)@ + be_bytes(n as nat, k as nat));
}

/// The sum of two totals, at most the largest number there is.
pub open spec fn capped_sum(a: u128, b: u128) -> u128 {
    if a + b <= u128::MAX {
        (a + b) as u128
    } else {
        u128::MAX
    }
}

} // verus!

//! Sorting that keeps the order of equals.
use vstd::prelude::*;

verus! {

/// Whether position `a` comes before position `b`: by rank, then by position.
pub open spec fn ranked_before(ranks: Seq<u128>, a: int, b: int) -> bool {
    ranks[a] < ranks[b] || ranks[a] == ranks[b] && a < b
}

/// Whether every position in the list comes before those behind it.
pub open spec fn in_rank_order(ranks: Seq<u128>, r: Seq<usize>) -> bool {
    forall|i: int, j: int|
        0 <= i < j < r.len() ==> ranked_before(ranks, #[trigger] r[i] as int, #[trigger] r[j] as int)
}

fn ranks_before(ranks: &Vec<u128>, a: usize, b: usize) -> (r: bool)
    requires
        a < ranks@.len(),
        b < ranks@.len(),
    ensures
        r == ranked_before(ranks@, a as int, b as int),
{
    ranks[a] < ranks[b] || (ranks[a] == ranks[b] && a < b)
}

/// One list of two lists in order.
fn merge(ranks: &Vec<u128>, l: &Vec<usize>, m: &Vec<usize>) -> (r: Vec<usize>)
    requires
        in_rank_order(ranks@, l@),
        in_rank_order(ranks@, m@),
        forall|i: int| 0 <= i < l@.len() ==> (#[trigger] l@[i]) < ranks@.len(),
        forall|i: int| 0 <= i < m@.len() ==> (#[trigger] m@[i]) < ranks@.len(),
        forall|i: int, j: int|
            0 <= i < l@.len() && 0 <= j < m@.len() ==> #[trigger] l@[i] != #[trigger] m@[j],
    ensures
        in_rank_order(ranks@, r@),
        r@.len() == l@.len() + m@.len(),
        forall|x: usize| r@.contains(x) <==> l@.contains(x) || m@.contains(x),
{
    let mut r: Vec<usize> = Vec::new();
    let mut i: usize = 0;
    let mut j: usize = 0;
    while i < l.len() || j < m.len()
        invariant
            i <= l@.len(),
            j <= m@.len(),
            r@.len() == i + j,
            in_rank_order(ranks@, l@),
            in_rank_order(ranks@, m@),
            forall|k: int| 0 <= k < l@.len() ==> (#[trigger] l@[k]) < ranks@.len(),
            forall|k: int| 0 <= k < m@.len() ==> (#[trigger] m@[k]) < ranks@.len(),
            forall|a: int, b: int|
                0 <= a < l@.len() && 0 <= b < m@.len() ==> #[trigger] l@[a] != #[trigger] m@[b],
            in_rank_order(ranks@, r@),
            forall|a: int, b: int|
                0 <= a < r@.len() && i <= b < l@.len() ==> ranked_before(
                    ranks@,
                    #[trigger] r@[a] as int,
                    #[trigger] l@[b] as int,
                ),
            forall|a: int, b: int|
                0 <= a < r@.len() && j <= b < m@.len() ==> ranked_before(
                    ranks@,
                    #[trigger] r@[a] as int,
                    #[trigger] m@[b] as int,
                ),
            forall|x: usize|
                r@.contains(x) <==> l@.take(i as int).contains(x) || m@.take(j as int).contains(x),
        decreases l@.len() - i + m@.len() - j,
    {
        let left = if i >= l.len() {
            false
        } else if j >= m.len() {
            true
        } else {
            ranks_before(ranks, l[i], m[j])
        };
        let ghost was = r@;
        if left {
            let x: usize = l[i];
            r.push(x);
            proof {
                crate::strmap::lemma_take_one(l@, i as int);
                assert(r@[was.len() as int] == x);
                assert forall|y: usize| r@.contains(y) <==> l@.take(i + 1).contains(y) || m@.take(
                    j as int,
                ).contains(y) by {
                    assert(l@.take(i + 1).contains(y) <==> l@.take(i as int).contains(y) || y
                        == l@[i as int]);
                    lemma_push_contains(was, x, y);
                }
                if j < m@.len() {
                    assert forall|b: int| j <= b < m@.len() implies ranked_before(
                        ranks@,
                        x as int,
                        #[trigger] m@[b] as int,
                    ) by {
                        if b > j {
                            assert(ranked_before(ranks@, m@[j as int] as int, m@[b] as int));
                        }
                    }
                }
            }
            i = i + 1;
        } else {
            let x: usize = m[j];
            r.push(x);
            proof {
                crate::strmap::lemma_take_one(m@, j as int);
                assert(r@[was.len() as int] == x);
                assert forall|y: usize| r@.contains(y) <==> l@.take(i as int).contains(y)
                    || m@.take(j + 1).contains(y) by {
                    assert(m@.take(j + 1).contains(y) <==> m@.take(j as int).contains(y) || y
                        == m@[j as int]);
                    lemma_push_contains(was, x, y);
                }
                if i < l@.len() {
                    assert(l@[i as int] != m@[j as int]);
                    assert forall|b: int| i <= b < l@.len() implies ranked_before(
                        ranks@,
                        x as int,
                        #[trigger] l@[b] as int,
                    ) by {
                        assert(ranked_before(ranks@, x as int, l@[i as int] as int));
                        if b > i {
                            assert(ranked_before(ranks@, l@[i as int] as int, l@[b] as int));
                        }
                    }
                }
            }
            j = j + 1;
        }
    }
    proof {
        assert(l@.take(i as int) =~= l@);
        assert(m@.take(j as int) =~= m@);
    }
    r
}

proof fn lemma_push_contains(s: Seq<usize>, x: usize, y: usize)
    ensures
        s.push(x).contains(y) <==> s.contains(y) || y == x,
{
    if s.push(x).contains(y) {
        let k = s.push(x).index_of(y);
        if k < s.len() {
            assert(s[k] == y);
        }
    }
    if s.contains(y) {
        assert(s.push(x)[s.index_of(y)] == y);
    }
    assert(s.push(x)[s.len() as int] == x);
}

fn sort_range(ranks: &Vec<u128>, lo: usize, hi: usize) -> (r: Vec<usize>)
    requires
        lo <= hi <= ranks@.len(),
    ensures
        in_rank_order(ranks@, r@),
        r@.len() == hi - lo,
        forall|x: usize| r@.contains(x) <==> lo <= x < hi,
    decreases hi - lo,
{
    if hi - lo == 0 {
        Vec::new()
    } else if hi - lo == 1 {
        let mut r: Vec<usize> = Vec::new();
        r.push(lo);
        assert(r@[0] == lo);
        r
    } else {
        let mid: usize = lo + (hi - lo) / 2;
        let l = sort_range(ranks, lo, mid);
        let m = sort_range(ranks, mid, hi);
        proof {
            assert forall|i: int| 0 <= i < l@.len() implies lo <= (#[trigger] l@[i]) < mid by {
                assert(l@.contains(l@[i]));
            }
            assert forall|i: int| 0 <= i < m@.len() implies mid <= (#[trigger] m@[i]) < hi by {
                assert(m@.contains(m@[i]));
            }
        }
        merge(ranks, &l, &m)
    }
}

/// The positions, by rank, and by position where the rank is the same. Every position comes once.
pub fn stable_order(ranks: &Vec<u128>) -> (r: Vec<usize>)
    ensures
        r@.len() == ranks@.len(),
        forall|x: usize| r@.contains(x) <==> x < ranks@.len(),
        in_rank_order(ranks@, r@),
{
    sort_range(ranks, 0, ranks.len())
}

} // verus!

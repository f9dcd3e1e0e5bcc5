//! A map from order ids that knows in which order its entries came.
use std::collections::HashMap;
use vstd::prelude::*;

verus! {

/// Entries by id, and the ids in the order in which their entries came, the oldest first. An entry
/// that replaces another one of its id is the newest.
pub struct Arrivals<T> {
    items: HashMap<u64, T>,
    order: Vec<u64>,
}

/// What a map of arrivals holds.
#[verifier::ext_equal]
pub struct ArrivalsModel<T> {
    pub items: Map<u64, T>,
    pub order: Seq<u64>,
}

/// A list without an id.
pub open spec fn without(s: Seq<u64>, k: u64) -> Seq<u64> {
    if s.contains(k) {
        s.remove(s.index_of(k))
    } else {
        s
    }
}

/// The newer half of a list; of an odd number the larger half.
pub open spec fn newer_half(s: Seq<u64>) -> Seq<u64> {
    s.skip((s.len() / 2) as int)
}

/// Whether a list gives the members of a set, each once.
pub open spec fn lists(order: Seq<u64>, members: Set<u64>) -> bool {
    &&& order.no_duplicates()
    &&& order.to_set() == members
}

impl<T> View for Arrivals<T> {
    type V = ArrivalsModel<T>;

    closed spec fn view(&self) -> ArrivalsModel<T> {
        ArrivalsModel { items: self.items@, order: self.order@ }
    }
}

impl<T> ArrivalsModel<T> {
    /// Each id is listed once.
    pub open spec fn wf(self) -> bool {
        lists(self.order, self.items.dom())
    }

    /// The map with one more arrival.
    pub open spec fn arrived(self, k: u64, v: T) -> ArrivalsModel<T> {
        ArrivalsModel { items: self.items.insert(k, v), order: without(self.order, k).push(k) }
    }

    /// The map without an id.
    pub open spec fn dropped(self, k: u64) -> ArrivalsModel<T> {
        ArrivalsModel { items: self.items.remove(k), order: without(self.order, k) }
    }

    /// The map without its older half.
    pub open spec fn halved(self) -> ArrivalsModel<T> {
        ArrivalsModel {
            items: self.items.restrict(newer_half(self.order).to_set()),
            order: newer_half(self.order),
        }
    }
}

/// What a list without an id gives.
pub proof fn lemma_without(s: Seq<u64>, members: Set<u64>, k: u64)
    requires
        lists(s, members),
    ensures
        lists(without(s, k), members.remove(k)),
        lists(without(s, k).push(k), members.insert(k)),
{
    let t = without(s, k);
    if s.contains(k) {
        let p = s.index_of(k);
        assert forall|x: u64| t.contains(x) implies x != k && s.contains(x) by {
            let i = t.index_of(x);
            assert(s[if i < p { i } else { i + 1 }] == x);
        }
        assert forall|x: u64| s.contains(x) && x != k implies t.contains(x) by {
            let i = s.index_of(x);
            assert(t[if i < p { i } else { i - 1 }] == x);
        }
    }
    assert(!t.contains(k));
    assert(t.no_duplicates());
    assert(t.to_set() =~= members.remove(k));
    let u = t.push(k);
    assert(u.no_duplicates()) by {
        assert forall|i: int, j: int| 0 <= i < u.len() && 0 <= j < u.len() && i != j implies u[i]
            != u[j] by {
            if i < t.len() {
                assert(t.contains(t[i]));
            }
            if j < t.len() {
                assert(t.contains(t[j]));
            }
        }
    }
    assert forall|x: u64| u.contains(x) == members.insert(k).contains(x) by {
        assert(u[t.len() as int] == k);
        if t.contains(x) {
            assert(u[t.index_of(x)] == x);
        }
        if u.contains(x) && x != k {
            assert(t[u.index_of(x)] == x);
        }
        assert(t.to_set().contains(x) == members.remove(k).contains(x));
    }
    assert(u.to_set() =~= members.insert(k));
}

/// The newer half of a list of members lists some of them, once each.
pub proof fn lemma_newer_half(s: Seq<u64>, members: Set<u64>)
    requires
        lists(s, members),
    ensures
        lists(newer_half(s), newer_half(s).to_set()),
        newer_half(s).to_set().subset_of(members),
        newer_half(s).to_set().len() == s.len() - s.len() / 2,
{
    let t = newer_half(s);
    assert forall|x: u64| t.contains(x) implies members.contains(x) by {
        assert(s[t.index_of(x) + s.len() / 2] == x);
        assert(s.to_set().contains(x));
    }
    t.unique_seq_to_set();
}

impl<T> Arrivals<T> {
    pub fn new() -> (r: Self)
        ensures
            r@ == (ArrivalsModel::<T> { items: Map::empty(), order: Seq::empty() }),
            r@.wf(),
    {
        broadcast use vstd::std_specs::hash::group_hash_axioms;

        let r = Arrivals { items: HashMap::new(), order: Vec::new() };
        assert(r@.order.to_set() =~= r@.items.dom());
        r
    }

    /// The number of entries.
    pub fn len(&self) -> (n: usize)
        ensures
            n == self@.items.len(),
    {
        broadcast use vstd::std_specs::hash::group_hash_axioms;

        self.items.len()
    }

    pub fn contains(&self, k: u64) -> (r: bool)
        ensures
            r == self@.items.contains_key(k),
    {
        broadcast use vstd::std_specs::hash::group_hash_axioms;

        self.items.contains_key(&k)
    }

    /// Takes an id off the list. The newest are looked at first.
    fn unlist(&mut self, k: u64)
        requires
            old(self)@.order.no_duplicates(),
        ensures
            final(self)@ == (ArrivalsModel { order: without(old(self)@.order, k), ..old(self)@ }),
    {
        let ghost s = self.order@;
        let mut i: usize = self.order.len();
        while i > 0
            invariant
                i <= s.len(),
                s == self.order@,
                *self == *old(self),
                forall|j: int| i <= j < s.len() ==> s[j] != k,
                s.no_duplicates(),
            decreases i,
        {
            i = i - 1;
            if self.order[i] == k {
                proof {
                    assert(s.contains(s[i as int]));
                    assert(s.index_of(k) == i);
                }
                self.order.remove(i);
                return;
            }
        }
        assert(!s.contains(k));
    }

    /// Takes in an entry.
    pub fn insert(&mut self, k: u64, v: T)
        requires
            old(self)@.wf(),
        ensures
            final(self)@ == old(self)@.arrived(k, v),
            final(self)@.wf(),
    {
        broadcast use vstd::std_specs::hash::group_hash_axioms;

        proof {
            lemma_without(self@.order, self@.items.dom(), k);
        }
        let ghost before = self@;
        if self.items.contains_key(&k) {
            self.unlist(k);
        } else {
            assert(!before.order.to_set().contains(k));
        }
        self.items.insert(k, v);
        self.order.push(k);
        assert(self@.items.dom() =~= before.items.dom().insert(k));
    }

    /// Drops an entry.
    pub fn remove(&mut self, k: u64) -> (r: Option<T>)
        requires
            old(self)@.wf(),
        ensures
            final(self)@ == old(self)@.dropped(k),
            final(self)@.wf(),
            r == if old(self)@.items.contains_key(k) {
                Some(old(self)@.items[k])
            } else {
                None
            },
    {
        broadcast use vstd::std_specs::hash::group_hash_axioms;

        proof {
            lemma_without(self@.order, self@.items.dom(), k);
        }
        let ghost before = self@;
        let r = self.items.remove(&k);
        if r.is_some() {
            self.unlist(k);
        } else {
            assert(!before.order.to_set().contains(k));
        }
        assert(self@.items =~= before.items.remove(k));
        r
    }

    /// Drops the older half of the entries.
    pub fn drop_older_half(&mut self)
        requires
            old(self)@.wf(),
        ensures
            final(self)@ == old(self)@.halved(),
            final(self)@.wf(),
    {
        broadcast use vstd::std_specs::hash::group_hash_axioms;

        let ghost before = self@;
        let half: usize = self.order.len() / 2;
        let mut i: usize = 0;
        while i < half
            invariant
                i <= half <= self.order@.len(),
                self.order@ == before.order,
                self.items@ == before.items.remove_keys(before.order.take(i as int).to_set()),
            decreases half - i,
        {
            broadcast use vstd::std_specs::hash::group_hash_axioms;

            let k: u64 = self.order[i];
            let ghost was = self.items@;
            self.items.remove(&k);
            i = i + 1;
            proof {
                assert(self.items@ =~= was.remove(k));
                let a = before.order.take(i - 1);
                let b = before.order.take(i as int);
                crate::strmap::lemma_take_one(before.order, i - 1);
                assert(b.to_set() =~= a.to_set().insert(k));
                assert(self.items@ =~= before.items.remove_keys(b.to_set()));
            }
        }
        let kept = self.order.split_off(half);
        self.order = kept;
        proof {
            lemma_newer_half(before.order, before.items.dom());
            let old_ones = before.order.take(half as int);
            let new_ones = newer_half(before.order);
            assert(kept@ =~= new_ones);
            assert forall|x: u64| before.items.contains_key(x) implies old_ones.to_set().contains(x)
                == !new_ones.to_set().contains(x) by {
                assert(before.order.to_set().contains(x));
                let p = before.order.index_of(x);
                if p < half {
                    assert(old_ones[p] == x);
                } else {
                    assert(new_ones[p - half] == x);
                }
                if old_ones.contains(x) && new_ones.contains(x) {
                    assert(before.order[old_ones.index_of(x)] == x);
                    assert(before.order[new_ones.index_of(x) + half] == x);
                }
            }
            assert(self@.items =~= before.halved().items);
            assert(self@.items.dom() =~= new_ones.to_set());
        }
    }
}

} // verus!

//! A map from numeric ids, kept in ascending order of id.
use vstd::prelude::*;

verus! {

/// A map whose keys are asset, token or table ids. It holds few entries, in ascending order of key.
pub struct AssetMap<T> {
    ids: Vec<u32>,
    vals: Vec<T>,
}

/// Whether every id is smaller than the ones behind it.
pub open spec fn ascending(s: Seq<u32>) -> bool {
    forall|i: int, j: int| 0 <= i < j < s.len() ==> s[i] < s[j]
}

impl<T: View> View for AssetMap<T> {
    type V = Map<u32, T::V>;

    closed spec fn view(&self) -> Map<u32, T::V> {
        Map::new(
            |k: u32| self.ids@.contains(k),
            |k: u32| self.vals@[self.ids@.index_of(k)]@,
        )
    }
}

impl<T> AssetMap<T> {
    #[verifier::type_invariant]
    spec fn inv(self) -> bool {
        &&& self.ids@.len() == self.vals@.len()
        &&& ascending(self.ids@)
    }

    /// The keys, in ascending order.
    pub closed spec fn keys(&self) -> Seq<u32> {
        self.ids@
    }

    /// The position of the first key that is not below `k`.
    fn position(&self, k: u32) -> (p: usize)
        ensures
            p <= self.ids@.len(),
            forall|i: int| 0 <= i < p ==> self.ids@[i] < k,
            forall|i: int| p <= i < self.ids@.len() ==> k <= self.ids@[i],
    {
        proof {
            use_type_invariant(self);
        }
        let mut lo: usize = 0;
        let mut hi: usize = self.ids.len();
        while lo < hi
            invariant
                lo <= hi <= self.ids@.len(),
                ascending(self.ids@),
                forall|i: int| 0 <= i < lo ==> self.ids@[i] < k,
                forall|i: int| hi <= i < self.ids@.len() ==> k <= self.ids@[i],
            decreases hi - lo,
        {
            let mid: usize = lo + (hi - lo) / 2;
            if self.ids[mid] < k {
                lo = mid + 1;
            } else {
                hi = mid;
            }
        }
        lo
    }
}

/// The place of an id in an ascending list that holds it.
proof fn lemma_place(s: Seq<u32>, i: int)
    requires
        ascending(s),
        0 <= i < s.len(),
    ensures
        s.contains(s[i]),
        s.index_of(s[i]) == i,
{
    assert(s.contains(s[i]));
    let j = s.index_of(s[i]);
    assert(0 <= j < s.len() && s[j] == s[i]);
    if j < i {
        assert(s[j] < s[i]);
    } else if i < j {
        assert(s[i] < s[j]);
    }
}

impl<T: View> AssetMap<T> {
    pub fn new() -> (r: Self)
        ensures
            r@ == Map::<u32, T::V>::empty(),
            r.keys() == Seq::<u32>::empty(),
    {
        let r = AssetMap { ids: Vec::new(), vals: Vec::new() };
        assert(r@ =~= Map::<u32, T::V>::empty());
        r
    }

    /// The number of keys. The keys are listed once each, in ascending order, and are exactly those
    /// of the view.
    pub fn len(&self) -> (n: usize)
        ensures
            n == self.keys().len(),
            n == self@.len(),
            ascending(self.keys()),
            self@.dom() == self.keys().to_set(),
            self@.dom().finite(),
    {
        proof {
            use_type_invariant(self);
            assert(self.ids@.no_duplicates());
            assert(self@.dom() =~= self.ids@.to_set());
            self.ids@.unique_seq_to_set();
        }
        self.ids.len()
    }

    pub fn contains_key(&self, k: u32) -> (r: bool)
        ensures
            r == self@.contains_key(k),
    {
        proof {
            use_type_invariant(self);
        }
        let p: usize = self.position(k);
        p < self.ids.len() && self.ids[p] == k
    }

    pub fn get<'a>(&'a self, k: u32) -> (r: Option<&'a T>)
        ensures
            match r {
                Some(v) => self@.contains_key(k) && v@ == self@[k],
                None => !self@.contains_key(k),
            },
    {
        proof {
            use_type_invariant(self);
        }
        let p: usize = self.position(k);
        if p < self.ids.len() && self.ids[p] == k {
            proof {
                lemma_place(self.ids@, p as int);
            }
            Some(&self.vals[p])
        } else {
            None
        }
    }

    pub fn get_mut<'a>(&'a mut self, k: u32) -> (r: Option<&'a mut T>)
        ensures
            match r {
                Some(v) => old(self)@.contains_key(k) && v@ == old(self)@[k] && final(self)@ == old(
                    self,
                )@.insert(k, final(v)@) && final(self).keys() == old(self).keys(),
                None => !old(self)@.contains_key(k) && *final(self) == *old(self),
            },
    {
        proof {
            use_type_invariant(&*self);
        }
        let p: usize = self.position(k);
        if p < self.ids.len() && self.ids[p] == k {
            proof {
                lemma_place(self.ids@, p as int);
                assert forall|i: int| 0 <= i < self.ids@.len() implies self.ids@.index_of(
                    #[trigger] self.ids@[i],
                ) == i by {
                    lemma_place(self.ids@, i);
                }
            }
            Some(&mut self.vals[p])
        } else {
            None
        }
    }

    /// The key at a position.
    pub fn key_at(&self, i: usize) -> (r: u32)
        requires
            i < self.keys().len(),
        ensures
            r == self.keys()[i as int],
            self@.contains_key(r),
    {
        self.ids[i]
    }

    /// The value at a position.
    pub fn val_at<'a>(&'a self, i: usize) -> (r: &'a T)
        requires
            i < self.keys().len(),
        ensures
            self@.contains_key(self.keys()[i as int]),
            r@ == self@[self.keys()[i as int]],
    {
        proof {
            use_type_invariant(self);
            lemma_place(self.ids@, i as int);
        }
        &self.vals[i]
    }

    /// The value at a position, to be changed in place.
    pub fn val_at_mut<'a>(&'a mut self, i: usize) -> (r: &'a mut T)
        requires
            i < old(self).keys().len(),
        ensures
            old(self)@.contains_key(old(self).keys()[i as int]),
            r@ == old(self)@[old(self).keys()[i as int]],
            final(self)@ == old(self)@.insert(old(self).keys()[i as int], final(r)@),
            final(self).keys() == old(self).keys(),
    {
        proof {
            use_type_invariant(&*self);
            lemma_place(self.ids@, i as int);
            assert forall|j: int| 0 <= j < self.ids@.len() implies self.ids@.index_of(
                #[trigger] self.ids@[j],
            ) == j by {
                lemma_place(self.ids@, j);
            }
        }
        &mut self.vals[i]
    }

    /// Binds the key to the value, in place of what it was bound to.
    pub fn insert(&mut self, k: u32, v: T)
        ensures
            final(self)@ == old(self)@.insert(k, v@),
    {
        proof {
            use_type_invariant(&*self);
        }
        let ghost before = *self;
        let p: usize = self.position(k);
        let mut whole = AssetMap::new();
        std::mem::swap(self, &mut whole);
        let AssetMap { mut ids, mut vals } = whole;
        if p < ids.len() && ids[p] == k {
            vals.set(p, v);
        } else {
            ids.insert(p, k);
            vals.insert(p, v);
        }
        assert(ascending(ids@));
        *self = AssetMap { ids, vals };
        proof {
            assert forall|i: int| 0 <= i < ids@.len() implies ids@.index_of(#[trigger] ids@[i])
                == i by {
                lemma_place(ids@, i);
            }
            assert forall|i: int| 0 <= i < before.ids@.len() implies before.ids@.index_of(
                #[trigger] before.ids@[i],
            ) == i by {
                lemma_place(before.ids@, i);
            }
            assert(ids@[p as int] == k);
            if before.ids@.len() == ids@.len() {
                assert(ids@ == before.ids@);
            } else {
                assert forall|j: u32| before.ids@.contains(j) implies ids@.contains(j) by {
                    let i = before.ids@.index_of(j);
                    if i < p {
                        assert(ids@[i] == j);
                    } else {
                        assert(ids@[i + 1] == j);
                    }
                }
                assert forall|j: u32| ids@.contains(j) && j != k implies before.ids@.contains(j) by {
                    let i = ids@.index_of(j);
                    if i < p {
                        assert(before.ids@[i] == j);
                    } else {
                        assert(before.ids@[i - 1] == j);
                    }
                }
                assert forall|j: u32| before.ids@.contains(j) implies vals@[ids@.index_of(j)]
                    == before.vals@[before.ids@.index_of(j)] by {
                    let i = before.ids@.index_of(j);
                    if i < p {
                        assert(ids@[i] == j);
                    } else {
                        assert(ids@[i + 1] == j);
                    }
                }
            }
            assert(self@ =~= before@.insert(k, v@));
        }
    }

    /// Unbinds the key.
    pub fn remove(&mut self, k: u32) -> (r: Option<T>)
        ensures
            final(self)@ == old(self)@.remove(k),
            match r {
                Some(v) => old(self)@.contains_key(k) && v@ == old(self)@[k],
                None => !old(self)@.contains_key(k),
            },
    {
        proof {
            use_type_invariant(&*self);
        }
        let ghost before = *self;
        let p: usize = self.position(k);
        if p < self.ids.len() && self.ids[p] == k {
            let mut whole = AssetMap::new();
            std::mem::swap(self, &mut whole);
            let AssetMap { mut ids, mut vals } = whole;
            let gone: u32 = ids.remove(p);
            let v = vals.remove(p);
            assert(ascending(ids@));
            *self = AssetMap { ids, vals };
            proof {
                assert forall|i: int| 0 <= i < ids@.len() implies ids@.index_of(#[trigger] ids@[i])
                    == i by {
                    lemma_place(ids@, i);
                }
                assert forall|i: int| 0 <= i < before.ids@.len() implies before.ids@.index_of(
                    #[trigger] before.ids@[i],
                ) == i by {
                    lemma_place(before.ids@, i);
                }
                assert(before.ids@[p as int] == k);
                assert forall|j: u32| ids@.contains(j) implies j != k && before.ids@.contains(j)
                    && vals@[ids@.index_of(j)] == before.vals@[before.ids@.index_of(j)] by {
                    let i = ids@.index_of(j);
                    if i < p {
                        assert(before.ids@[i] == j);
                    } else {
                        assert(before.ids@[i + 1] == j);
                    }
                }
                assert forall|j: u32| before.ids@.contains(j) && j != k implies ids@.contains(j) by {
                    let i = before.ids@.index_of(j);
                    if i < p {
                        assert(ids@[i] == j);
                    } else {
                        assert(ids@[i - 1] == j);
                    }
                }
                assert(self@ =~= before@.remove(k));
            }
            Some(v)
        } else {
            assert(self@ =~= before@.remove(k));
            None
        }
    }
}

} // verus!

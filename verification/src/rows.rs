//! Rows of a store, by their keys.
use crate::bytes::same_bytes;
use vstd::prelude::*;

verus! {

/// The rows that a batch of changes touches. There are few, so they are kept in a list.
pub struct RowMap<T> {
    keys: Vec<Vec<u8>>,
    vals: Vec<T>,
}

impl<T: View> View for RowMap<T> {
    type V = Map<Seq<u8>, T::V>;

    closed spec fn view(&self) -> Map<Seq<u8>, T::V> {
        Map::new(
            |k: Seq<u8>| exists|i: int| 0 <= i < self.keys@.len() && #[trigger] self.keys@[i]@ == k,
            |k: Seq<u8>|
                self.vals@[choose|i: int|
                    0 <= i < self.keys@.len() && #[trigger] self.keys@[i]@ == k]@,
        )
    }
}

impl<T> RowMap<T> {
    #[verifier::type_invariant]
    spec fn inv(self) -> bool {
        &&& self.keys@.len() == self.vals@.len()
        &&& forall|i: int, j: int|
            0 <= i < j < self.keys@.len() ==> #[trigger] self.keys@[i]@ != #[trigger] self.keys@[j]@
    }
}

impl<T: View> RowMap<T> {
    pub fn new() -> (r: Self)
        ensures
            r@ == Map::<Seq<u8>, T::V>::empty(),
    {
        let r = RowMap { keys: Vec::new(), vals: Vec::new() };
        assert(r@ =~= Map::<Seq<u8>, T::V>::empty());
        r
    }

    /// The place of a key.
    fn place(&self, k: &[u8]) -> (r: Option<usize>)
        ensures
            match r {
                Some(i) => i < self.keys@.len() && self.keys@[i as int]@ == k@
                    && self@.contains_key(k@) && self@[k@] == self.vals@[i as int]@,
                None => !self@.contains_key(k@),
            },
    {
        proof {
            use_type_invariant(self);
        }
        let mut i: usize = 0;
        while i < self.keys.len()
            invariant
                i <= self.keys@.len(),
                forall|j: int| 0 <= j < i ==> #[trigger] self.keys@[j]@ != k@,
            decreases self.keys@.len() - i,
        {
            if same_bytes(self.keys[i].as_slice(), k) {
                proof {
                    use_type_invariant(self);
                    let c = choose|c: int|
                        0 <= c < self.keys@.len() && #[trigger] self.keys@[c]@ == k@;
                    assert(self.keys@[i as int]@ == k@);
                    if c < i {
                        assert(self.keys@[c]@ != self.keys@[i as int]@);
                    } else if i < c {
                        assert(self.keys@[i as int]@ != self.keys@[c]@);
                    }
                }
                return Some(i);
            }
            i = i + 1;
        }
        None
    }

    pub fn get<'a>(&'a self, k: &[u8]) -> (r: Option<&'a T>)
        ensures
            match r {
                Some(v) => self@.contains_key(k@) && v@ == self@[k@],
                None => !self@.contains_key(k@),
            },
    {
        match self.place(k) {
            Some(i) => {
                proof {
                    use_type_invariant(self);
                }
                Some(&self.vals[i])
            },
            None => None,
        }
    }

    pub fn contains_key(&self, k: &[u8]) -> (r: bool)
        ensures
            r == self@.contains_key(k@),
    {
        self.place(k).is_some()
    }

    /// The number of rows.
    pub fn len(&self) -> (n: usize)
        ensures
            n == self@.len(),
            self@.dom().finite(),
    {
        proof {
            use_type_invariant(self);
            let ks = Seq::new(self.keys@.len(), |i: int| self.keys@[i]@);
            assert(ks.no_duplicates());
            assert forall|k: Seq<u8>| self@.contains_key(k) <==> #[trigger] ks.to_set().contains(
                k,
            ) by {
                if self@.contains_key(k) {
                    let i = choose|i: int|
                        0 <= i < self.keys@.len() && #[trigger] self.keys@[i]@ == k;
                    assert(ks[i] == k);
                }
                if ks.contains(k) {
                    let i = ks.index_of(k);
                    assert(self.keys@[i]@ == k);
                }
            }
            assert(self@.dom() =~= ks.to_set());
            ks.unique_seq_to_set();
        }
        self.keys.len()
    }

    pub fn is_empty(&self) -> (r: bool)
        ensures
            r == (self@ == Map::<Seq<u8>, T::V>::empty()),
    {
        let n: usize = self.len();
        proof {
            if n == 0 {
                assert(self@ =~= Map::<Seq<u8>, T::V>::empty());
            }
        }
        n == 0
    }

    /// The row, to be changed in place.
    pub fn get_mut<'a>(&'a mut self, k: &[u8]) -> (r: Option<&'a mut T>)
        ensures
            match r {
                Some(v) => old(self)@.contains_key(k@) && v@ == old(self)@[k@] && final(self)@ == old(
                    self
                )@.insert(k@, final(v)@),
                None => !old(self)@.contains_key(k@) && *final(self) == *old(self),
            },
    {
        let at: Option<usize> = self.place(k);
        proof {
            use_type_invariant(&*self);
        }
        match at {
            Some(i) => Some(&mut self.vals[i]),
            None => None,
        }
    }

    /// Adds a row under a new key.
    pub fn add(&mut self, k: Vec<u8>, v: T)
        requires
            !old(self)@.contains_key(k@),
        ensures
            final(self)@ == old(self)@.insert(k@, v@),
    {
        proof {
            use_type_invariant(&*self);
        }
        let ghost was = *self;
        let mut whole = RowMap::new();
        std::mem::swap(self, &mut whole);
        let RowMap { mut keys, mut vals } = whole;
        let ghost n = keys@.len();
        keys.push(k);
        vals.push(v);
        proof {
            assert forall|i: int, j: int|
                0 <= i < j < keys@.len() implies #[trigger] keys@[i]@ != #[trigger] keys@[j]@ by {
                if j == n {
                    assert(was.keys@[i]@ == keys@[i]@);
                }
            }
        }
        *self = RowMap { keys, vals };
        proof {
            assert forall|x: Seq<u8>| self@.contains_key(x) <==> was@.contains_key(x) || x == k@ by {
                if was@.contains_key(x) {
                    let i = choose|i: int|
                        0 <= i < was.keys@.len() && #[trigger] was.keys@[i]@ == x;
                    assert(self.keys@[i]@ == x);
                }
                if x == k@ {
                    assert(self.keys@[n as int]@ == x);
                }
                if self@.contains_key(x) && x != k@ {
                    let i = choose|i: int|
                        0 <= i < self.keys@.len() && #[trigger] self.keys@[i]@ == x;
                    assert(was.keys@[i]@ == x);
                }
            }
            assert forall|x: Seq<u8>| self@.contains_key(x) implies #[trigger] self@[x]
                == was@.insert(k@, v@)[x] by {
                let i = choose|i: int|
                    0 <= i < self.keys@.len() && #[trigger] self.keys@[i]@ == x;
                if x == k@ {
                    assert(self.keys@[n as int]@ == x);
                    if i < n {
                        assert(self.keys@[i]@ != self.keys@[n as int]@);
                    }
                } else {
                    let c = choose|c: int|
                        0 <= c < was.keys@.len() && #[trigger] was.keys@[c]@ == x;
                    assert(was.keys@[i]@ == x);
                    if c < i {
                        assert(was.keys@[c]@ != was.keys@[i]@);
                    } else if i < c {
                        assert(was.keys@[i]@ != was.keys@[c]@);
                    }
                }
            }
            assert(self@ =~= was@.insert(k@, v@));
        }
    }

    /// The rows with their keys.
    pub fn into_rows(self) -> (r: (Vec<Vec<u8>>, Vec<T>))
        ensures
            r.0@.len() == r.1@.len(),
            forall|i: int, j: int| 0 <= i < j < r.0@.len() ==> #[trigger] r.0@[i]@ != #[trigger] r.0@[j]@,
            forall|k: Seq<u8>|
                self@.contains_key(k) <==> exists|i: int| 0 <= i < r.0@.len() && #[trigger] r.0@[i]@ == k,
            forall|i: int| 0 <= i < r.0@.len() ==> self@[#[trigger] r.0@[i]@] == r.1@[i]@,
    {
        proof {
            use_type_invariant(&self);
            assert forall|i: int| 0 <= i < self.keys@.len() implies self@[#[trigger] self.keys@[i]@]
                == self.vals@[i]@ by {
                let c = choose|c: int|
                    0 <= c < self.keys@.len() && #[trigger] self.keys@[c]@ == self.keys@[i]@;
                if c < i {
                    assert(self.keys@[c]@ != self.keys@[i]@);
                } else if i < c {
                    assert(self.keys@[i]@ != self.keys@[c]@);
                }
            }
        }
        (self.keys, self.vals)
    }
}

} // verus!

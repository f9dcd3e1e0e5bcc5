//! A hash map from strings that can also be walked by position.
use vstd::hash_map::StringHashMap;
use crate::text::insert_in_order;
use vstd::prelude::*;

verus! {

/// A map with string keys. Keys and values lie side by side in two vectors; a hash index gives the
/// position of each key.
pub struct StrMap<T> {
    index: StringHashMap<usize>,
    names: Vec<String>,
    vals: Vec<T>,
}

impl<T: View> View for StrMap<T> {
    type V = Map<Seq<char>, T::V>;

    closed spec fn view(&self) -> Map<Seq<char>, T::V> {
        Map::new(
            |k: Seq<char>| self.index@.contains_key(k),
            |k: Seq<char>| self.vals@[self.index@[k] as int]@,
        )
    }
}

impl<T> StrMap<T> {
    #[verifier::type_invariant]
    spec fn inv(self) -> bool {
        &&& self.names@.len() == self.vals@.len()
        &&& forall|i: int|
            #![trigger self.names@[i]]
            0 <= i < self.names@.len() ==> self.index@.contains_key(self.names@[i]@)
                && self.index@[self.names@[i]@] == i
        &&& forall|k: Seq<char>| #[trigger]
            self.index@.contains_key(k) ==> (self.index@[k] as int) < self.names@.len()
                && self.names@[self.index@[k] as int]@ == k
    }

    /// The keys, in the order in which the map is walked.
    pub closed spec fn keys(&self) -> Seq<Seq<char>> {
        Seq::new(self.names@.len(), |i: int| self.names@[i]@)
    }
}

impl<T: View> StrMap<T> {
    pub fn new() -> (r: Self)
        ensures
            r@ == Map::<Seq<char>, T::V>::empty(),
    {
        let r = StrMap { index: StringHashMap::new(), names: Vec::new(), vals: Vec::new() };
        assert(r@ =~= Map::<Seq<char>, T::V>::empty());
        r
    }

    /// The number of keys. Every key occurs once among `keys`, and the keys are exactly those of
    /// the view.
    pub fn len(&self) -> (n: usize)
        ensures
            n == self@.len(),
            n == self.keys().len(),
            self.keys().no_duplicates(),
            self@.dom() == self.keys().to_set(),
            self@.dom().finite(),
    {
        proof {
            use_type_invariant(self);
            assert forall|k: Seq<char>| #[trigger] self@.contains_key(k) implies self.keys().contains(
                k,
            ) by {
                assert(self.keys()[self.index@[k] as int] == k);
            }
            assert(self@.dom() =~= self.keys().to_set());
            self.keys().unique_seq_to_set();
        }
        self.names.len()
    }

    pub fn is_empty(&self) -> (r: bool)
        ensures
            r == (self@ == Map::<Seq<char>, T::V>::empty()),
    {
        let n: usize = self.len();
        proof {
            if n == 0 {
                assert(self@ =~= Map::<Seq<char>, T::V>::empty());
            }
        }
        n == 0
    }

    pub fn contains_key(&self, k: &str) -> (r: bool)
        ensures
            r == self@.contains_key(k@),
    {
        self.index.contains_key(k)
    }

    pub fn get<'a>(&'a self, k: &str) -> (r: Option<&'a T>)
        ensures
            match r {
                Some(v) => self@.contains_key(k@) && v@ == self@[k@],
                None => !self@.contains_key(k@),
            },
    {
        proof {
            use_type_invariant(self);
        }
        match self.index.get(k) {
            None => None,
            Some(i) => Some(&self.vals[*i]),
        }
    }

    pub fn get_mut<'a>(&'a mut self, k: &str) -> (r: Option<&'a mut T>)
        ensures
            match r {
                Some(v) => old(self)@.contains_key(k@) && v@ == old(self)@[k@] && final(self)@ == old(
                    self,
                )@.insert(k@, final(v)@) && final(self).keys() == old(self).keys(),
                None => !old(self)@.contains_key(k@) && *final(self) == *old(self),
            },
    {
        proof {
            use_type_invariant(&*self);
        }
        match self.index.get(k) {
            None => None,
            Some(i) => {
                let j: usize = *i;
                Some(&mut self.vals[j])
            },
        }
    }

    /// The key at a position.
    pub fn key_at<'a>(&'a self, i: usize) -> (r: &'a String)
        requires
            i < self.keys().len(),
        ensures
            r@ == self.keys()[i as int],
            self@.contains_key(r@),
    {
        proof {
            use_type_invariant(self);
        }
        &self.names[i]
    }

    /// The value at a position.
    pub fn val_at<'a>(&'a self, i: usize) -> (r: &'a T)
        requires
            i < self.keys().len(),
        ensures
            self@.contains_key(self.keys()[i as int]),
            r@ == self@[self.keys()[i as int]],
    {
        proof {
            use_type_invariant(self);
            assert(self.index@.contains_key(self.names@[i as int]@));
        }
        &self.vals[i]
    }

    /// The value at a position, to be changed in place.
    pub fn val_at_mut<'a>(&'a mut self, i: usize) -> (r: &'a mut T)
        requires
            i < old(self).keys().len(),
        ensures
            old(self)@.contains_key(old(self).keys()[i as int]),
            r@ == old(self)@[old(self).keys()[i as int]],
            final(self)@ == old(self)@.insert(old(self).keys()[i as int], final(r)@),
            final(self).keys() == old(self).keys(),
    {
        proof {
            use_type_invariant(&*self);
            assert(self.index@.contains_key(self.names@[i as int]@));
        }
        &mut self.vals[i]
    }

    /// Binds the key to the value, in place of what it was bound to.
    pub fn insert(&mut self, k: String, v: T)
        ensures
            final(self)@ == old(self)@.insert(k@, v@),
            old(self)@.contains_key(k@) ==> final(self).keys() == old(self).keys(),
            !old(self)@.contains_key(k@) ==> final(self).keys() == old(self).keys().push(k@),
    {
        proof {
            use_type_invariant(&*self);
        }
        let ghost before = *self;
        let mut whole = StrMap::new();
        std::mem::swap(self, &mut whole);
        let StrMap { mut index, mut names, mut vals } = whole;
        let found: Option<usize> = match index.get(k.as_str()) {
            None => None,
            Some(i) => Some(*i),
        };
        match found {
            Some(i) => {
                vals.set(i, v);
            },
            None => {
                let n: usize = names.len();
                index.insert(k.clone(), n);
                names.push(k);
                vals.push(v);
            },
        }
        *self = StrMap { index, names, vals };
        assert(self@ =~= before@.insert(k@, v@));
        assert(before@.contains_key(k@) ==> self.keys() =~= before.keys());
        assert(!before@.contains_key(k@) ==> self.keys() =~= before.keys().push(k@));
    }

    /// Unbinds the key. The last key takes the position of the removed one.
    pub fn remove(&mut self, k: &str) -> (r: Option<T>)
        ensures
            final(self)@ == old(self)@.remove(k@),
            match r {
                Some(v) => old(self)@.contains_key(k@) && v@ == old(self)@[k@],
                None => !old(self)@.contains_key(k@),
            },
    {
        proof {
            use_type_invariant(&*self);
        }
        let ghost before = *self;
        let found: Option<usize> = match self.index.get(k) {
            None => None,
            Some(i) => Some(*i),
        };
        match found {
            None => {
                assert(self@ =~= before@.remove(k@));
                None
            },
            Some(i) => {
                let mut whole = StrMap::new();
                std::mem::swap(self, &mut whole);
                let StrMap { mut index, mut names, mut vals } = whole;
                let last: usize = names.len() - 1;
                let gone = names.swap_remove(i);
                let v = vals.swap_remove(i);
                index.remove(k);
                if i != last {
                    index.insert(names[i].clone(), i);
                }
                *self = StrMap { index, names, vals };
                assert(self@ =~= before@.remove(k@));
                Some(v)
            },
        }
    }

    /// Unbinds every key.
    pub fn clear(&mut self)
        ensures
            final(self)@ == Map::<Seq<char>, T::V>::empty(),
    {
        *self = StrMap::new();
    }
}

/// Whether the list names everything in the set once, in dictionary order.
pub open spec fn listing(us: Seq<Seq<char>>, dom: Set<Seq<char>>) -> bool {
    crate::text::in_order(us) && us.no_duplicates() && us.to_set() == dom
}

impl<T: View> StrMap<T> {
    /// The keys in dictionary order.
    pub fn sorted_keys(&self) -> (r: Vec<String>)
        ensures
            listing(crate::json::texts(r@), self@.dom()),
    {
        let n: usize = self.len();
        let ghost ks = self.keys();
        let mut r: Vec<String> = Vec::new();
        let mut i: usize = 0;
        proof {
            lemma_take_all(ks);
            assert(crate::json::texts(r@).to_set() =~= ks.take(0).to_set());
        }
        while i < n
            invariant
                i <= n == ks.len(),
                ks == self.keys(),
                ks.no_duplicates(),
                crate::text::in_order(crate::json::texts(r@)),
                crate::json::texts(r@).no_duplicates(),
                crate::json::texts(r@).to_set() == ks.take(i as int).to_set(),
            decreases n - i,
        {
            let k = self.key_at(i).clone();
            let ghost was = crate::json::texts(r@);
            let p: usize = insert_in_order(&mut r, k);
            proof {
                let now = crate::json::texts(r@);
                assert(now =~= was.insert(p as int, k@));
                lemma_take_one(ks, i as int);
                assert(!was.contains(k@)) by {
                    assert(was.to_set().contains(k@) == was.contains(k@));
                    assert(ks.take(i as int).to_set().contains(k@) == ks.take(i as int).contains(
                        k@,
                    ));
                }
                assert forall|x: Seq<char>| now.contains(x) <==> was.contains(x) || x == k@ by {
                    if now.contains(x) {
                        let j = now.index_of(x);
                        if j < p {
                            assert(was[j] == x);
                        } else if j > p {
                            assert(was[j - 1] == x);
                        }
                    }
                    if was.contains(x) {
                        let j = was.index_of(x);
                        if j < p {
                            assert(now[j] == x);
                        } else {
                            assert(now[j + 1] == x);
                        }
                    }
                    assert(now[p as int] == k@);
                }
                assert(now.no_duplicates()) by {
                    assert forall|a: int, b: int|
                        0 <= a < now.len() && 0 <= b < now.len() && a != b implies now[a]
                        != now[b] by {
                        let x = if a < p {
                            a
                        } else {
                            a - 1
                        };
                        let y = if b < p {
                            b
                        } else {
                            b - 1
                        };
                        if a == p {
                            assert(was.contains(was[y]));
                        } else if b == p {
                            assert(was.contains(was[x]));
                        } else {
                            assert(was[x] != was[y]);
                        }
                    }
                }
                assert forall|x: Seq<char>| #[trigger]
                    now.to_set().contains(x) == ks.take(i + 1).to_set().contains(x) by {
                    assert(was.to_set().contains(x) == ks.take(i as int).to_set().contains(x));
                    assert(ks.take(i + 1).contains(x) <==> ks.take(i as int).contains(x) || x
                        == ks[i as int]);
                }
                assert(now.to_set() =~= ks.take(i + 1).to_set());
            }
            i = i + 1;
        }
        proof {
            lemma_take_all(ks);
        }
        r
    }
}

/// One more item of a list is seen when the next place has been visited.
pub proof fn lemma_take_one<K>(ks: Seq<K>, i: int)
    requires
        0 <= i < ks.len(),
    ensures
        forall|x: K|
            #![trigger ks.take(i + 1).contains(x)]
            ks.take(i + 1).contains(x) <==> ks.take(i).contains(x) || x == ks[i],
        ks.no_duplicates() ==> !ks.take(i).contains(ks[i]),
{
    let now = ks.take(i + 1);
    let was = ks.take(i);
    assert(now[i] == ks[i]);
    assert forall|x: K|
        #![trigger now.contains(x)]
        now.contains(x) <==> was.contains(x) || x == ks[i] by {
        if now.contains(x) {
            let j = now.index_of(x);
            if j < i {
                assert(was[j] == x);
            }
        }
        if was.contains(x) {
            assert(now[was.index_of(x)] == x);
        }
    }
    if ks.no_duplicates() && was.contains(ks[i]) {
        assert(ks[was.index_of(ks[i])] == ks[i]);
    }
}

/// A list is what has been seen of it once every place has been visited.
pub proof fn lemma_take_all<K>(ks: Seq<K>)
    ensures
        ks.take(ks.len() as int) == ks,
        forall|x: K| #![trigger ks.contains(x)] ks.contains(x) <==> ks.to_set().contains(x),
        forall|x: K| #![trigger ks.take(0).contains(x)] !ks.take(0).contains(x),
{
    assert(ks.take(ks.len() as int) =~= ks);
}

} // verus!

//! A set of names that gives them in dictionary order.
use crate::strmap::StrMap;
use vstd::prelude::*;

verus! {

pub struct NameSet {
    names: StrMap<()>,
}

impl View for NameSet {
    type V = Set<Seq<char>>;

    closed spec fn view(&self) -> Set<Seq<char>> {
        self.names@.dom()
    }
}

impl NameSet {
    pub fn new() -> (r: NameSet)
        ensures
            r@ == Set::<Seq<char>>::empty(),
    {
        let r = NameSet { names: StrMap::new() };
        assert(r@ =~= Set::<Seq<char>>::empty());
        r
    }

    /// The number of names.
    pub fn len(&self) -> (n: usize)
        ensures
            n == self@.len(),
            self@.finite(),
    {
        self.names.len()
    }

    pub fn contains(&self, name: &str) -> (r: bool)
        ensures
            r == self@.contains(name@),
    {
        self.names.contains_key(name)
    }

    /// Adds a name.
    pub fn insert(&mut self, name: String)
        ensures
            final(self)@ == old(self)@.insert(name@),
    {
        let ghost before = self@;
        self.names.insert(name, ());
        assert(self@ =~= before.insert(name@));
    }

    /// The first `n` names in dictionary order, or all where there are fewer.
    pub fn first(&self, n: usize) -> (r: Vec<String>)
        ensures
            exists|us: Seq<Seq<char>>| #[trigger]
                crate::strmap::listing(us, self@) && crate::json::texts(r@) == us.take(
                    if us.len() < n {
                        us.len() as int
                    } else {
                        n as int
                    },
                ),
    {
        let mut all = self.names.sorted_keys();
        let ghost us = crate::json::texts(all@);
        assert(crate::strmap::listing(us, self@));
        if all.len() > n {
            all.truncate(n);
            assert(crate::json::texts(all@) =~= us.take(n as int));
        } else {
            assert(us.take(us.len() as int) =~= us);
        }
        all
    }
}

} // verus!

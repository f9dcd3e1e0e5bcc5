//! Notes that are taken of chosen users.
use crate::strmap::StrMap;
use vstd::prelude::*;

verus! {

/// What is noted of a user.
pub struct Notes {
    pub lines: Vec<String>,
}

impl View for Notes {
    type V = Seq<Seq<char>>;

    open spec fn view(&self) -> Seq<Seq<char>> {
        crate::json::texts(self.lines@)
    }
}

impl Notes {
    pub fn take(&mut self, line: String)
        ensures
            final(self)@ == old(self)@.push(line@),
    {
        let ghost before = self@;
        self.lines.push(line);
        assert(self@ =~= before.push(line@));
    }
}

/// Nothing noted yet of any of the users.
pub open spec fn blank_notes(users: Map<Seq<char>, ()>) -> Map<Seq<char>, Seq<Seq<char>>> {
    Map::new(|u: Seq<char>| users.contains_key(u), |u: Seq<char>| Seq::empty())
}

/// Nothing noted yet of any of the users.
pub fn blank(users: &StrMap<()>) -> (r: StrMap<Notes>)
    ensures
        r@ == blank_notes(users@),
{
    let n: usize = users.len();
    let ghost ks = users.keys();
    let mut r: StrMap<Notes> = StrMap::new();
    let mut i: usize = 0;
    proof {
        crate::strmap::lemma_take_all(ks);
    }
    while i < n
        invariant
            i <= n == ks.len(),
            ks == users.keys(),
            forall|u: Seq<char>| #[trigger]
                r@.contains_key(u) <==> ks.take(i as int).contains(u),
            forall|u: Seq<char>| #[trigger]
                r@.contains_key(u) ==> r@[u] == Seq::<Seq<char>>::empty(),
        decreases n - i,
    {
        proof {
            crate::strmap::lemma_take_one(ks, i as int);
        }
        let notes = Notes { lines: Vec::new() };
        assert(notes@ =~= Seq::<Seq<char>>::empty());
        r.insert(users.key_at(i).clone(), notes);
        i = i + 1;
    }
    proof {
        crate::strmap::lemma_take_all(ks);
        assert forall|u: Seq<char>| users@.contains_key(u) <==> #[trigger] ks.contains(u) by {
            assert(ks.to_set().contains(u) <==> ks.contains(u));
        }
        assert(r@ =~= blank_notes(users@));
    }
    r
}

} // verus!

//! Changes between two states of a side of a book, and putting them together again.
use crate::strmap::StrMap;
use crate::text::str_eq;
use crate::types::{Level, LevelModel};
use vstd::prelude::*;

verus! {

/// The levels by price. Of two levels at one price the later counts.
pub open spec fn by_price(v: Seq<LevelModel>) -> Map<Seq<char>, LevelModel>
    decreases v.len(),
{
    if v.len() == 0 {
        Map::empty()
    } else {
        by_price(v.drop_last()).insert(v.last().px, v.last())
    }
}

/// The levels at those of the first `n` prices where something is new: the level was not there, or was
/// another.
pub open spec fn changed_at(
    ps: Seq<Seq<char>>,
    old_side: Map<Seq<char>, LevelModel>,
    new_side: Map<Seq<char>, LevelModel>,
    n: int,
) -> Seq<LevelModel>
    decreases n,
{
    if n <= 0 {
        Seq::empty()
    } else {
        let before = changed_at(ps, old_side, new_side, n - 1);
        let p = ps[n - 1];
        if old_side.contains_key(p) && old_side[p] == new_side[p] {
            before
        } else {
            before.push(new_side[p])
        }
    }
}

/// The level that tells of a price where there is nothing any more.
pub open spec fn gone_level(p: Seq<char>) -> LevelModel {
    LevelModel { px: p, sz: "0"@, n: 0 }
}

/// The levels that tell of those of the first `n` prices that are gone.
pub open spec fn gone_at(ps: Seq<Seq<char>>, new_side: Map<Seq<char>, LevelModel>, n: int) -> Seq<
    LevelModel,
>
    decreases n,
{
    if n <= 0 {
        Seq::empty()
    } else {
        let before = gone_at(ps, new_side, n - 1);
        if new_side.contains_key(ps[n - 1]) {
            before
        } else {
            before.push(gone_level(ps[n - 1]))
        }
    }
}

/// Whether the levels are the changes from one side to another: what is new, by price in dictionary
/// order, then what is gone, by price in dictionary order.
pub open spec fn is_delta(
    d: Seq<LevelModel>,
    old_side: Map<Seq<char>, LevelModel>,
    new_side: Map<Seq<char>, LevelModel>,
) -> bool {
    exists|us: Seq<Seq<char>>, vs: Seq<Seq<char>>|
        #![trigger crate::strmap::listing(us, new_side.dom()), crate::strmap::listing(vs, old_side.dom())]
        {
            &&& crate::strmap::listing(us, new_side.dom())
            &&& crate::strmap::listing(vs, old_side.dom())
            &&& d == changed_at(us, old_side, new_side, us.len() as int) + gone_at(
                vs,
                new_side,
                vs.len() as int,
            )
        }
}

/// A change to a side: the price, the size, and what is kept for the price.
#[verifier::ext_equal]
pub struct Change<T> {
    pub px: Seq<char>,
    pub sz: Seq<char>,
    pub level: T,
}

/// A side with the changes put in. A size of "0" takes the price away; any other sets it.
pub open spec fn merged<T>(m: Map<Seq<char>, T>, cs: Seq<Change<T>>) -> Map<Seq<char>, T>
    decreases cs.len(),
{
    if cs.len() == 0 {
        m
    } else {
        let before = merged(m, cs.drop_last());
        if cs.last().sz == "0"@ {
            before.remove(cs.last().px)
        } else {
            before.insert(cs.last().px, cs.last().level)
        }
    }
}

/// Levels as changes.
pub open spec fn as_changes(v: Seq<LevelModel>) -> Seq<Change<LevelModel>> {
    v.map_values(|l: LevelModel| Change { px: l.px, sz: l.sz, level: l })
}

/// The levels of a list by price.
fn side_map(v: &Vec<Level>) -> (r: StrMap<Level>)
    ensures
        r@ == by_price(crate::types::level_views(v@)),
{
    let mut r: StrMap<Level> = StrMap::new();
    let ghost all = crate::types::level_views(v@);
    let mut i: usize = 0;
    assert(all.take(0) =~= Seq::<LevelModel>::empty());
    while i < v.len()
        invariant
            i <= v@.len(),
            all == crate::types::level_views(v@),
            r@ == by_price(all.take(i as int)),
        decreases v@.len() - i,
    {
        r.insert(v[i].px().to_owned(), v[i].copy());
        proof {
            assert(all.take(i + 1).drop_last() =~= all.take(i as int));
            assert(all.take(i + 1).last() == v@[i as int]@);
        }
        i = i + 1;
    }
    assert(all.take(v@.len() as int) =~= all);
    r
}

fn same_level(a: &Level, b: &Level) -> (r: bool)
    ensures
        r == (a@ == b@),
{
    let r = str_eq(a.px(), b.px()) && str_eq(a.sz(), b.sz()) && a.n() == b.n();
    assert(r ==> a@ =~= b@);
    r
}

/// The changes from the old levels to the new ones: the levels that changed or are new, and a level of
/// size "0" for each price that is gone.
pub fn compute_level_delta(old_levels: &Vec<Level>, new_levels: &Vec<Level>) -> (r: Vec<Level>)
    ensures
        is_delta(
            crate::types::level_views(r@),
            by_price(crate::types::level_views(old_levels@)),
            by_price(crate::types::level_views(new_levels@)),
        ),
{
    let old_map = side_map(old_levels);
    let new_map = side_map(new_levels);
    let us = new_map.sorted_keys();
    let vs = old_map.sorted_keys();
    let ghost un = crate::json::texts(us@);
    let ghost vn = crate::json::texts(vs@);
    let mut r: Vec<Level> = Vec::new();
    assert(crate::types::level_views(r@) =~= Seq::<LevelModel>::empty());
    let mut i: usize = 0;
    while i < us.len()
        invariant
            i <= us@.len(),
            un == crate::json::texts(us@),
            crate::strmap::listing(un, new_map@.dom()),
            crate::types::level_views(r@) == changed_at(un, old_map@, new_map@, i as int),
        decreases us@.len() - i,
    {
        let p = us[i].as_str();
        proof {
            assert(un[i as int] == p@);
            assert(un.contains(p@));
            assert(un.to_set().contains(p@));
        }
        if let Some(l) = new_map.get(p) {
            let unchanged = match old_map.get(p) {
                Some(o) => same_level(o, l),
                None => false,
            };
            if !unchanged {
                let ghost was = r@;
                r.push(l.copy());
                assert(crate::types::level_views(r@) =~= crate::types::level_views(was).push(
                    new_map@[p@],
                ));
            }
        }
        i = i + 1;
    }
    let ghost first = crate::types::level_views(r@);
    assert(first + Seq::<LevelModel>::empty() =~= first);
    let mut j: usize = 0;
    while j < vs.len()
        invariant
            j <= vs@.len(),
            vn == crate::json::texts(vs@),
            crate::types::level_views(r@) == first + gone_at(vn, new_map@, j as int),
        decreases vs@.len() - j,
    {
        let p = vs[j].as_str();
        assert(vn[j as int] == p@);
        if !new_map.contains_key(p) {
            let ghost was = r@;
            let gone = Level::new(p.to_owned(), "0".to_owned(), 0);
            r.push(gone);
            proof {
                assert(gone@ =~= gone_level(p@));
                assert(crate::types::level_views(r@) =~= crate::types::level_views(was).push(
                    gone_level(p@),
                ));
                assert((first + gone_at(vn, new_map@, j as int)).push(gone_level(p@)) =~= first
                    + gone_at(vn, new_map@, j as int).push(gone_level(p@)));
            }
        }
        j = j + 1;
    }
    r
}

/// Whether every level lies at its own price and has a size that is not "0".
pub open spec fn proper_side(m: Map<Seq<char>, LevelModel>) -> bool {
    forall|p: Seq<char>| #[trigger] m.contains_key(p) ==> m[p].px == p && m[p].sz != "0"@
}

proof fn lemma_merged_push<T>(m: Map<Seq<char>, T>, cs: Seq<Change<T>>, c: Change<T>)
    ensures
        merged(m, cs.push(c)) == if c.sz == "0"@ {
            merged(m, cs).remove(c.px)
        } else {
            merged(m, cs).insert(c.px, c.level)
        },
{
    assert(cs.push(c).drop_last() =~= cs);
}

proof fn lemma_as_changes_push(v: Seq<LevelModel>, l: LevelModel)
    ensures
        as_changes(v.push(l)) == as_changes(v).push(Change { px: l.px, sz: l.sz, level: l }),
{
    assert(as_changes(v.push(l)) =~= as_changes(v).push(Change { px: l.px, sz: l.sz, level: l }));
}

proof fn lemma_changes_put_in(
    us: Seq<Seq<char>>,
    old_side: Map<Seq<char>, LevelModel>,
    new_side: Map<Seq<char>, LevelModel>,
    n: int,
)
    requires
        0 <= n <= us.len(),
        crate::strmap::listing(us, new_side.dom()),
        proper_side(new_side),
    ensures
        ({
            let m = merged(old_side, as_changes(changed_at(us, old_side, new_side, n)));
            forall|p: Seq<char>|
                #![trigger m.contains_key(p)]
                if us.take(n).contains(p) {
                    m.contains_key(p) && m[p] == new_side[p]
                } else {
                    m.contains_key(p) == old_side.contains_key(p) && (m.contains_key(p) ==> m[p]
                        == old_side[p])
                }
        }),
    decreases n,
{
    if n > 0 {
        lemma_changes_put_in(us, old_side, new_side, n - 1);
        let before = changed_at(us, old_side, new_side, n - 1);
        let p = us[n - 1];
        assert(us.contains(p));
        assert(us.to_set().contains(p));
        assert(new_side.contains_key(p));
        let m0 = merged(old_side, as_changes(before));
        crate::strmap::lemma_take_one(us, n - 1);
        assert(m0.contains_key(p) == old_side.contains_key(p));
        if !(old_side.contains_key(p) && old_side[p] == new_side[p]) {
            lemma_as_changes_push(before, new_side[p]);
            lemma_merged_push(
                old_side,
                as_changes(before),
                Change { px: new_side[p].px, sz: new_side[p].sz, level: new_side[p] },
            );
        }
        let m = merged(old_side, as_changes(changed_at(us, old_side, new_side, n)));
        assert forall|q: Seq<char>|
            #![trigger m.contains_key(q)]
            if us.take(n).contains(q) {
                m.contains_key(q) && m[q] == new_side[q]
            } else {
                m.contains_key(q) == old_side.contains_key(q) && (m.contains_key(q) ==> m[q]
                    == old_side[q])
            } by {
            assert(us.take(n - 1 + 1).contains(q) <==> us.take(n - 1).contains(q) || q == p);
            assert(m0.contains_key(q) || !m0.contains_key(q));
        }
    } else {
        crate::strmap::lemma_take_all(us);
        assert(as_changes(changed_at(us, old_side, new_side, n)) =~= Seq::empty());
    }
}

proof fn lemma_gone_taken_out(
    vs: Seq<Seq<char>>,
    base: Map<Seq<char>, LevelModel>,
    first: Seq<LevelModel>,
    new_side: Map<Seq<char>, LevelModel>,
    n: int,
)
    requires
        0 <= n <= vs.len(),
    ensures
        ({
            let m0 = merged(base, as_changes(first));
            let m = merged(base, as_changes(first + gone_at(vs, new_side, n)));
            forall|p: Seq<char>|
                #![trigger m.contains_key(p)]
                if vs.take(n).contains(p) && !new_side.contains_key(p) {
                    !m.contains_key(p)
                } else {
                    m.contains_key(p) == m0.contains_key(p) && (m.contains_key(p) ==> m[p] == m0[p])
                }
        }),
    decreases n,
{
    if n > 0 {
        lemma_gone_taken_out(vs, base, first, new_side, n - 1);
        let p = vs[n - 1];
        let before = gone_at(vs, new_side, n - 1);
        crate::strmap::lemma_take_one(vs, n - 1);
        if !new_side.contains_key(p) {
            assert(first + before.push(gone_level(p)) =~= (first + before).push(gone_level(p)));
            lemma_as_changes_push(first + before, gone_level(p));
            lemma_merged_push(
                base,
                as_changes(first + before),
                Change { px: p, sz: "0"@, level: gone_level(p) },
            );
        }
        let m0 = merged(base, as_changes(first));
        let m1 = merged(base, as_changes(first + before));
        let m = merged(base, as_changes(first + gone_at(vs, new_side, n)));
        assert forall|q: Seq<char>|
            #![trigger m.contains_key(q)]
            if vs.take(n).contains(q) && !new_side.contains_key(q) {
                !m.contains_key(q)
            } else {
                m.contains_key(q) == m0.contains_key(q) && (m.contains_key(q) ==> m[q] == m0[q])
            } by {
            assert(vs.take(n - 1 + 1).contains(q) <==> vs.take(n - 1).contains(q) || q == p);
            assert(m1.contains_key(q) || !m1.contains_key(q));
        }
    } else {
        crate::strmap::lemma_take_all(vs);
        assert(first + gone_at(vs, new_side, n) =~= first);
    }
}

/// The changes from one side to another, put into the first, give the second. The second side has
/// every level at its own price and none of size "0".
pub proof fn law_delta_leads_to_new_side(
    d: Seq<LevelModel>,
    old_side: Map<Seq<char>, LevelModel>,
    new_side: Map<Seq<char>, LevelModel>,
)
    requires
        is_delta(d, old_side, new_side),
        proper_side(new_side),
    ensures
        merged(old_side, as_changes(d)) == new_side,
{
    let (us, vs) = choose|us: Seq<Seq<char>>, vs: Seq<Seq<char>>|
        #![trigger crate::strmap::listing(us, new_side.dom()), crate::strmap::listing(vs, old_side.dom())]
        {
            &&& crate::strmap::listing(us, new_side.dom())
            &&& crate::strmap::listing(vs, old_side.dom())
            &&& d == changed_at(us, old_side, new_side, us.len() as int) + gone_at(
                vs,
                new_side,
                vs.len() as int,
            )
        };
    let first = changed_at(us, old_side, new_side, us.len() as int);
    lemma_changes_put_in(us, old_side, new_side, us.len() as int);
    lemma_gone_taken_out(vs, old_side, first, new_side, vs.len() as int);
    assert(us.take(us.len() as int) =~= us);
    assert(vs.take(vs.len() as int) =~= vs);
    let m0 = merged(old_side, as_changes(first));
    let m = merged(old_side, as_changes(d));
    assert forall|p: Seq<char>| m.contains_key(p) <==> new_side.contains_key(p) by {
        assert(us.to_set().contains(p) <==> us.contains(p));
        assert(vs.to_set().contains(p) <==> vs.contains(p));
        assert(m0.contains_key(p) || !m0.contains_key(p));
    }
    assert forall|p: Seq<char>| m.contains_key(p) implies m[p] == new_side[p] by {
        assert(us.to_set().contains(p) <==> us.contains(p));
        assert(vs.to_set().contains(p) <==> vs.contains(p));
        assert(m0.contains_key(p) || !m0.contains_key(p));
    }
    assert(m =~= new_side);
}

/// Where nothing changed there are no changes.
pub proof fn law_no_delta_without_change(d: Seq<LevelModel>, side: Map<Seq<char>, LevelModel>)
    requires
        is_delta(d, side, side),
    ensures
        d == Seq::<LevelModel>::empty(),
{
    let (us, vs) = choose|us: Seq<Seq<char>>, vs: Seq<Seq<char>>|
        #![trigger crate::strmap::listing(us, side.dom()), crate::strmap::listing(vs, side.dom())]
        {
            &&& crate::strmap::listing(us, side.dom())
            &&& crate::strmap::listing(vs, side.dom())
            &&& d == changed_at(us, side, side, us.len() as int) + gone_at(
                vs,
                side,
                vs.len() as int,
            )
        };
    lemma_unchanged(us, side, us.len() as int);
    lemma_unchanged(vs, side, vs.len() as int);
    assert(d =~= Seq::<LevelModel>::empty());
}

proof fn lemma_unchanged(us: Seq<Seq<char>>, side: Map<Seq<char>, LevelModel>, n: int)
    requires
        0 <= n <= us.len(),
        us.to_set() == side.dom(),
    ensures
        changed_at(us, side, side, n) == Seq::<LevelModel>::empty(),
        gone_at(us, side, n) == Seq::<LevelModel>::empty(),
    decreases n,
{
    if n > 0 {
        lemma_unchanged(us, side, n - 1);
        assert(us.contains(us[n - 1]));
        assert(us.to_set().contains(us[n - 1]));
    }
}

} // verus!

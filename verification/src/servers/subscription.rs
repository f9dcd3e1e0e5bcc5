//! What a client can subscribe to.
use crate::text::str_eq;
use vstd::prelude::*;

verus! {

/// A subscription of a client.
pub enum Subscription {
    Trades { coin: String },
    Bbo { coin: String },
    L2Book {
        coin: String,
        n_sig_figs: Option<u32>,
        n_levels: Option<usize>,
        mantissa: Option<u64>,
    },
    TriggerBook {
        coin: String,
        n_sig_figs: Option<u32>,
        n_levels: Option<usize>,
        mantissa: Option<u64>,
    },
    L4Book { coin: String, start_px: Option<String>, end_px: Option<String> },
    L4TriggerBook { coin: String, start_px: Option<String>, end_px: Option<String> },
    AllPrices { coin: Option<String>, coins: Option<Vec<String>> },
    OrderUpdates { user: String },
}

/// What a subscription is.
#[verifier::ext_equal]
pub enum SubModel {
    Trades { coin: Seq<char> },
    Bbo { coin: Seq<char> },
    L2Book {
        coin: Seq<char>,
        n_sig_figs: Option<u32>,
        n_levels: Option<usize>,
        mantissa: Option<u64>,
    },
    TriggerBook {
        coin: Seq<char>,
        n_sig_figs: Option<u32>,
        n_levels: Option<usize>,
        mantissa: Option<u64>,
    },
    L4Book { coin: Seq<char>, start_px: Option<Seq<char>>, end_px: Option<Seq<char>> },
    L4TriggerBook { coin: Seq<char>, start_px: Option<Seq<char>>, end_px: Option<Seq<char>> },
    AllPrices { coin: Option<Seq<char>>, coins: Option<Seq<Seq<char>>> },
    OrderUpdates { user: Seq<char> },
}

/// What an optional list of strings holds.
pub open spec fn texts_opt(o: Option<Vec<String>>) -> Option<Seq<Seq<char>>> {
    match o {
        Some(v) => Some(crate::json::texts(v@)),
        None => None,
    }
}

impl View for Subscription {
    type V = SubModel;

    open spec fn view(&self) -> SubModel {
        match *self {
            Subscription::Trades { coin } => SubModel::Trades { coin: coin@ },
            Subscription::Bbo { coin } => SubModel::Bbo { coin: coin@ },
            Subscription::L2Book { coin, n_sig_figs, n_levels, mantissa } => SubModel::L2Book {
                coin: coin@,
                n_sig_figs,
                n_levels,
                mantissa,
            },
            Subscription::TriggerBook { coin, n_sig_figs, n_levels, mantissa } => SubModel::TriggerBook {
                coin: coin@,
                n_sig_figs,
                n_levels,
                mantissa,
            },
            Subscription::L4Book { coin, start_px, end_px } => SubModel::L4Book {
                coin: coin@,
                start_px: crate::json::text_opt(start_px),
                end_px: crate::json::text_opt(end_px),
            },
            Subscription::L4TriggerBook { coin, start_px, end_px } => SubModel::L4TriggerBook {
                coin: coin@,
                start_px: crate::json::text_opt(start_px),
                end_px: crate::json::text_opt(end_px),
            },
            Subscription::AllPrices { coin, coins } => SubModel::AllPrices {
                coin: crate::json::text_opt(coin),
                coins: texts_opt(coins),
            },
            Subscription::OrderUpdates { user } => SubModel::OrderUpdates { user: user@ },
        }
    }
}

/// What the subscriptions of a list are.
pub open spec fn sub_views(v: Seq<Subscription>) -> Seq<SubModel> {
    v.map_values(|s: Subscription| s@)
}

fn same_opt(a: &Option<String>, b: &Option<String>) -> (r: bool)
    ensures
        r == (crate::json::text_opt(*a) == crate::json::text_opt(*b)),
{
    match (a, b) {
        (Some(x), Some(y)) => str_eq(x.as_str(), y.as_str()),
        (None, None) => true,
        _ => false,
    }
}

fn same_list(a: &Vec<String>, b: &Vec<String>) -> (r: bool)
    ensures
        r == (crate::json::texts(a@) == crate::json::texts(b@)),
{
    let ghost x = crate::json::texts(a@);
    let ghost y = crate::json::texts(b@);
    assert(x.len() == a@.len() && y.len() == b@.len());
    if a.len() != b.len() {
        return false;
    }
    let mut i: usize = 0;
    while i < a.len()
        invariant
            i <= a@.len(),
            a@.len() == b@.len(),
            x == crate::json::texts(a@),
            y == crate::json::texts(b@),
            forall|j: int| 0 <= j < i ==> x[j] == y[j],
        decreases a@.len() - i,
    {
        if !str_eq(a[i].as_str(), b[i].as_str()) {
            assert(x[i as int] != y[i as int]);
            return false;
        }
        i = i + 1;
    }
    assert(x =~= y);
    true
}

fn same_list_opt(a: &Option<Vec<String>>, b: &Option<Vec<String>>) -> (r: bool)
    ensures
        r == (texts_opt(*a) == texts_opt(*b)),
{
    match (a, b) {
        (Some(x), Some(y)) => same_list(x, y),
        (None, None) => true,
        _ => false,
    }
}

fn copy_opt(a: &Option<String>) -> (r: Option<String>)
    ensures
        crate::json::text_opt(r) == crate::json::text_opt(*a),
{
    match a {
        Some(x) => Some(x.clone()),
        None => None,
    }
}

fn copy_list(a: &Vec<String>) -> (r: Vec<String>)
    ensures
        crate::json::texts(r@) == crate::json::texts(a@),
{
    let mut r: Vec<String> = Vec::new();
    let mut i: usize = 0;
    while i < a.len()
        invariant
            i <= a@.len(),
            r@.len() == i,
            forall|j: int| 0 <= j < i ==> (#[trigger] r@[j])@ == a@[j]@,
        decreases a@.len() - i,
    {
        r.push(a[i].clone());
        i = i + 1;
    }
    assert(crate::json::texts(r@) =~= crate::json::texts(a@));
    r
}

impl Subscription {
    /// Whether the other subscription is this one.
    pub fn same(&self, other: &Subscription) -> (r: bool)
        ensures
            r == (self@ == other@),
    {
        match (self, other) {
            (Subscription::Trades { coin }, Subscription::Trades { coin: c }) => str_eq(
                coin.as_str(),
                c.as_str(),
            ),
            (Subscription::Bbo { coin }, Subscription::Bbo { coin: c }) => str_eq(
                coin.as_str(),
                c.as_str(),
            ),
            (
                Subscription::L2Book { coin, n_sig_figs, n_levels, mantissa },
                Subscription::L2Book { coin: c, n_sig_figs: f, n_levels: l, mantissa: m },
            ) => str_eq(coin.as_str(), c.as_str()) && *n_sig_figs == *f && *n_levels == *l && *mantissa
                == *m,
            (
                Subscription::TriggerBook { coin, n_sig_figs, n_levels, mantissa },
                Subscription::TriggerBook { coin: c, n_sig_figs: f, n_levels: l, mantissa: m },
            ) => str_eq(coin.as_str(), c.as_str()) && *n_sig_figs == *f && *n_levels == *l && *mantissa
                == *m,
            (
                Subscription::L4Book { coin, start_px, end_px },
                Subscription::L4Book { coin: c, start_px: s, end_px: e },
            ) => str_eq(coin.as_str(), c.as_str()) && same_opt(start_px, s) && same_opt(end_px, e),
            (
                Subscription::L4TriggerBook { coin, start_px, end_px },
                Subscription::L4TriggerBook { coin: c, start_px: s, end_px: e },
            ) => str_eq(coin.as_str(), c.as_str()) && same_opt(start_px, s) && same_opt(end_px, e),
            (
                Subscription::AllPrices { coin, coins },
                Subscription::AllPrices { coin: c, coins: cs },
            ) => same_opt(coin, c) && same_list_opt(coins, cs),
            (Subscription::OrderUpdates { user }, Subscription::OrderUpdates { user: u }) => str_eq(
                user.as_str(),
                u.as_str(),
            ),
            _ => false,
        }
    }

    /// A subscription like this one.
    pub fn copy(&self) -> (r: Subscription)
        ensures
            r@ == self@,
    {
        match self {
            Subscription::Trades { coin } => Subscription::Trades { coin: coin.clone() },
            Subscription::Bbo { coin } => Subscription::Bbo { coin: coin.clone() },
            Subscription::L2Book { coin, n_sig_figs, n_levels, mantissa } => Subscription::L2Book {
                coin: coin.clone(),
                n_sig_figs: *n_sig_figs,
                n_levels: *n_levels,
                mantissa: *mantissa,
            },
            Subscription::TriggerBook { coin, n_sig_figs, n_levels, mantissa } => {
                Subscription::TriggerBook {
                    coin: coin.clone(),
                    n_sig_figs: *n_sig_figs,
                    n_levels: *n_levels,
                    mantissa: *mantissa,
                }
            },
            Subscription::L4Book { coin, start_px, end_px } => Subscription::L4Book {
                coin: coin.clone(),
                start_px: copy_opt(start_px),
                end_px: copy_opt(end_px),
            },
            Subscription::L4TriggerBook { coin, start_px, end_px } => Subscription::L4TriggerBook {
                coin: coin.clone(),
                start_px: copy_opt(start_px),
                end_px: copy_opt(end_px),
            },
            Subscription::AllPrices { coin, coins } => Subscription::AllPrices {
                coin: copy_opt(coin),
                coins: match coins {
                    Some(cs) => Some(copy_list(cs)),
                    None => None,
                },
            },
            Subscription::OrderUpdates { user } => Subscription::OrderUpdates { user: user.clone() },
        }
    }
}

/// The place of a subscription in a list, where it is there.
pub fn find_sub(subs: &Vec<Subscription>, s: &Subscription) -> (r: Option<usize>)
    ensures
        match r {
            Some(i) => i < subs@.len() && subs@[i as int]@ == s@,
            None => !sub_views(subs@).contains(s@),
        },
{
    let mut i: usize = 0;
    while i < subs.len()
        invariant
            i <= subs@.len(),
            forall|j: int| 0 <= j < i ==> (#[trigger] subs@[j])@ != s@,
        decreases subs@.len() - i,
    {
        if subs[i].same(s) {
            return Some(i);
        }
        i = i + 1;
    }
    proof {
        let all = sub_views(subs@);
        if all.contains(s@) {
            let j = all.index_of(s@);
            assert(subs@[j]@ == s@);
        }
    }
    None
}

} // verus!

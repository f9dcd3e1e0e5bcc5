//! Messages about order books and liquidations.
use vstd::prelude::*;

verus! {

/// A price level: price, size, and the number of orders.
pub struct Level {
    px: String,
    sz: String,
    n: usize,
}

/// What a price level is.
#[verifier::ext_equal]
pub struct LevelModel {
    pub px: Seq<char>,
    pub sz: Seq<char>,
    pub n: usize,
}

impl View for Level {
    type V = LevelModel;

    closed spec fn view(&self) -> LevelModel {
        LevelModel { px: self.px@, sz: self.sz@, n: self.n }
    }
}

impl Level {
    pub fn new(px: String, sz: String, n: usize) -> (r: Level)
        ensures
            r@ == (LevelModel { px: px@, sz: sz@, n }),
    {
        Level { px, sz, n }
    }

    pub fn px(&self) -> (r: &str)
        ensures
            r@ == self@.px,
    {
        self.px.as_str()
    }

    pub fn sz(&self) -> (r: &str)
        ensures
            r@ == self@.sz,
    {
        self.sz.as_str()
    }

    /// The number of orders.
    pub fn n(&self) -> (r: usize)
        ensures
            r == self@.n,
    {
        self.n
    }

    /// A level like this one.
    pub fn copy(&self) -> (r: Level)
        ensures
            r@ == self@,
    {
        Level { px: self.px.clone(), sz: self.sz.clone(), n: self.n }
    }
}

/// What the levels of a list are.
pub open spec fn level_views(v: Seq<Level>) -> Seq<LevelModel> {
    v.map_values(|l: Level| l@)
}

/// The levels of a coin, grouped to so many significant figures.
pub struct L2Book {
    coin: String,
    time: u64,
    n_sig_figs: Option<u32>,
    mantissa: Option<u64>,
    n_levels: Option<usize>,
    levels: [Vec<Level>; 2],
}

/// What a book of levels is: bids and asks.
#[verifier::ext_equal]
pub struct L2Model {
    pub coin: Seq<char>,
    pub time: u64,
    pub n_sig_figs: Option<u32>,
    pub mantissa: Option<u64>,
    pub n_levels: Option<usize>,
    pub bids: Seq<LevelModel>,
    pub asks: Seq<LevelModel>,
}

impl View for L2Book {
    type V = L2Model;

    closed spec fn view(&self) -> L2Model {
        L2Model {
            coin: self.coin@,
            time: self.time,
            n_sig_figs: self.n_sig_figs,
            mantissa: self.mantissa,
            n_levels: self.n_levels,
            bids: level_views(self.levels@[0]@),
            asks: level_views(self.levels@[1]@),
        }
    }
}

impl L2Book {
    pub fn from_l2_snapshot(
        coin: String,
        snapshot: [Vec<Level>; 2],
        time: u64,
        n_sig_figs: Option<u32>,
        mantissa: Option<u64>,
        n_levels: Option<usize>,
    ) -> (r: L2Book)
        ensures
            r@ == (L2Model {
                coin: coin@,
                time,
                n_sig_figs,
                mantissa,
                n_levels,
                bids: level_views(snapshot@[0]@),
                asks: level_views(snapshot@[1]@),
            }),
    {
        L2Book { coin, time, n_sig_figs, mantissa, n_levels, levels: snapshot }
    }

    pub fn coin(&self) -> (r: &str)
        ensures
            r@ == self@.coin,
    {
        self.coin.as_str()
    }

    pub fn time(&self) -> (r: u64)
        ensures
            r == self@.time,
    {
        self.time
    }

    pub fn levels(&self) -> (r: &[Vec<Level>; 2])
        ensures
            level_views(r@[0]@) == self@.bids,
            level_views(r@[1]@) == self@.asks,
    {
        &self.levels
    }

    pub fn n_sig_figs(&self) -> (r: Option<u32>)
        ensures
            r == self@.n_sig_figs,
    {
        self.n_sig_figs
    }

    pub fn mantissa(&self) -> (r: Option<u64>)
        ensures
            r == self@.mantissa,
    {
        self.mantissa
    }

    /// The book at a coarser grouping. `grouped` are its levels as the order book groups them to
    /// `n_sig_figs` and `mantissa`. The number of levels is no longer limited.
    pub fn rebucket(
        &self,
        n_sig_figs: Option<u32>,
        mantissa: Option<u64>,
        grouped: [Vec<Level>; 2],
    ) -> (r: L2Book)
        ensures
            r@ == (L2Model {
                n_sig_figs,
                mantissa,
                n_levels: None,
                bids: level_views(grouped@[0]@),
                asks: level_views(grouped@[1]@),
                ..self@
            }),
    {
        L2Book {
            coin: self.coin.clone(),
            time: self.time,
            n_sig_figs,
            mantissa,
            n_levels: None,
            levels: grouped,
        }
    }
}

// ── Liquidations ─────────────────────────────────────────────────────────

/// Liquidations of a coin by price.
pub struct LiquidationMapData {
    pub coin: String,
    pub time: u64,
    /// Longs (below the mark price), then shorts (above it).
    pub levels: [Vec<LiquidationLevel>; 2],
}

pub struct LiquidationLevel {
    pub px: String,
    pub coin_sz: String,
    pub ntl_sz: String,
    pub n: usize,
}

/// Liquidations of a coin by user.
pub struct L4LiquidationMapData {
    pub coin: String,
    pub time: u64,
    pub positions: Vec<L4LiquidationEntry>,
}

pub struct L4LiquidationEntry {
    pub user: String,
    pub side: String,
    pub sz: String,
    pub entry_px: String,
    pub liq_px: String,
    pub leverage: String,
    pub margin_type: String,
}

} // verus!

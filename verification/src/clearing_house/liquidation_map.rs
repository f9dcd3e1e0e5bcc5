//! Liquidation prices of positions, by coin.
use crate::strmap::StrMap;
use crate::text::{decimal_string, push_text, str_eq};
use crate::types::{L4LiquidationEntry, L4LiquidationMapData};
use vstd::prelude::*;

verus! {

// ── What a node answers ──────────────────────────────────────────────────

pub struct ClearinghouseResponse {
    pub asset_positions: Vec<AssetPositionWrapper>,
    pub margin_summary: Option<MarginSummary>,
}

pub struct AssetPositionWrapper {
    pub position: PositionInfo,
}

pub struct PositionInfo {
    pub coin: String,
    pub szi: String,
    pub leverage: LeverageInfo,
    pub entry_px: String,
    pub liquidation_px: Option<String>,
    pub position_value: String,
    pub unrealized_pnl: String,
    pub max_leverage: u32,
}

pub struct LeverageInfo {
    pub lev_type: String,
    pub value: u32,
    pub raw_usd: Option<String>,
}

pub struct MarginSummary {
    pub account_value: String,
    pub total_margin_used: String,
}

/// The body of a request for the state of a user. The dex is named only where it is not the main one.
pub open spec fn request_body(user: Seq<char>, dex: Seq<char>) -> Seq<char> {
    if dex.len() == 0 {
        "{\"type\":\"clearinghouseState\",\"user\":"@ + crate::json::quoted(user) + "}"@
    } else {
        "{\"dex\":"@ + crate::json::quoted(dex) + ",\"type\":\"clearinghouseState\",\"user\":"@
            + crate::json::quoted(user) + "}"@
    }
}

/// The body of a request for the state of a user on a dex; the empty name is the main dex.
pub fn state_request(user: &str, dex: &str) -> (r: String)
    ensures
        r@ == request_body(user@, dex@),
{
    let q = crate::json::quote(user);
    proof {
        reveal_strlit("");
        assert(""@ =~= Seq::<char>::empty());
        if dex@.len() == 0 {
            assert(dex@ =~= ""@);
        }
    }
    let mut r = String::new();
    assert(r@ =~= Seq::<char>::empty());
    if str_eq(dex, "") {
        push_text(&mut r, "{\"type\":\"clearinghouseState\",\"user\":");
    } else {
        push_text(&mut r, "{\"dex\":");
        let d = crate::json::quote(dex);
        push_text(&mut r, d.as_str());
        push_text(&mut r, ",\"type\":\"clearinghouseState\",\"user\":");
    }
    push_text(&mut r, q.as_str());
    push_text(&mut r, "}");
    assert(r@ =~= request_body(user@, dex@));
    r
}

// ── Positions with a liquidation price ───────────────────────────────────

/// The numbers of a position as they are read: whether the size is zero or positive, whether the
/// liquidation price counts (it is not zero or below), and the texts that are reported.
pub struct PositionReading {
    pub is_zero: bool,
    pub is_long: bool,
    pub liq_counts: bool,
    pub sz: String,
    pub entry_px: String,
    pub liq_px: String,
}

/// A position with a liquidation price.
pub struct LiqEntry {
    pub user: String,
    pub coin: String,
    pub is_long: bool,
    pub sz: String,
    pub entry_px: String,
    pub liq_px: String,
    pub leverage: u32,
    pub margin_type: String,
}

/// What a position with a liquidation price is.
#[verifier::ext_equal]
pub struct LiqModel {
    pub user: Seq<char>,
    pub coin: Seq<char>,
    pub is_long: bool,
    pub sz: Seq<char>,
    pub entry_px: Seq<char>,
    pub liq_px: Seq<char>,
    pub leverage: u32,
    pub margin_type: Seq<char>,
}

impl View for LiqEntry {
    type V = LiqModel;

    open spec fn view(&self) -> LiqModel {
        LiqModel {
            user: self.user@,
            coin: self.coin@,
            is_long: self.is_long,
            sz: self.sz@,
            entry_px: self.entry_px@,
            liq_px: self.liq_px@,
            leverage: self.leverage,
            margin_type: self.margin_type@,
        }
    }
}

/// The entry of a position, where it counts: it has a size and a liquidation price above zero.
pub open spec fn entry_of(user: Seq<char>, p: PositionInfo, n: PositionReading) -> Option<LiqModel> {
    if n.is_zero || p.liquidation_px is None || !n.liq_counts {
        None
    } else {
        Some(
            LiqModel {
                user,
                coin: p.coin@,
                is_long: n.is_long,
                sz: n.sz@,
                entry_px: n.entry_px@,
                liq_px: n.liq_px@,
                leverage: p.leverage.value,
                margin_type: p.leverage.lev_type@,
            },
        )
    }
}

/// The entry of a position, where it counts.
pub fn liq_entry(user: &str, pos: &PositionInfo, reading: &PositionReading) -> (r: Option<LiqEntry>)
    ensures
        match (entry_of(user@, *pos, *reading), r) {
            (Some(m), Some(e)) => e@ == m,
            (None, None) => true,
            _ => false,
        },
{
    if reading.is_zero || pos.liquidation_px.is_none() || !reading.liq_counts {
        return None;
    }
    Some(
        LiqEntry {
            user: user.to_owned(),
            coin: pos.coin.clone(),
            is_long: reading.is_long,
            sz: reading.sz.clone(),
            entry_px: reading.entry_px.clone(),
            liq_px: reading.liq_px.clone(),
            leverage: pos.leverage.value,
            margin_type: pos.leverage.lev_type.clone(),
        },
    )
}

/// Whether one of the first `n` entries is in the coin.
pub open spec fn entry_in(entries: Seq<LiqEntry>, coin: Seq<char>, n: int) -> bool {
    exists|i: int| 0 <= i < n && (#[trigger] entries[i])@.coin == coin
}

/// The coins of the entries, each once, in dictionary order.
pub fn liquidated_coins(entries: &Vec<LiqEntry>) -> (r: Vec<String>)
    ensures
        crate::text::in_order(crate::json::texts(r@)),
        crate::json::texts(r@).no_duplicates(),
        forall|c: Seq<char>|
            crate::json::texts(r@).contains(c) <==> #[trigger] entry_in(
                entries@,
                c,
                entries@.len() as int,
            ),
{
    let mut coins: StrMap<()> = StrMap::new();
    let mut i: usize = 0;
    while i < entries.len()
        invariant
            i <= entries@.len(),
            forall|c: Seq<char>| #[trigger]
                coins@.contains_key(c) <==> entry_in(entries@, c, i as int),
        decreases entries@.len() - i,
    {
        coins.insert(entries[i].coin.clone(), ());
        proof {
            let new = entries@[i as int]@.coin;
            assert forall|x: Seq<char>| entry_in(entries@, x, i + 1) <==> entry_in(
                entries@,
                x,
                i as int,
            ) || x == new by {
                if entry_in(entries@, x, i + 1) {
                    let j = choose|j: int| 0 <= j < i + 1 && (#[trigger] entries@[j])@.coin == x;
                    if j < i {
                        assert(entry_in(entries@, x, i as int));
                    }
                }
                if entry_in(entries@, x, i as int) {
                    let j = choose|j: int| 0 <= j < i && (#[trigger] entries@[j])@.coin == x;
                    assert(entries@[j]@.coin == x);
                }
            }
        }
        i = i + 1;
    }
    let r = coins.sorted_keys();
    proof {
        let us = crate::json::texts(r@);
        assert forall|c: Seq<char>| us.contains(c) <==> #[trigger] entry_in(
            entries@,
            c,
            entries@.len() as int,
        ) by {
            assert(us.to_set().contains(c) <==> us.contains(c));
            assert(coins@.contains_key(c) <==> coins@.dom().contains(c));
        }
    }
    r
}

/// What the report of a position holds.
#[verifier::ext_equal]
pub struct L4Model {
    pub user: Seq<char>,
    pub side: Seq<char>,
    pub sz: Seq<char>,
    pub entry_px: Seq<char>,
    pub liq_px: Seq<char>,
    pub leverage: Seq<char>,
    pub margin_type: Seq<char>,
}

impl View for L4LiquidationEntry {
    type V = L4Model;

    open spec fn view(&self) -> L4Model {
        L4Model {
            user: self.user@,
            side: self.side@,
            sz: self.sz@,
            entry_px: self.entry_px@,
            liq_px: self.liq_px@,
            leverage: self.leverage@,
            margin_type: self.margin_type@,
        }
    }
}

/// The report of a position.
pub open spec fn reported(e: LiqModel) -> L4Model {
    L4Model {
        user: e.user,
        side: if e.is_long {
            "long"@
        } else {
            "short"@
        },
        sz: e.sz,
        entry_px: e.entry_px,
        liq_px: e.liq_px,
        leverage: crate::text::decimal_text(e.leverage as nat),
        margin_type: e.margin_type,
    }
}

/// The reports of those of the first `n` entries that are in the coin.
pub open spec fn reports(entries: Seq<LiqEntry>, coin: Seq<char>, n: int) -> Seq<L4Model>
    decreases n,
{
    if n <= 0 {
        Seq::empty()
    } else if entries[n - 1]@.coin == coin {
        reports(entries, coin, n - 1).push(reported(entries[n - 1]@))
    } else {
        reports(entries, coin, n - 1)
    }
}

/// What a list of reports holds.
pub open spec fn report_views(v: Seq<L4LiquidationEntry>) -> Seq<L4Model> {
    v.map_values(|e: L4LiquidationEntry| e@)
}

/// The liquidations in a coin, position by position.
pub fn build_l4_liquidation_map_from_entries(entries: &Vec<LiqEntry>, coin: &str, time: u64) -> (r:
    L4LiquidationMapData)
    ensures
        r.coin@ == coin@,
        r.time == time,
        report_views(r.positions@) == reports(entries@, coin@, entries@.len() as int),
{
    let mut positions: Vec<L4LiquidationEntry> = Vec::new();
    assert(report_views(positions@) =~= Seq::<L4Model>::empty());
    let mut i: usize = 0;
    while i < entries.len()
        invariant
            i <= entries@.len(),
            report_views(positions@) == reports(entries@, coin@, i as int),
        decreases entries@.len() - i,
    {
        let e = &entries[i];
        if str_eq(e.coin.as_str(), coin) {
            let ghost was = positions@;
            let side = if e.is_long {
                "long".to_owned()
            } else {
                "short".to_owned()
            };
            let p = L4LiquidationEntry {
                user: e.user.clone(),
                side,
                sz: e.sz.clone(),
                entry_px: e.entry_px.clone(),
                liq_px: e.liq_px.clone(),
                leverage: decimal_string(e.leverage as u64),
                margin_type: e.margin_type.clone(),
            };
            positions.push(p);
            proof {
                assert(p@ =~= reported(e@));
                assert(report_views(positions@) =~= report_views(was).push(p@));
            }
        }
        i = i + 1;
    }
    L4LiquidationMapData { coin: coin.to_owned(), time, positions }
}

} // verus!

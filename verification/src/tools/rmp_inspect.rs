//! Looking into a snapshot: where a user stands, and raw data made readable.
use crate::assetmap::AssetMap;
use crate::clearing_house::{
    AccountMode, DexModel, DexState, Leverage, LiquidationState, MarginTier, Position, StateModel,
};
use crate::json::pretty_at;
use crate::text::{
    bytes_of_char, chars_of, lead_len, lines_of, push_char, push_text, str_eq, text_of,
};
use vstd::prelude::*;

verus! {

// ── Where a user stands ──────────────────────────────────────────────────

/// The name of an asset of a dex, and the most leverage that it allows; "?" where the dex does not list
/// it.
pub struct Listing {
    pub coin: String,
    pub max_leverage: Option<u32>,
}

/// A position of a user.
pub struct PositionLine {
    pub asset: u32,
    pub listing: Listing,
    pub position: Position,
}

/// A leverage setting of a user.
pub struct SettingLine {
    pub asset: u32,
    pub listing: Listing,
    pub leverage: Leverage,
}

/// Where a user stands on a dex.
pub struct Standing {
    pub dex: usize,
    pub pdi: u32,
    /// Whether the user has no positions on the dex.
    pub partial: bool,
    pub usdc_balance: i64,
    pub spot_collateral: i64,
    pub account_mode: AccountMode,
    pub positions: Vec<PositionLine>,
    pub settings: Vec<SettingLine>,
}

/// What the name of an asset and its leverage are.
#[verifier::ext_equal]
pub struct ListingModel {
    pub coin: Seq<char>,
    pub max_leverage: Option<u32>,
}

impl View for Listing {
    type V = ListingModel;

    open spec fn view(&self) -> ListingModel {
        ListingModel { coin: self.coin@, max_leverage: self.max_leverage }
    }
}

/// What a position of a user is.
#[verifier::ext_equal]
pub struct PositionModel {
    pub asset: u32,
    pub listing: ListingModel,
    pub position: Position,
}

impl View for PositionLine {
    type V = PositionModel;

    open spec fn view(&self) -> PositionModel {
        PositionModel { asset: self.asset, listing: self.listing@, position: self.position }
    }
}

/// What a leverage setting of a user is.
#[verifier::ext_equal]
pub struct SettingModel {
    pub asset: u32,
    pub listing: ListingModel,
    pub leverage: Leverage,
}

impl View for SettingLine {
    type V = SettingModel;

    open spec fn view(&self) -> SettingModel {
        SettingModel { asset: self.asset, listing: self.listing@, leverage: self.leverage }
    }
}

/// What the standing of a user is.
#[verifier::ext_equal]
pub struct StandingModel {
    pub dex: usize,
    pub pdi: u32,
    pub partial: bool,
    pub usdc_balance: i64,
    pub spot_collateral: i64,
    pub account_mode: AccountMode,
    pub positions: Seq<PositionModel>,
    pub settings: Seq<SettingModel>,
}

/// What the positions of a list are.
pub open spec fn position_views(v: Seq<PositionLine>) -> Seq<PositionModel> {
    v.map_values(|p: PositionLine| p@)
}

/// What the settings of a list are.
pub open spec fn setting_views(v: Seq<SettingLine>) -> Seq<SettingModel> {
    v.map_values(|s: SettingLine| s@)
}

impl View for Standing {
    type V = StandingModel;

    open spec fn view(&self) -> StandingModel {
        StandingModel {
            dex: self.dex,
            pdi: self.pdi,
            partial: self.partial,
            usdc_balance: self.usdc_balance,
            spot_collateral: self.spot_collateral,
            account_mode: self.account_mode,
            positions: position_views(self.positions@),
            settings: setting_views(self.settings@),
        }
    }
}

/// What the standings of a list are.
pub open spec fn standing_views(v: Seq<Standing>) -> Seq<StandingModel> {
    v.map_values(|s: Standing| s@)
}

/// The name of an asset and the leverage of the first tier of its margin table.
pub open spec fn listed(d: DexModel, asset: u32) -> ListingModel {
    if asset < d.universe.len() {
        let a = d.universe[asset as int];
        ListingModel {
            coin: a.name,
            max_leverage: if d.margin_tables.contains_key(a.margin_table_id)
                && d.margin_tables[a.margin_table_id].len() > 0 {
                Some(d.margin_tables[a.margin_table_id][0].max_leverage)
            } else {
                None
            },
        }
    } else {
        ListingModel { coin: "?"@, max_leverage: None }
    }
}

/// Whether the list names everything in the set once, in ascending order.
pub open spec fn numbered(ks: Seq<u32>, dom: Set<u32>) -> bool {
    crate::assetmap::ascending(ks) && ks.to_set() == dom
}

/// The positions at the first `n` assets of a list.
pub open spec fn positions_at(d: DexModel, ps: Map<u32, Position>, ks: Seq<u32>, n: int) -> Seq<
    PositionModel,
>
    decreases n,
{
    if n <= 0 {
        Seq::empty()
    } else {
        positions_at(d, ps, ks, n - 1).push(
            PositionModel { asset: ks[n - 1], listing: listed(d, ks[n - 1]), position: ps[ks[n - 1]] },
        )
    }
}

/// The settings at those of the first `n` assets of a list that have no position.
pub open spec fn settings_at(
    d: DexModel,
    ps: Map<u32, Position>,
    ls: Map<u32, Leverage>,
    ks: Seq<u32>,
    n: int,
) -> Seq<SettingModel>
    decreases n,
{
    if n <= 0 {
        Seq::empty()
    } else {
        let before = settings_at(d, ps, ls, ks, n - 1);
        if ps.contains_key(ks[n - 1]) {
            before
        } else {
            before.push(
                SettingModel {
                    asset: ks[n - 1],
                    listing: listed(d, ks[n - 1]),
                    leverage: ls[ks[n - 1]],
                },
            )
        }
    }
}

/// Whether the positions are those of the map, by asset in ascending order.
pub open spec fn are_positions(v: Seq<PositionModel>, d: DexModel, ps: Map<u32, Position>) -> bool {
    exists|ks: Seq<u32>| #[trigger]
        numbered(ks, ps.dom()) && v == positions_at(d, ps, ks, ks.len() as int)
}

/// Whether the settings are those of the map at assets without a position, in ascending order.
pub open spec fn are_settings(
    v: Seq<SettingModel>,
    d: DexModel,
    ps: Map<u32, Position>,
    ls: Map<u32, Leverage>,
) -> bool {
    exists|ks: Seq<u32>| #[trigger]
        numbered(ks, ls.dom()) && v == settings_at(d, ps, ls, ks, ks.len() as int)
}

/// Whether a standing is that of a user with positions on a dex.
pub open spec fn is_user_standing(s: StandingModel, d: DexModel, user: Seq<char>, dex: int) -> bool {
    let u = d.users[user];
    &&& s.dex == dex
    &&& s.pdi == d.pdi
    &&& !s.partial
    &&& s.usdc_balance == u.usdc_balance
    &&& s.spot_collateral == u.spot_collateral
    &&& s.account_mode == u.account_mode
    &&& are_positions(s.positions, d, u.positions)
    &&& are_settings(s.settings, d, u.positions, u.leverage_settings)
}

/// Whether a standing is that of a user without positions on a dex.
pub open spec fn is_partial_standing(s: StandingModel, d: DexModel, user: Seq<char>, dex: int) -> bool {
    let u = d.partials[user];
    &&& s.dex == dex
    &&& s.pdi == d.pdi
    &&& s.partial
    &&& s.usdc_balance == u.usdc_balance
    &&& s.spot_collateral == u.spot_collateral
    &&& s.account_mode == u.account_mode
    &&& s.positions == Seq::<PositionModel>::empty()
    &&& are_settings(s.settings, d, Map::empty(), u.leverage_settings)
}

/// Whether the standings are those of a user on the first `n` dexes: on each dex that of a user with
/// positions, then that of a user without, where the dex knows them.
pub open spec fn are_standings(v: Seq<StandingModel>, m: StateModel, user: Seq<char>, n: int) -> bool
    decreases n,
{
    if n <= 0 {
        v.len() == 0
    } else {
        let d = m.dexes[n - 1];
        let full = if d.users.contains_key(user) {
            1int
        } else {
            0
        };
        let part = if d.partials.contains_key(user) {
            1int
        } else {
            0
        };
        &&& v.len() >= full + part
        &&& are_standings(v.take(v.len() - full - part), m, user, n - 1)
        &&& full == 1 ==> is_user_standing(v[v.len() - full - part], d, user, n - 1)
        &&& part == 1 ==> is_partial_standing(v[v.len() - 1], d, user, n - 1)
    }
}

impl DexState {
    fn list_asset(&self, asset: u32) -> (r: Listing)
        ensures
            r@ == listed(self@, asset),
    {
        let n: usize = self.universe.len();
        if (asset as u64) < n as u64 {
            let a = &self.universe[asset as usize];
            assert(self@.universe[asset as int] == a@);
            let max_leverage: Option<u32> = match self.margin_tables.get(a.margin_table_id) {
                Some(tiers) => if tiers.len() > 0 {
                    Some(tiers[0].max_leverage)
                } else {
                    None
                },
                None => None,
            };
            Listing { coin: a.name.clone(), max_leverage }
        } else {
            Listing { coin: "?".to_owned(), max_leverage: None }
        }
    }

    fn list_positions(&self, ps: &AssetMap<Position>) -> (r: Vec<PositionLine>)
        ensures
            are_positions(position_views(r@), self@, ps@),
    {
        let n: usize = ps.len();
        let ghost ks = ps.keys();
        let mut r: Vec<PositionLine> = Vec::new();
        assert(position_views(r@) =~= Seq::<PositionModel>::empty());
        let mut i: usize = 0;
        while i < n
            invariant
                i <= n,
                n == ks.len(),
                ks == ps.keys(),
                position_views(r@) == positions_at(self@, ps@, ks, i as int),
            decreases n - i,
        {
            let k: u32 = ps.key_at(i);
            let p: Position = *ps.val_at(i);
            let ghost was = r@;
            let line = PositionLine { asset: k, listing: self.list_asset(k), position: p };
            r.push(line);
            assert(position_views(r@) =~= position_views(was).push(line@));
            i = i + 1;
        }
        assert(numbered(ks, ps@.dom()));
        r
    }

    fn list_settings(&self, ps: &AssetMap<Position>, ls: &AssetMap<Leverage>) -> (r: Vec<SettingLine>)
        ensures
            are_settings(setting_views(r@), self@, ps@, ls@),
    {
        let n: usize = ls.len();
        let ghost ks = ls.keys();
        let mut r: Vec<SettingLine> = Vec::new();
        assert(setting_views(r@) =~= Seq::<SettingModel>::empty());
        let mut i: usize = 0;
        while i < n
            invariant
                i <= n,
                n == ks.len(),
                ks == ls.keys(),
                setting_views(r@) == settings_at(self@, ps@, ls@, ks, i as int),
            decreases n - i,
        {
            let k: u32 = ls.key_at(i);
            if !ps.contains_key(k) {
                let l: Leverage = *ls.val_at(i);
                let ghost was = r@;
                let line = SettingLine { asset: k, listing: self.list_asset(k), leverage: l };
                r.push(line);
                assert(setting_views(r@) =~= setting_views(was).push(line@));
            }
            i = i + 1;
        }
        assert(numbered(ks, ls@.dom()));
        r
    }
}

/// Where a user stands, dex by dex. There is nothing where no dex knows the user.
pub fn user_standings(state: &LiquidationState, user: &str) -> (r: Vec<Standing>)
    ensures
        are_standings(standing_views(r@), state@, user@, state@.dexes.len() as int),
{
    let mut r: Vec<Standing> = Vec::new();
    let mut i: usize = 0;
    while i < state.dex_states.len()
        invariant
            i <= state.dex_states@.len(),
            are_standings(standing_views(r@), state@, user@, i as int),
        decreases state.dex_states@.len() - i,
    {
        let ghost before = standing_views(r@);
        let d = &state.dex_states[i];
        assert(state@.dexes[i as int] == d@);
        if let Some(u) = d.users.get(user) {
            let ghost was = r@;
            let s = Standing {
                dex: i,
                pdi: d.pdi,
                partial: false,
                usdc_balance: u.usdc_balance,
                spot_collateral: u.spot_collateral,
                account_mode: u.account_mode,
                positions: d.list_positions(&u.positions),
                settings: d.list_settings(&u.positions, &u.leverage_settings),
            };
            r.push(s);
            assert(standing_views(r@) =~= standing_views(was).push(s@));
        }
        if let Some(u) = d.users_without_positions.get(user) {
            let ghost was = r@;
            let none: AssetMap<Position> = AssetMap::new();
            let positions: Vec<PositionLine> = Vec::new();
            assert(position_views(positions@) =~= Seq::<PositionModel>::empty());
            let s = Standing {
                dex: i,
                pdi: d.pdi,
                partial: true,
                usdc_balance: u.usdc_balance,
                spot_collateral: u.spot_collateral,
                account_mode: u.account_mode,
                positions,
                settings: d.list_settings(&none, &u.leverage_settings),
            };
            r.push(s);
            assert(standing_views(r@) =~= standing_views(was).push(s@));
        }
        proof {
            let full = if d@.users.contains_key(user@) {
                1int
            } else {
                0
            };
            let part = if d@.partials.contains_key(user@) {
                1int
            } else {
                0
            };
            let now = standing_views(r@);
            assert(now.take(now.len() - full - part) =~= before);
        }
        i = i + 1;
    }
    r
}

// ── Margin tables ────────────────────────────────────────────────────────

/// The margin tables of the first `n` assets of a list, each once, in the order in which they come.
pub open spec fn tables_of(d: DexModel, ks: Seq<u32>, n: int) -> Seq<u32>
    decreases n,
{
    if n <= 0 {
        Seq::empty()
    } else {
        let before = tables_of(d, ks, n - 1);
        let k = ks[n - 1];
        if k < d.universe.len() && !before.contains(d.universe[k as int].margin_table_id) {
            before.push(d.universe[k as int].margin_table_id)
        } else {
            before
        }
    }
}

fn contains_number(v: &Vec<u32>, x: u32) -> (r: bool)
    ensures
        r == v@.contains(x),
{
    let mut i: usize = 0;
    while i < v.len()
        invariant
            i <= v@.len(),
            forall|j: int| 0 <= j < i ==> v@[j] != x,
        decreases v@.len() - i,
    {
        if v[i] == x {
            return true;
        }
        i = i + 1;
    }
    false
}

/// The margin tables of the assets of a list, each once, in the order in which they come.
pub fn margin_tables_of(dex: &DexState, assets: &Vec<u32>) -> (r: Vec<u32>)
    ensures
        r@ == tables_of(dex@, assets@, assets@.len() as int),
{
    let mut r: Vec<u32> = Vec::new();
    let mut i: usize = 0;
    while i < assets.len()
        invariant
            i <= assets@.len(),
            r@ == tables_of(dex@, assets@, i as int),
        decreases assets@.len() - i,
    {
        let k: u32 = assets[i];
        if (k as u64) < dex.universe.len() as u64 {
            let t: u32 = dex.universe[k as usize].margin_table_id;
            assert(dex@.universe[k as int] == dex.universe@[k as int]@);
            if !contains_number(&r, t) {
                r.push(t);
            }
        }
        i = i + 1;
    }
    r
}

/// The tiers of a margin table, where the dex has it.
pub fn tiers_of<'a>(dex: &'a DexState, table: u32) -> (r: Option<&'a Vec<MarginTier>>)
    ensures
        match r {
            Some(v) => dex@.margin_tables.contains_key(table) && v@ == dex@.margin_tables[table],
            None => !dex@.margin_tables.contains_key(table),
        },
{
    dex.margin_tables.get(table)
}

// ── Raw data ─────────────────────────────────────────────────────────────

/// Where the JSON value of a line starts: at the first brace, or else at the first bracket.
pub open spec fn json_start(s: Seq<char>) -> Option<int> {
    if s.contains('{') {
        Some(s.index_of_first('{')->Some_0)
    } else if s.contains('[') {
        Some(s.index_of_first('[')->Some_0)
    } else {
        None
    }
}

/// Whether a text looks like a JSON value: it ends with the bracket that it starts with.
pub open spec fn is_closed(s: Seq<char>) -> bool {
    s.len() > 0 && ((s[0] == '{' && s.last() == '}') || (s[0] == '[' && s.last() == ']'))
}

/// As many blanks.
pub open spec fn blanks(n: int) -> Seq<char>
    decreases n,
{
    if n <= 0 {
        Seq::empty()
    } else {
        blanks(n - 1).push(' ')
    }
}

/// How many bytes of white space a text starts with.
pub open spec fn indent_of(s: Seq<char>) -> int {
    crate::text::byte_count(s.take(s.len() - crate::text::without_lead(s).len())) as int
}

/// The first `n` lines of an indented value, behind what stands before it: the first line follows the
/// prefix, and the others are moved in.
pub open spec fn moved_in(prefix: Seq<char>, pad: Seq<char>, ls: Seq<Seq<char>>, n: int) -> Seq<Seq<char>>
    decreases n,
{
    if n <= 0 {
        Seq::empty()
    } else {
        moved_in(prefix, pad, ls, n - 1).push(
            if n == 1 {
                prefix + ls[0]
            } else {
                pad + ls[n - 1]
            },
        )
    }
}

/// The line in readable form: its JSON value is indented, where it has one.
pub open spec fn readable(line: Seq<char>) -> Seq<Seq<char>> {
    match json_start(line) {
        Some(p) => {
            let part = line.skip(p);
            match crate::json::pretty_found(part, ""@) {
                Some(t) => if is_closed(part) {
                    let ls = crate::text::lines(t);
                    moved_in(line.take(p), blanks(indent_of(line) + 4), ls, ls.len() as int)
                } else {
                    seq![line]
                },
                None => seq![line],
            }
        },
        None => seq![line],
    }
}

fn first_of(cs: &Vec<char>, c: char) -> (r: Option<usize>)
    ensures
        match r {
            Some(i) => i < cs@.len() && cs@.contains(c) && cs@.index_of_first(c) == Some(i as int),
            None => !cs@.contains(c),
        },
{
    let mut i: usize = 0;
    while i < cs.len()
        invariant
            i <= cs@.len(),
            forall|j: int| 0 <= j < i ==> cs@[j] != c,
        decreases cs@.len() - i,
    {
        if cs[i] == c {
            proof {
                cs@.index_of_first_ensures(c);
                assert(cs@.contains(c));
            }
            return Some(i);
        }
        i = i + 1;
    }
    None
}

fn one_line(line: &str) -> (r: Vec<String>)
    ensures
        crate::json::texts(r@) == seq![line@],
{
    let mut r: Vec<String> = Vec::new();
    r.push(line.to_owned());
    assert(crate::json::texts(r@) =~= seq![line@]);
    r
}

fn closed(s: &str) -> (r: bool)
    ensures
        r == is_closed(s@),
{
    let cs = chars_of(s);
    let n: usize = cs.len();
    n > 0 && ((cs[0] == '{' && cs[n - 1] == '}') || (cs[0] == '[' && cs[n - 1] == ']'))
}

/// The line in readable form: its JSON value is indented, where it has one.
pub fn pretty_line(line: &str) -> (r: Vec<String>)
    ensures
        crate::json::texts(r@) == readable(line@),
{
    let cs = chars_of(line);
    let start: Option<usize> = match first_of(&cs, '{') {
        Some(i) => Some(i),
        None => first_of(&cs, '['),
    };
    let p: usize = match start {
        Some(p) => p,
        None => {
            return one_line(line);
        },
    };
    assert(json_start(line@) == Some(p as int));
    let n: usize = cs.len();
    let part = text_of(&cs, p, n);
    assert(part@ =~= line@.skip(p as int));
    if !closed(part.as_str()) {
        return one_line(line);
    }
    let t = match pretty_at(part.as_str(), "") {
        Some(t) => t,
        None => {
            return one_line(line);
        },
    };
    let prefix = text_of(&cs, 0, p);
    assert(prefix@ =~= line@.take(p as int));
    let lead: usize = lead_len(&cs);
    assert(line@.len() - crate::text::without_lead(line@).len() == lead);
    let mut pad = "    ".to_owned();
    proof {
        reveal_strlit("    ");
        assert("    "@ =~= seq![' ', ' ', ' ', ' ']);
        assert(blanks(4) =~= seq![' ', ' ', ' ', ' ']) by {
            reveal_with_fuel(blanks, 5);
        }
    }
    let mut k: usize = 0;
    assert(line@.take(0) =~= Seq::<char>::empty());
    while k < lead
        invariant
            k <= lead <= cs@.len(),
            cs@ == line@,
            pad@ == blanks(4int + crate::text::byte_count(line@.take(k as int))),
        decreases lead - k,
    {
        let ghost done = crate::text::byte_count(line@.take(k as int));
        assert(line@.take(k + 1).drop_last() =~= line@.take(k as int));
        let wide: usize = bytes_of_char(cs[k]);
        let mut w: usize = 0;
        while w < wide
            invariant
                w <= wide,
                pad@ == blanks(4int + done + w),
            decreases wide - w,
        {
            push_char(&mut pad, ' ');
            w = w + 1;
        }
        k = k + 1;
    }
    let ls = lines_of(t.as_str());
    let ghost lt = crate::json::texts(ls@);
    let mut r: Vec<String> = Vec::new();
    assert(crate::json::texts(r@) =~= Seq::<Seq<char>>::empty());
    let mut i: usize = 0;
    while i < ls.len()
        invariant
            i <= ls@.len(),
            lt == crate::json::texts(ls@),
            crate::json::texts(r@) == moved_in(prefix@, pad@, lt, i as int),
        decreases ls@.len() - i,
    {
        assert(lt[i as int] == ls@[i as int]@);
        let mut out = if i == 0 {
            prefix.clone()
        } else {
            pad.clone()
        };
        push_text(&mut out, ls[i].as_str());
        let ghost was = r@;
        r.push(out);
        assert(crate::json::texts(r@) =~= crate::json::texts(was).push(out@));
        i = i + 1;
    }
    assert(lt.len() == ls@.len());
    r
}

// ── Arguments ────────────────────────────────────────────────────────────

/// What the program is asked to do.
pub struct Request {
    pub raw: bool,
    pub structure: bool,
    pub rest: Vec<String>,
}

/// Those of the first `n` arguments that are no switches.
pub open spec fn plain_args(args: Seq<Seq<char>>, n: int) -> Seq<Seq<char>>
    decreases n,
{
    if n <= 0 {
        Seq::empty()
    } else if args[n - 1] == "--raw"@ || args[n - 1] == "--structure"@ {
        plain_args(args, n - 1)
    } else {
        plain_args(args, n - 1).push(args[n - 1])
    }
}

/// Reads the arguments behind the name of the program: switches may stand anywhere.
pub fn read_args(args: &Vec<String>) -> (r: Request)
    ensures
        r.raw == crate::json::texts(args@).contains("--raw"@),
        r.structure == crate::json::texts(args@).contains("--structure"@),
        crate::json::texts(r.rest@) == plain_args(crate::json::texts(args@), args@.len() as int),
{
    let ghost all = crate::json::texts(args@);
    let mut raw = false;
    let mut structure = false;
    let mut rest: Vec<String> = Vec::new();
    assert(crate::json::texts(rest@) =~= Seq::<Seq<char>>::empty());
    let mut i: usize = 0;
    while i < args.len()
        invariant
            i <= args@.len(),
            all == crate::json::texts(args@),
            raw == all.take(i as int).contains("--raw"@),
            structure == all.take(i as int).contains("--structure"@),
            crate::json::texts(rest@) == plain_args(all, i as int),
        decreases args@.len() - i,
    {
        let a = args[i].as_str();
        proof {
            assert(all[i as int] == a@);
            crate::strmap::lemma_take_one(all, i as int);
            assert(all.take(i + 1).contains("--raw"@) <==> all.take(i as int).contains("--raw"@) || "--raw"@
                == a@);
            assert(all.take(i + 1).contains("--structure"@) <==> all.take(i as int).contains(
                "--structure"@,
            ) || "--structure"@ == a@);
            reveal_strlit("--raw");
            reveal_strlit("--structure");
        }
        if str_eq(a, "--raw") {
            raw = true;
        } else if str_eq(a, "--structure") {
            structure = true;
        } else {
            let ghost was = rest@;
            rest.push(args[i].clone());
            assert(crate::json::texts(rest@) =~= crate::json::texts(was).push(a@));
        }
        i = i + 1;
    }
    proof {
        assert(all.take(args@.len() as int) =~= all);
    }
    Request { raw, structure, rest }
}

} // verus!

//! Leverage settings that a snapshot lacks, from outside.
//!
//! A first replay notes the positions that were opened with a guessed leverage. For their users the
//! settings are asked for, and put into the state that a second replay starts from.
use crate::clearing_house::{
    DexModel, DexState, Leverage, LiquidationState, PartialModel, StateModel, UserModel,
    UserStatePartial,
};
use crate::json::{array_len_at, string_at, u64_at, value_at};
use crate::strmap::StrMap;
use crate::text::{decimal_string, push_text, str_eq};
use vstd::prelude::*;

verus! {

/// A setting as it comes from outside: cross or not, and the multiple.
#[derive(Debug, Clone, Copy, PartialEq, Eq, Structural)]
pub struct ApiSetting {
    pub is_cross: bool,
    pub value: u32,
}

impl View for ApiSetting {
    type V = ApiSetting;

    open spec fn view(&self) -> ApiSetting {
        *self
    }
}

// ── Whom to ask for ──────────────────────────────────────────────────────

/// Whether one of the first `n` notes is of the user.
pub open spec fn noted_user(fixes: Seq<(Seq<char>, usize, u32)>, u: Seq<char>, n: int) -> bool {
    exists|i: int| 0 <= i < n && (#[trigger] fixes[i]).0 == u
}

impl LiquidationState {
    /// The users of positions that were opened with a guessed leverage.
    pub fn users_needing_leverage(&self) -> (r: StrMap<()>)
        ensures
            forall|u: Seq<char>| #[trigger]
                r@.contains_key(u) <==> noted_user(
                    self@.leverage_fixes,
                    u,
                    self@.leverage_fixes.len() as int,
                ),
    {
        let ghost fixes = self@.leverage_fixes;
        let mut r: StrMap<()> = StrMap::new();
        let mut i: usize = 0;
        while i < self.positions_needing_leverage_fix.len()
            invariant
                i <= self.positions_needing_leverage_fix@.len(),
                fixes == self@.leverage_fixes,
                forall|u: Seq<char>| #[trigger]
                    r@.contains_key(u) <==> noted_user(fixes, u, i as int),
            decreases self.positions_needing_leverage_fix@.len() - i,
        {
            let u = self.positions_needing_leverage_fix[i].0.clone();
            r.insert(u, ());
            proof {
                assert(fixes[i as int].0 == u@);
                assert forall|x: Seq<char>| noted_user(fixes, x, i + 1) <==> noted_user(
                    fixes,
                    x,
                    i as int,
                ) || x == u@ by {
                    if noted_user(fixes, x, i + 1) {
                        let j = choose|j: int| 0 <= j < i + 1 && (#[trigger] fixes[j]).0 == x;
                        if j < i {
                            assert(noted_user(fixes, x, i as int));
                        }
                    }
                    if noted_user(fixes, x, i as int) {
                        let j = choose|j: int| 0 <= j < i && (#[trigger] fixes[j]).0 == x;
                        assert(fixes[j].0 == x);
                    }
                }
            }
            i = i + 1;
        }
        r
    }
}

// ── What an answer says ──────────────────────────────────────────────────

/// The setting that a position in an answer gives, by its fields: nothing without a coin or without
/// a leverage; cross, and a multiple of 20, where those are not given.
pub open spec fn setting_of(
    coin: Option<Seq<char>>,
    has_leverage: bool,
    kind: Option<Seq<char>>,
    value: Option<u64>,
) -> Option<(Seq<char>, ApiSetting)> {
    match coin {
        Some(c) => if c.len() > 0 && has_leverage {
            Some(
                (
                    c,
                    ApiSetting {
                        is_cross: match kind {
                            Some(k) => k == "cross"@,
                            None => true,
                        },
                        value: match value {
                            Some(v) => v as u32,
                            None => 20,
                        },
                    },
                ),
            )
        } else {
            None
        },
        None => None,
    }
}

/// The setting that a position in an answer gives, by its fields.
pub fn api_setting(
    coin: Option<String>,
    has_leverage: bool,
    kind: Option<String>,
    value: Option<u64>,
) -> (r: Option<(String, ApiSetting)>)
    ensures
        match (
            setting_of(
                crate::json::text_opt(coin),
                has_leverage,
                crate::json::text_opt(kind),
                value,
            ),
            r,
        ) {
            (Some((c, s)), Some(found)) => found.0@ == c && found.1 == s,
            (None, None) => true,
            _ => false,
        },
{
    let c = match coin {
        Some(c) => c,
        None => {
            return None;
        },
    };
    if str_eq(c.as_str(), "") || !has_leverage {
        proof {
            reveal_strlit("");
            assert(""@ =~= Seq::<char>::empty());
        }
        return None;
    }
    proof {
        reveal_strlit("");
        if c@.len() == 0 {
            assert(c@ =~= ""@);
        }
    }
    let is_cross = match kind {
        Some(k) => str_eq(k.as_str(), "cross"),
        None => true,
    };
    let value: u32 = match value {
        Some(v) => {
            #[verifier::truncate]
            let x: u32 = v as u32;
            x
        },
        None => 20,
    };
    Some((c, ApiSetting { is_cross, value }))
}

/// The place of the `i`th position in an answer: it may be wrapped in another object.
pub open spec fn position_place(doc: Seq<char>, i: nat) -> Seq<char> {
    let item = "/assetPositions/"@ + crate::text::decimal_text(i);
    if crate::json::value_found(doc, item + "/position"@) is Some {
        item + "/position"@
    } else {
        item
    }
}

/// The settings after the first `n` positions of an answer.
pub open spec fn settings_in(doc: Seq<char>, n: nat) -> Map<Seq<char>, ApiSetting>
    decreases n,
{
    if n == 0 {
        Map::empty()
    } else {
        let before = settings_in(doc, (n - 1) as nat);
        let p = position_place(doc, (n - 1) as nat);
        match setting_of(
            crate::json::string_found(doc, p + "/coin"@),
            crate::json::value_found(doc, p + "/leverage"@) is Some,
            crate::json::string_found(doc, p + "/leverage/type"@),
            crate::json::u64_found(doc, p + "/leverage/value"@),
        ) {
            Some((c, s)) => before.insert(c, s),
            None => before,
        }
    }
}

/// The settings that an answer gives: coin → setting.
pub open spec fn settings_of_answer(doc: Seq<char>) -> Map<Seq<char>, ApiSetting> {
    match crate::json::array_len_found(doc, "/assetPositions"@) {
        Some(n) => settings_in(doc, n as nat),
        None => Map::empty(),
    }
}

fn place(ptr: &str, more: &str) -> (r: String)
    ensures
        r@ == ptr@ + more@,
{
    let mut r = ptr.to_owned();
    push_text(&mut r, more);
    r
}

/// The settings that an answer gives, by coin.
pub fn leverage_from_answer(doc: &str) -> (r: StrMap<ApiSetting>)
    ensures
        r@ == settings_of_answer(doc@),
{
    let mut r: StrMap<ApiSetting> = StrMap::new();
    let n: usize = match array_len_at(doc, "/assetPositions") {
        Some(n) => n,
        None => {
            return r;
        },
    };
    let mut i: usize = 0;
    while i < n
        invariant
            i <= n,
            r@ == settings_in(doc@, i as nat),
        decreases n - i,
    {
        let number = decimal_string(i as u64);
        let item = place("/assetPositions/", number.as_str());
        let inner = place(item.as_str(), "/position");
        let p = if value_at(doc, inner.as_str()).is_some() {
            inner
        } else {
            item
        };
        assert(p@ == position_place(doc@, i as nat));
        let coin = place(p.as_str(), "/coin");
        let lev = place(p.as_str(), "/leverage");
        let kind = place(p.as_str(), "/leverage/type");
        let value = place(p.as_str(), "/leverage/value");
        if let Some((c, s)) = api_setting(
            string_at(doc, coin.as_str()),
            value_at(doc, lev.as_str()).is_some(),
            string_at(doc, kind.as_str()),
            u64_at(doc, value.as_str()),
        ) {
            r.insert(c, s);
        }
        i = i + 1;
    }
    r
}

// ── Putting the settings in ──────────────────────────────────────────────

/// The leverage that a setting stands for.
pub open spec fn leverage_for(s: ApiSetting) -> Leverage {
    if s.is_cross {
        Leverage::Cross(s.value)
    } else {
        Leverage::Isolated { leverage: s.value, raw_usd: 0 }
    }
}

/// The settings with one more, unless there is one for the asset.
pub open spec fn with_new(m: Map<u32, Leverage>, asset: u32, l: Leverage) -> Map<u32, Leverage> {
    if m.contains_key(asset) {
        m
    } else {
        m.insert(asset, l)
    }
}

/// The dex with a setting for a user; a user whom it does not know is entered.
pub open spec fn dex_with_setting(d: DexModel, u: Seq<char>, asset: u32, l: Leverage) -> DexModel {
    if d.users.contains_key(u) {
        DexModel {
            users: d.users.insert(
                u,
                UserModel {
                    leverage_settings: with_new(d.users[u].leverage_settings, asset, l),
                    ..d.users[u]
                },
            ),
            ..d
        }
    } else {
        let p = if d.partials.contains_key(u) {
            d.partials[u]
        } else {
            PartialModel::fresh()
        };
        DexModel {
            partials: d.partials.insert(
                u,
                PartialModel {
                    leverage_settings: with_new(p.leverage_settings, asset, l),
                    ..p
                },
            ),
            ..d
        }
    }
}

/// The setting that was asked for, where the answers hold one.
pub open spec fn answered(
    s: StateModel,
    answers: Map<Seq<char>, Map<Seq<char>, ApiSetting>>,
    fix: (Seq<char>, usize, u32),
) -> Option<ApiSetting> {
    let (u, di, asset) = fix;
    if di < s.dexes.len() && asset < s.dexes[di as int].universe.len() && answers.contains_key(u) {
        let coin = s.dexes[di as int].universe[asset as int].name;
        if answers[u].contains_key(coin) {
            Some(answers[u][coin])
        } else {
            None
        }
    } else {
        None
    }
}

/// The state with the settings for the first `n` notes, and how many were put in.
pub open spec fn injected(
    s: StateModel,
    answers: Map<Seq<char>, Map<Seq<char>, ApiSetting>>,
    fixes: Seq<(Seq<char>, usize, u32)>,
    n: int,
) -> (StateModel, int)
    decreases n,
{
    if n <= 0 {
        (s, 0)
    } else {
        let (t, count) = injected(s, answers, fixes, n - 1);
        match answered(t, answers, fixes[n - 1]) {
            Some(a) => {
                let di = fixes[n - 1].1 as int;
                (
                    StateModel {
                        dexes: t.dexes.update(
                            di,
                            dex_with_setting(
                                t.dexes[di],
                                fixes[n - 1].0,
                                fixes[n - 1].2,
                                leverage_for(a),
                            ),
                        ),
                        ..t
                    },
                    count + 1,
                )
            },
            None => (t, count),
        }
    }
}

impl DexState {
    fn give_setting(&mut self, u: &String, asset: u32, l: Leverage)
        ensures
            final(self)@ == dex_with_setting(old(self)@, u@, asset, l),
    {
        let ghost before = self@;
        if let Some(us) = self.users.get_mut(u.as_str()) {
            if !us.leverage_settings.contains_key(asset) {
                us.leverage_settings.insert(asset, l);
            }
        } else if let Some(p) = self.users_without_positions.get_mut(u.as_str()) {
            if !p.leverage_settings.contains_key(asset) {
                p.leverage_settings.insert(asset, l);
            }
        } else {
            let mut p = UserStatePartial::fresh();
            p.leverage_settings.insert(asset, l);
            self.users_without_positions.insert(u.clone(), p);
        }
        assert(self@ =~= dex_with_setting(before, u@, asset, l));
    }
}

/// Puts the settings that were asked for into the state that a second replay starts from. `fixes` are
/// the notes of the first replay; `answers` are the settings by user and coin. Gives back how many
/// were put in.
pub fn inject_leverage(
    fixes: &Vec<(String, usize, u32)>,
    answers: &StrMap<StrMap<ApiSetting>>,
    state: &mut LiquidationState,
) -> (r: usize)
    ensures
        (final(state)@, r as int) == injected(
            old(state)@,
            answers@,
            fixes@.map_values(|f: (String, usize, u32)| (f.0@, f.1, f.2)),
            fixes@.len() as int,
        ),
{
    let ghost notes = fixes@.map_values(|f: (String, usize, u32)| (f.0@, f.1, f.2));
    let ghost start = state@;
    let mut count: usize = 0;
    let mut i: usize = 0;
    while i < fixes.len()
        invariant
            i <= fixes@.len(),
            count <= i,
            notes == fixes@.map_values(|f: (String, usize, u32)| (f.0@, f.1, f.2)),
            (state@, count as int) == injected(start, answers@, notes, i as int),
        decreases fixes@.len() - i,
    {
        let u = &fixes[i].0;
        let di: usize = fixes[i].1;
        let asset: u32 = fixes[i].2;
        assert(notes[i as int] == (u@, di, asset));
        let mut found: Option<ApiSetting> = None;
        if di < state.dex_states.len() {
            assert(state@.dexes[di as int] == state.dex_states@[di as int]@);
            if (asset as u64) < state.dex_states[di].universe.len() as u64 {
                assert(state@.dexes[di as int].universe[asset as int]
                    == state.dex_states@[di as int].universe@[asset as int]@);
                if let Some(levs) = answers.get(u.as_str()) {
                    let coin = &state.dex_states[di].universe[asset as usize].name;
                    if let Some(s) = levs.get(coin.as_str()) {
                        found = Some(*s);
                    }
                }
            }
        }
        assert(found == answered(state@, answers@, notes[i as int]));
        if let Some(s) = found {
            let l = if s.is_cross {
                Leverage::Cross(s.value)
            } else {
                Leverage::Isolated { leverage: s.value, raw_usd: 0 }
            };
            let ghost before = state@;
            state.dex_states[di].give_setting(u, asset, l);
            count = count + 1;
            proof {
                assert(state@.dexes =~= before.dexes.update(
                    di as int,
                    dex_with_setting(before.dexes[di as int], u@, asset, l),
                ));
                assert(state@ =~= (StateModel { dexes: state@.dexes, ..before }));
            }
        }
        i = i + 1;
    }
    count
}

/// Putting settings in does not touch settings that are there: nothing is overwritten.
pub proof fn law_injection_keeps_settings(
    d: DexModel,
    u: Seq<char>,
    asset: u32,
    l: Leverage,
    v: Seq<char>,
    a: u32,
)
    requires
        d.users.contains_key(v),
        d.users[v].leverage_settings.contains_key(a),
    ensures
        dex_with_setting(d, u, asset, l).users.contains_key(v),
        dex_with_setting(d, u, asset, l).users[v].leverage_settings.contains_key(a),
        dex_with_setting(d, u, asset, l).users[v].leverage_settings[a]
            == d.users[v].leverage_settings[a],
{
}

} // verus!

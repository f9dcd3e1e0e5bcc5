//! Following a user through the recorded events.
use crate::clearing_house::replay::{in_replay_range, replica_line_block};
use crate::json::{array_len_at, items_at, members_at, pretty_at, string_at, u64_at, value_at};
use crate::order::stable_order;
use crate::text::{bytes_of_char, chars_of, contains_text, push_text, str_eq, text_of, to_lowercase};
use crate::tools::replay_verify::expand_tilde_path;
use vstd::prelude::*;

verus! {

/// The path with the home directory in place of a tilde and a slash at its start. A bare tilde stays.
pub fn expand_tilde(path: &str, home: &Option<String>) -> (r: String)
    ensures
        r@ == if path@ == "~"@ {
            path@
        } else {
            crate::tools::replay_verify::expanded(path@, crate::json::text_opt(*home))
        },
{
    if str_eq(path, "~") {
        path.to_owned()
    } else {
        expand_tilde_path(path, home)
    }
}

/// Where an event was recorded.
#[derive(Debug, Clone, Copy, PartialEq, Eq, Structural)]
pub enum Source {
    Fill,
    Replica,
    Misc,
}

/// An event of a user.
pub struct TraceEvent {
    pub block: u64,
    pub source: Source,
    pub summary: String,
    pub detail: String,
}

/// What an event of a user is.
#[verifier::ext_equal]
pub struct TraceModel {
    pub block: u64,
    pub source: Source,
    pub summary: Seq<char>,
    pub detail: Seq<char>,
}

impl View for TraceEvent {
    type V = TraceModel;

    open spec fn view(&self) -> TraceModel {
        TraceModel {
            block: self.block,
            source: self.source,
            summary: self.summary@,
            detail: self.detail@,
        }
    }
}

/// What the events of a list are.
pub open spec fn trace_views(v: Seq<TraceEvent>) -> Seq<TraceModel> {
    v.map_values(|e: TraceEvent| e@)
}

impl Source {
    /// The name of the source.
    pub open spec fn named(self) -> Seq<char> {
        match self {
            Source::Fill => "fill"@,
            Source::Replica => "replica"@,
            Source::Misc => "misc"@,
        }
    }

    /// The name of the source.
    pub fn name(&self) -> (r: &'static str)
        ensures
            r@ == self.named(),
    {
        match self {
            Source::Fill => "fill",
            Source::Replica => "replica",
            Source::Misc => "misc",
        }
    }
}

fn event(block: u64, source: Source, summary: String, detail: String) -> (r: TraceEvent)
    ensures
        r@ == (TraceModel { block, source, summary: summary@, detail: detail@ }),
{
    TraceEvent { block, source, summary, detail }
}

fn push_event(v: &mut Vec<TraceEvent>, e: TraceEvent)
    ensures
        trace_views(final(v)@) == trace_views(old(v)@).push(e@),
{
    let ghost before = v@;
    v.push(e);
    assert(trace_views(v@) =~= trace_views(before).push(e@));
}

// ── Fields ───────────────────────────────────────────────────────────────

/// The string at a place of a document, or another.
pub open spec fn field_or(doc: Seq<char>, ptr: Seq<char>, other: Seq<char>) -> Seq<char> {
    match crate::json::string_found(doc, ptr) {
        Some(s) => s,
        None => other,
    }
}

/// The string at a place of a document in small letters; empty where there is none.
pub open spec fn small_field(doc: Seq<char>, ptr: Seq<char>) -> Seq<char> {
    crate::text::lowercase(field_or(doc, ptr, ""@))
}

/// The block number of a line, or zero.
pub open spec fn line_block(line: Seq<char>) -> u64 {
    match crate::json::u64_found(line, "/block_number"@) {
        Some(n) => n,
        None => 0,
    }
}

/// The indented text of the value at a place of a document; empty where there is none.
pub open spec fn pretty_or_empty(doc: Seq<char>, ptr: Seq<char>) -> Seq<char> {
    match crate::json::pretty_found(doc, ptr) {
        Some(t) => t,
        None => ""@,
    }
}

/// Whether the value at a place of a document is a list of two or more.
pub open spec fn is_pair(doc: Seq<char>, ptr: Seq<char>) -> bool {
    match crate::json::array_len_found(doc, ptr) {
        Some(n) => n >= 2,
        None => false,
    }
}

/// The items of the array at a place of a document; none where there is no array.
pub open spec fn items_or_none(doc: Seq<char>, ptr: Seq<char>) -> Seq<Seq<char>> {
    match crate::json::items_found(doc, ptr) {
        Some(v) => v,
        None => Seq::empty(),
    }
}

fn str_or(doc: &str, ptr: &str, other: &str) -> (r: String)
    ensures
        r@ == field_or(doc@, ptr@, other@),
{
    match string_at(doc, ptr) {
        Some(s) => s,
        None => other.to_owned(),
    }
}

fn small(doc: &str, ptr: &str) -> (r: String)
    ensures
        r@ == small_field(doc@, ptr@),
{
    let s = str_or(doc, ptr, "");
    to_lowercase(s.as_str())
}

fn block_of(line: &str) -> (r: u64)
    ensures
        r == line_block(line@),
{
    match u64_at(line, "/block_number") {
        Some(n) => n,
        None => 0,
    }
}

fn pretty(doc: &str, ptr: &str) -> (r: String)
    ensures
        r@ == pretty_or_empty(doc@, ptr@),
{
    match pretty_at(doc, ptr) {
        Some(t) => t,
        None => "".to_owned(),
    }
}

fn pair_at(doc: &str, ptr: &str) -> (r: bool)
    ensures
        r == is_pair(doc@, ptr@),
{
    match array_len_at(doc, ptr) {
        Some(n) => n >= 2,
        None => false,
    }
}

fn items_of(doc: &str, ptr: &str) -> (r: Vec<String>)
    ensures
        crate::json::texts(r@) == items_or_none(doc@, ptr@),
{
    match items_at(doc, ptr) {
        Some(v) => v,
        None => {
            let v: Vec<String> = Vec::new();
            assert(crate::json::texts(v@) =~= Seq::<Seq<char>>::empty());
            v
        },
    }
}

fn push_pair(s: &mut String, name: &str, value: &str)
    ensures
        final(s)@ == old(s)@ + name@ + value@,
{
    push_text(s, name);
    push_text(s, value);
}

// ── Fills ────────────────────────────────────────────────────────────────

/// The name of a side of a trade.
pub open spec fn side_named(s: Seq<char>) -> Seq<char> {
    if s == "A"@ {
        "Ask/Sell"@
    } else if s == "B"@ {
        "Bid/Buy"@
    } else {
        s
    }
}

/// The name of a side of a trade.
pub fn side_name(s: &str) -> (r: String)
    ensures
        r@ == side_named(s@),
{
    if str_eq(s, "A") {
        "Ask/Sell".to_owned()
    } else if str_eq(s, "B") {
        "Bid/Buy".to_owned()
    } else {
        s.to_owned()
    }
}

/// What is said of a fill.
pub open spec fn fill_summary(ev: Seq<char>) -> Seq<char> {
    field_or(ev, "/1/coin"@, "?"@) + " "@ + side_named(field_or(ev, "/1/side"@, "?"@)) + " "@ + field_or(
        ev,
        "/1/dir"@,
        "?"@,
    ) + " sz="@ + field_or(ev, "/1/sz"@, "?"@) + " px="@ + field_or(ev, "/1/px"@, "?"@) + " startPos="@
        + field_or(ev, "/1/startPosition"@, "?"@) + " fee="@ + field_or(ev, "/1/fee"@, "?"@) + " dir="@
        + field_or(ev, "/1/dir"@, "?"@) + " closedPnl="@ + field_or(ev, "/1/closedPnl"@, "0"@)
}

/// The fills of the user among the first `n` of a line.
pub open spec fn fills_of(evs: Seq<Seq<char>>, user: Seq<char>, block: u64, n: int) -> Seq<TraceModel>
    decreases n,
{
    if n <= 0 {
        Seq::empty()
    } else {
        let before = fills_of(evs, user, block, n - 1);
        let ev = evs[n - 1];
        if is_pair(ev, ""@) && small_field(ev, "/0"@) == user {
            before.push(
                TraceModel { block, source: Source::Fill, summary: fill_summary(ev), detail: ""@ },
            )
        } else {
            before
        }
    }
}

/// The fills of a user in a line, where its block is in the range.
pub open spec fn line_fills(line: Seq<char>, user: Seq<char>, from: u64, to: u64) -> Seq<TraceModel> {
    let block = line_block(line);
    if crate::text::occurs(line, user) && from < block <= to {
        let evs = items_or_none(line, "/events"@);
        fills_of(evs, user, block, evs.len() as int)
    } else {
        Seq::empty()
    }
}

fn summarize_fill(ev: &str) -> (r: String)
    ensures
        r@ == fill_summary(ev@),
{
    let mut r = str_or(ev, "/1/coin", "?");
    let side = str_or(ev, "/1/side", "?");
    let side = side_name(side.as_str());
    push_pair(&mut r, " ", side.as_str());
    let dir = str_or(ev, "/1/dir", "?");
    push_pair(&mut r, " ", dir.as_str());
    let sz = str_or(ev, "/1/sz", "?");
    push_pair(&mut r, " sz=", sz.as_str());
    let px = str_or(ev, "/1/px", "?");
    push_pair(&mut r, " px=", px.as_str());
    let start = str_or(ev, "/1/startPosition", "?");
    push_pair(&mut r, " startPos=", start.as_str());
    let fee = str_or(ev, "/1/fee", "?");
    push_pair(&mut r, " fee=", fee.as_str());
    push_pair(&mut r, " dir=", dir.as_str());
    let pnl = str_or(ev, "/1/closedPnl", "0");
    push_pair(&mut r, " closedPnl=", pnl.as_str());
    r
}

/// The fills of a user in a line of recorded fills.
pub fn collect_fills(line: &str, user: &str, from: u64, to: u64) -> (r: Vec<TraceEvent>)
    ensures
        trace_views(r@) == line_fills(line@, user@, from, to),
{
    let mut r: Vec<TraceEvent> = Vec::new();
    assert(trace_views(r@) =~= Seq::<TraceModel>::empty());
    if !contains_text(line, user) {
        return r;
    }
    let block: u64 = block_of(line);
    if !in_replay_range(block, from, to) {
        return r;
    }
    let evs = items_of(line, "/events");
    let ghost all = crate::json::texts(evs@);
    let mut i: usize = 0;
    while i < evs.len()
        invariant
            i <= evs@.len(),
            all == crate::json::texts(evs@),
            trace_views(r@) == fills_of(all, user@, block, i as int),
        decreases evs@.len() - i,
    {
        let ev = evs[i].as_str();
        assert(all[i as int] == ev@);
        if pair_at(ev, "") {
            let who = small(ev, "/0");
            if str_eq(who.as_str(), user) {
                push_event(
                    &mut r,
                    event(block, Source::Fill, summarize_fill(ev), "".to_owned()),
                );
            }
        }
        i = i + 1;
    }
    assert(all.len() == evs@.len());
    r
}

// ── Other events ─────────────────────────────────────────────────────────

/// What is said of a funding payment.
pub open spec fn funding_summary(d: Seq<char>) -> Seq<char> {
    "Funding coin="@ + field_or(d, "/coin"@, "?"@) + " amt="@ + field_or(d, "/funding_amount"@, "?"@)
        + " szi="@ + field_or(d, "/szi"@, "?"@) + " rate="@ + field_or(d, "/fundingRate"@, "?"@)
}

/// The funding payments of the user among the first `n`.
pub open spec fn fundings_of(ds: Seq<Seq<char>>, user: Seq<char>, block: u64, n: int) -> Seq<TraceModel>
    decreases n,
{
    if n <= 0 {
        Seq::empty()
    } else {
        let before = fundings_of(ds, user, block, n - 1);
        let d = ds[n - 1];
        if small_field(d, "/user"@) == user {
            before.push(
                TraceModel { block, source: Source::Misc, summary: funding_summary(d), detail: ""@ },
            )
        } else {
            before
        }
    }
}

/// Where the change stands in a ledger update.
pub open spec fn delta_place(payload: Seq<char>) -> Seq<char> {
    if crate::json::value_found(payload, "/delta"@) is Some {
        "/delta"@
    } else {
        ""@
    }
}

/// What an event of a kind brings the user.
pub open spec fn misc_of(kind: Seq<char>, payload: Seq<char>, user: Seq<char>, block: u64) -> Seq<
    TraceModel,
> {
    if kind == "Funding"@ {
        let ds = items_or_none(payload, "/deltas"@);
        fundings_of(ds, user, block, ds.len() as int)
    } else if kind == "LedgerUpdate"@ {
        let place = delta_place(payload);
        seq![
            TraceModel {
                block,
                source: Source::Misc,
                summary: "LedgerUpdate type="@ + field_or(payload, place + "/type"@, "?"@),
                detail: pretty_or_empty(payload, place),
            },
        ]
    } else {
        seq![
            TraceModel {
                block,
                source: Source::Misc,
                summary: kind,
                detail: pretty_or_empty(payload, ""@),
            },
        ]
    }
}

/// What an event brings the user: nothing where it does not name the user.
pub open spec fn event_misc(ev: Seq<char>, user: Seq<char>, block: u64) -> Seq<TraceModel> {
    if crate::text::occurs(crate::text::lowercase(ev), user) {
        match crate::json::members_found(ev, "/inner"@) {
            Some(ms) => if ms.len() > 0 {
                misc_of(ms[0].0, ms[0].1, user, block)
            } else {
                Seq::empty()
            },
            None => Seq::empty(),
        }
    } else {
        Seq::empty()
    }
}

/// What the first `n` events of a line bring the user.
pub open spec fn miscs_of(evs: Seq<Seq<char>>, user: Seq<char>, block: u64, n: int) -> Seq<TraceModel>
    decreases n,
{
    if n <= 0 {
        Seq::empty()
    } else {
        miscs_of(evs, user, block, n - 1) + event_misc(evs[n - 1], user, block)
    }
}

/// What a line of events brings the user, where its block is in the range.
pub open spec fn line_miscs(line: Seq<char>, user: Seq<char>, from: u64, to: u64) -> Seq<TraceModel> {
    let block = line_block(line);
    if crate::text::occurs(crate::text::lowercase(line), user) && from < block <= to {
        let evs = items_or_none(line, "/events"@);
        miscs_of(evs, user, block, evs.len() as int)
    } else {
        Seq::empty()
    }
}

fn push_fundings(r: &mut Vec<TraceEvent>, payload: &str, user: &str, block: u64)
    ensures
        ({
            let ds = items_or_none(payload@, "/deltas"@);
            trace_views(final(r)@) == trace_views(old(r)@) + fundings_of(
                ds,
                user@,
                block,
                ds.len() as int,
            )
        }),
{
    let ghost start = trace_views(r@);
    let ds = items_of(payload, "/deltas");
    let ghost all = crate::json::texts(ds@);
    let mut i: usize = 0;
    assert(start + Seq::<TraceModel>::empty() =~= start);
    while i < ds.len()
        invariant
            i <= ds@.len(),
            all == crate::json::texts(ds@),
            trace_views(r@) == start + fundings_of(all, user@, block, i as int),
        decreases ds@.len() - i,
    {
        let d = ds[i].as_str();
        assert(all[i as int] == d@);
        let who = small(d, "/user");
        if str_eq(who.as_str(), user) {
            let mut s = "Funding coin=".to_owned();
            let coin = str_or(d, "/coin", "?");
            push_text(&mut s, coin.as_str());
            let amt = str_or(d, "/funding_amount", "?");
            push_pair(&mut s, " amt=", amt.as_str());
            let szi = str_or(d, "/szi", "?");
            push_pair(&mut s, " szi=", szi.as_str());
            let rate = str_or(d, "/fundingRate", "?");
            push_pair(&mut s, " rate=", rate.as_str());
            assert(s@ =~= funding_summary(d@));
            push_event(r, event(block, Source::Misc, s, "".to_owned()));
            proof {
                let one = TraceModel {
                    block,
                    source: Source::Misc,
                    summary: funding_summary(d@),
                    detail: ""@,
                };
                assert((start + fundings_of(all, user@, block, i as int)).push(one) =~= start
                    + fundings_of(all, user@, block, i as int).push(one));
            }
        }
        i = i + 1;
    }
    assert(all.len() == ds@.len());
}

fn push_misc(r: &mut Vec<TraceEvent>, kind: &str, payload: &str, user: &str, block: u64)
    ensures
        trace_views(final(r)@) == trace_views(old(r)@) + misc_of(kind@, payload@, user@, block),
{
    let ghost start = trace_views(r@);
    if str_eq(kind, "Funding") {
        push_fundings(r, payload, user, block);
    } else if str_eq(kind, "LedgerUpdate") {
        let place = if value_at(payload, "/delta").is_some() {
            "/delta"
        } else {
            ""
        };
        let mut at = place.to_owned();
        push_text(&mut at, "/type");
        let mut s = "LedgerUpdate type=".to_owned();
        let t = str_or(payload, at.as_str(), "?");
        push_text(&mut s, t.as_str());
        push_event(r, event(block, Source::Misc, s, pretty(payload, place)));
        assert(trace_views(r@) =~= start + misc_of(kind@, payload@, user@, block));
    } else {
        push_event(r, event(block, Source::Misc, kind.to_owned(), pretty(payload, "")));
        assert(trace_views(r@) =~= start + misc_of(kind@, payload@, user@, block));
    }
}

/// The events of a user in a line of recorded events.
pub fn collect_misc_events(line: &str, user: &str, from: u64, to: u64) -> (r: Vec<TraceEvent>)
    ensures
        trace_views(r@) == line_miscs(line@, user@, from, to),
{
    let mut r: Vec<TraceEvent> = Vec::new();
    assert(trace_views(r@) =~= Seq::<TraceModel>::empty());
    let low = to_lowercase(line);
    if !contains_text(low.as_str(), user) {
        return r;
    }
    let block: u64 = block_of(line);
    if !in_replay_range(block, from, to) {
        return r;
    }
    let evs = items_of(line, "/events");
    let ghost all = crate::json::texts(evs@);
    let mut i: usize = 0;
    while i < evs.len()
        invariant
            i <= evs@.len(),
            all == crate::json::texts(evs@),
            trace_views(r@) == miscs_of(all, user@, block, i as int),
        decreases evs@.len() - i,
    {
        let ev = evs[i].as_str();
        assert(all[i as int] == ev@);
        let ghost before = trace_views(r@);
        assert(before + Seq::<TraceModel>::empty() =~= before);
        let text = to_lowercase(ev);
        if contains_text(text.as_str(), user) {
            if let Some(ms) = members_at(ev, "/inner") {
                if ms.len() > 0 {
                    assert(crate::json::pair_texts(ms@)[0] == (ms@[0].0@, ms@[0].1@));
                    push_misc(&mut r, ms[0].0.as_str(), ms[0].1.as_str(), user, block);
                }
            }
        }
        i = i + 1;
    }
    assert(all.len() == evs@.len());
    r
}

// ── Commands ─────────────────────────────────────────────────────────────

/// What a command has to do with the user.
#[derive(Debug, Clone, Copy, PartialEq, Eq, Structural)]
pub struct Ties {
    pub is_signer: bool,
    pub is_vault: bool,
    pub is_in_action: bool,
    pub is_in_resp: bool,
}

/// Whether a command is about orders only.
pub open spec fn is_order_action(t: Seq<char>) -> bool {
    t == "order"@ || t == "cancel"@ || t == "cancelByCloid"@ || t == "batchModify"@
}

/// Whether a command is shown: it has to do with the user, and orders are shown to their signer only.
pub open spec fn is_shown(t: Ties, action_type: Seq<char>) -> bool {
    (t.is_signer || t.is_vault || t.is_in_action || t.is_in_resp) && (t.is_signer || !is_order_action(
        action_type,
    ))
}

/// The part of the user in a command.
pub open spec fn role_of(t: Ties) -> Seq<char> {
    if t.is_signer {
        "signer"@
    } else if t.is_vault {
        "vaultAddr"@
    } else if t.is_in_resp {
        "resp_user"@
    } else {
        "referenced"@
    }
}

/// Where the action stands in a signed action.
pub open spec fn action_place(sa: Seq<char>) -> Seq<char> {
    if crate::json::value_found(sa, "/action"@) is Some {
        "/action"@
    } else {
        ""@
    }
}

/// The text of an action in small letters.
pub open spec fn action_text(sa: Seq<char>) -> Seq<char> {
    crate::text::lowercase(
        match crate::json::value_found(sa, action_place(sa)) {
            Some(v) => v,
            None => ""@,
        },
    )
}

/// What a command has to do with the user; `resp` is the answer to it, where there is one.
pub open spec fn ties_of(sa: Seq<char>, signer: Seq<char>, resp: Option<Seq<char>>, user: Seq<char>) -> Ties {
    Ties {
        is_signer: signer == user,
        is_vault: small_field(sa, "/vaultAddress"@) == user,
        is_in_action: crate::text::occurs(action_text(sa), user),
        is_in_resp: match resp {
            Some(r) => match crate::json::string_found(r, "/user"@) {
                Some(u) => crate::text::lowercase(u) == user,
                None => false,
            },
            None => false,
        },
    }
}

/// How many of the characters from the `i`-th on fit into so many bytes of UTF-8.
pub open spec fn fitting(s: Seq<char>, i: int, room: int) -> nat
    decreases s.len() - i,
{
    if i >= s.len() || crate::text::char_bytes(s[i]) > room {
        0
    } else {
        1 + fitting(s, i + 1, room - crate::text::char_bytes(s[i]))
    }
}

/// The start of a signer's address: the characters in its first 14 bytes. A character that reaches
/// beyond them is left out.
pub open spec fn signer_start(s: Seq<char>) -> Seq<char> {
    s.take(fitting(s, 0, 14) as int)
}

/// The command as an event of the user, where it is shown.
pub open spec fn command_event(
    sa: Seq<char>,
    signer: Seq<char>,
    resp: Option<Seq<char>>,
    user: Seq<char>,
    block: u64,
) -> Option<TraceModel> {
    let t = ties_of(sa, signer, resp, user);
    let action_type = field_or(sa, action_place(sa) + "/type"@, "?"@);
    if is_shown(t, action_type) {
        Some(
            TraceModel {
                block,
                source: Source::Replica,
                summary: "type="@ + action_type + " role="@ + role_of(t) + " signer="@ + signer_start(
                    signer,
                ) + ".. status="@ + (match resp {
                    Some(r) => field_or(r, "/res/status"@, "ok"@),
                    None => "ok"@,
                }),
                detail: pretty_or_empty(sa, action_place(sa)),
            },
        )
    } else {
        None
    }
}

/// The commands of the user among the first `n` of a bundle.
pub open spec fn commands_of(
    sas: Seq<Seq<char>>,
    signer: Seq<char>,
    resps: Seq<Seq<char>>,
    user: Seq<char>,
    block: u64,
    n: int,
) -> Seq<TraceModel>
    decreases n,
{
    if n <= 0 {
        Seq::empty()
    } else {
        let before = commands_of(sas, signer, resps, user, block, n - 1);
        let resp = if n - 1 < resps.len() {
            Some(resps[n - 1])
        } else {
            None
        };
        match command_event(sas[n - 1], signer, resp, user, block) {
            Some(e) => before.push(e),
            None => before,
        }
    }
}

/// The answers to the commands of a bundle; `entry` is what the block says of the bundle.
pub open spec fn answers_in(entries: Seq<Seq<char>>, i: int) -> Seq<Seq<char>> {
    if i < entries.len() && is_pair(entries[i], ""@) {
        items_or_none(entries[i], "/1"@)
    } else {
        Seq::empty()
    }
}

/// The commands of the user in a bundle.
pub open spec fn bundle_commands(
    bundle: Seq<char>,
    resps: Seq<Seq<char>>,
    user: Seq<char>,
    block: u64,
) -> Seq<TraceModel> {
    if is_pair(bundle, ""@) && crate::json::members_found(bundle, "/1"@) is Some {
        let sas = items_or_none(bundle, "/1/signed_actions"@);
        commands_of(sas, small_field(bundle, "/0"@), resps, user, block, sas.len() as int)
    } else {
        Seq::empty()
    }
}

/// The commands of the user in the first `n` bundles of a block.
pub open spec fn block_commands(
    bundles: Seq<Seq<char>>,
    entries: Seq<Seq<char>>,
    user: Seq<char>,
    block: u64,
    n: int,
) -> Seq<TraceModel>
    decreases n,
{
    if n <= 0 {
        Seq::empty()
    } else {
        block_commands(bundles, entries, user, block, n - 1) + bundle_commands(
            bundles[n - 1],
            answers_in(entries, n - 1),
            user,
            block,
        )
    }
}

/// The commands of the user in a line, where its block is in the range.
pub open spec fn line_commands(line: Seq<char>, block: u64, user: Seq<char>, from: u64, to: u64) -> Seq<
    TraceModel,
> {
    if crate::text::occurs(crate::text::lowercase(line), user) && from < block <= to {
        let bundles = items_or_none(line, "/abci_block/signed_action_bundles"@);
        block_commands(
            bundles,
            items_or_none(line, "/resps/Full"@),
            user,
            block,
            bundles.len() as int,
        )
    } else {
        Seq::empty()
    }
}

fn is_order(t: &str) -> (r: bool)
    ensures
        r == is_order_action(t@),
{
    str_eq(t, "order") || str_eq(t, "cancel") || str_eq(t, "cancelByCloid") || str_eq(
        t,
        "batchModify",
    )
}

fn start_of(signer: &str) -> (r: String)
    ensures
        r@ == signer_start(signer@),
{
    let cs = chars_of(signer);
    let n: usize = cs.len();
    let mut i: usize = 0;
    let mut room: usize = 14;
    assert(cs@ == signer@);
    while i < n && bytes_of_char(cs[i]) <= room
        invariant
            i <= n,
            n == cs@.len(),
            i + fitting(cs@, i as int, room as int) == fitting(cs@, 0, 14),
        decreases n - i,
    {
        room = room - bytes_of_char(cs[i]);
        i = i + 1;
    }
    let r = text_of(&cs, 0, i);
    assert(r@ =~= signer@.take(i as int));
    r
}

fn find_ties(sa: &str, place: &str, signer: &str, resp: Option<&str>, user: &str) -> (r: Ties)
    requires
        place@ == action_place(sa@),
    ensures
        r == ties_of(
            sa@,
            signer@,
            match resp {
                Some(x) => Some(x@),
                None => None,
            },
            user@,
        ),
{
    let vault = small(sa, "/vaultAddress");
    let text = match value_at(sa, place) {
        Some(v) => to_lowercase(v.as_str()),
        None => to_lowercase(""),
    };
    let is_in_resp = match resp {
        Some(x) => match string_at(x, "/user") {
            Some(u) => {
                let low = to_lowercase(u.as_str());
                str_eq(low.as_str(), user)
            },
            None => false,
        },
        None => false,
    };
    Ties {
        is_signer: str_eq(signer, user),
        is_vault: str_eq(vault.as_str(), user),
        is_in_action: contains_text(text.as_str(), user),
        is_in_resp,
    }
}

/// The command as an event of the user, where it is shown; `resp` is the answer to it.
pub fn trace_command(sa: &str, signer: &str, resp: Option<&str>, user: &str, block: u64) -> (r: Option<
    TraceEvent,
>)
    ensures
        (match r {
            Some(e) => Some(e@),
            None => None,
        }) == command_event(
            sa@,
            signer@,
            match resp {
                Some(x) => Some(x@),
                None => None,
            },
            user@,
            block,
        ),
{
    let place = if value_at(sa, "/action").is_some() {
        "/action"
    } else {
        ""
    };
    let mut at = place.to_owned();
    push_text(&mut at, "/type");
    let action_type = str_or(sa, at.as_str(), "?");
    let t = find_ties(sa, place, signer, resp, user);
    if !t.is_signer && !t.is_vault && !t.is_in_action && !t.is_in_resp {
        return None;
    }
    if !t.is_signer && is_order(action_type.as_str()) {
        return None;
    }
    let role = if t.is_signer {
        "signer"
    } else if t.is_vault {
        "vaultAddr"
    } else if t.is_in_resp {
        "resp_user"
    } else {
        "referenced"
    };
    let status = match resp {
        Some(x) => str_or(x, "/res/status", "ok"),
        None => "ok".to_owned(),
    };
    let mut s = "type=".to_owned();
    push_text(&mut s, action_type.as_str());
    push_pair(&mut s, " role=", role);
    let start = start_of(signer);
    push_pair(&mut s, " signer=", start.as_str());
    push_pair(&mut s, ".. status=", status.as_str());
    Some(event(block, Source::Replica, s, pretty(sa, place)))
}

fn push_bundle(r: &mut Vec<TraceEvent>, bundle: &str, resps: &Vec<String>, user: &str, block: u64)
    ensures
        trace_views(final(r)@) == trace_views(old(r)@) + bundle_commands(
            bundle@,
            crate::json::texts(resps@),
            user@,
            block,
        ),
{
    let ghost start = trace_views(r@);
    assert(start + Seq::<TraceModel>::empty() =~= start);
    if !pair_at(bundle, "") || members_at(bundle, "/1").is_none() {
        return;
    }
    let signer = small(bundle, "/0");
    let sas = items_of(bundle, "/1/signed_actions");
    let ghost all = crate::json::texts(sas@);
    let ghost rs = crate::json::texts(resps@);
    let mut i: usize = 0;
    while i < sas.len()
        invariant
            i <= sas@.len(),
            all == crate::json::texts(sas@),
            rs == crate::json::texts(resps@),
            trace_views(r@) == start + commands_of(all, signer@, rs, user@, block, i as int),
        decreases sas@.len() - i,
    {
        let sa = sas[i].as_str();
        assert(all[i as int] == sa@);
        let resp: Option<&str> = if i < resps.len() {
            assert(rs[i as int] == resps@[i as int]@);
            Some(resps[i].as_str())
        } else {
            None
        };
        let ghost before = commands_of(all, signer@, rs, user@, block, i as int);
        if let Some(e) = trace_command(sa, signer.as_str(), resp, user, block) {
            push_event(r, e);
            assert((start + before).push(e@) =~= start + before.push(e@));
        }
        i = i + 1;
    }
    assert(all.len() == sas@.len());
}

/// The commands of a user in a line of recorded blocks; the block is given by the name of the file and
/// the place of the line in it.
pub fn collect_replica(
    line: &str,
    file_block: Option<u64>,
    line_idx: u64,
    user: &str,
    from: u64,
    to: u64,
) -> (r: Vec<TraceEvent>)
    ensures
        trace_views(r@) == line_commands(
            line@,
            (match file_block {
                Some(b) => b,
                None => 0,
            }).wrapping_add(line_idx),
            user@,
            from,
            to,
        ),
{
    let mut r: Vec<TraceEvent> = Vec::new();
    assert(trace_views(r@) =~= Seq::<TraceModel>::empty());
    let low = to_lowercase(line);
    if !contains_text(low.as_str(), user) {
        return r;
    }
    let block: u64 = replica_line_block(file_block, line_idx);
    if !in_replay_range(block, from, to) {
        return r;
    }
    let bundles = items_of(line, "/abci_block/signed_action_bundles");
    let entries = items_of(line, "/resps/Full");
    let ghost bs = crate::json::texts(bundles@);
    let ghost es = crate::json::texts(entries@);
    let mut i: usize = 0;
    while i < bundles.len()
        invariant
            i <= bundles@.len(),
            bs == crate::json::texts(bundles@),
            es == crate::json::texts(entries@),
            trace_views(r@) == block_commands(bs, es, user@, block, i as int),
        decreases bundles@.len() - i,
    {
        assert(bs[i as int] == bundles@[i as int]@);
        let none: Vec<String> = Vec::new();
        assert(crate::json::texts(none@) =~= Seq::<Seq<char>>::empty());
        let resps = if i < entries.len() {
            assert(es[i as int] == entries@[i as int]@);
            if pair_at(entries[i].as_str(), "") {
                items_of(entries[i].as_str(), "/1")
            } else {
                none
            }
        } else {
            none
        };
        assert(crate::json::texts(resps@) == answers_in(es, i as int));
        push_bundle(&mut r, bundles[i].as_str(), &resps, user, block);
        i = i + 1;
    }
    assert(bs.len() == bundles@.len());
    r
}

// ── In which order they are shown ────────────────────────────────────────

/// The blocks of the events.
pub open spec fn trace_blocks(v: Seq<TraceEvent>) -> Seq<u128> {
    v.map_values(|e: TraceEvent| e.block as u128)
}

/// The events by block; those of one block stay in the order in which they were collected.
pub fn trace_order(events: &Vec<TraceEvent>) -> (r: Vec<usize>)
    ensures
        r@.len() == events@.len(),
        forall|x: usize| r@.contains(x) <==> x < events@.len(),
        crate::order::in_rank_order(trace_blocks(events@), r@),
{
    let mut blocks: Vec<u128> = Vec::new();
    let mut i: usize = 0;
    while i < events.len()
        invariant
            i <= events@.len(),
            blocks@ == trace_blocks(events@).take(i as int),
        decreases events@.len() - i,
    {
        blocks.push(events[i].block as u128);
        assert(blocks@ =~= trace_blocks(events@).take(i + 1));
        i = i + 1;
    }
    assert(blocks@ =~= trace_blocks(events@));
    stable_order(&blocks)
}

// ── Laws ─────────────────────────────────────────────────────────────────

/// Nothing is shown from outside the range of blocks.
pub proof fn law_traces_stay_in_range(line: Seq<char>, block: u64, user: Seq<char>, from: u64, to: u64)
    ensures
        !(from < line_block(line) <= to) ==> line_fills(line, user, from, to) == Seq::<
            TraceModel,
        >::empty() && line_miscs(line, user, from, to) == Seq::<TraceModel>::empty(),
        !(from < block <= to) ==> line_commands(line, block, user, from, to) == Seq::<
            TraceModel,
        >::empty(),
{
}

/// A command that the user signed is always shown.
pub proof fn law_own_commands_are_shown(
    sa: Seq<char>,
    signer: Seq<char>,
    resp: Option<Seq<char>>,
    block: u64,
)
    ensures
        command_event(sa, signer, resp, signer, block) is Some,
{
}

} // verus!

//! A report on the misc events that concern chosen users and that a replay does not apply.
use crate::clearing_house::notes::{blank, Notes};
use crate::json::{array_len_at, first_key_at, pretty_at, string_at, u64_at, value_at};
use crate::strmap::StrMap;
use crate::text::{
    contains_text, decimal_string, ends_with_char, lines_of, push_char, push_decimal, push_text,
    str_eq, to_lowercase,
};
use vstd::prelude::*;

verus! {

// ── What becomes of an event ─────────────────────────────────────────────

/// Whether a replay applies ledger updates of this type.
pub open spec fn processed_delta(t: Seq<char>) -> bool {
    t == "liquidation"@ || t == "vaultDistribution"@ || t == "vaultLeaderCommission"@ || t
        == "rewardsClaim"@ || t == "deployGasAuction"@ || t == "accountActivationGas"@
}

/// Whether a replay leaves ledger updates of this type to the replica blocks.
pub open spec fn skipped_delta(t: Seq<char>) -> bool {
    t == "deposit"@ || t == "withdraw"@ || t == "internalTransfer"@ || t == "subAccountTransfer"@
        || t == "spotTransfer"@ || t == "send"@ || t == "accountClassTransfer"@ || t
        == "vaultCreate"@ || t == "vaultDeposit"@ || t == "vaultWithdraw"@ || t == "borrowLend"@
        || t == "spotGenesis"@ || t == "cStakingTransfer"@ || t == "perpDexClassTransfer"@
}

/// What a replay does with ledger updates of this type.
pub open spec fn delta_status(t: Seq<char>) -> Seq<char> {
    if processed_delta(t) {
        "applied"@
    } else if skipped_delta(t) {
        "skipped"@
    } else {
        "unknown"@
    }
}

/// The kind of an event, and what a replay does with it, by the name of its variant and the type of
/// its ledger update.
pub open spec fn classification(kind: Option<Seq<char>>, delta: Option<Seq<char>>) -> (
    Seq<char>,
    Seq<char>,
) {
    match kind {
        None => ("unknown"@, "unknown"@),
        Some(k) => if k == "Funding"@ {
            (k, "applied"@)
        } else if k == "LedgerUpdate"@ {
            let t = match delta {
                Some(d) => d,
                None => "unknown"@,
            };
            ("LedgerUpdate/"@ + t, delta_status(t))
        } else if k == "CDeposit"@ || k == "CWithdrawal"@ || k == "Delegation"@ || k
            == "ValidatorRewards"@ {
            (k, "skipped"@)
        } else {
            (k, "unknown"@)
        },
    }
}

/// Whether a replay applies ledger updates of this type.
pub fn is_processed_ledger_delta(delta_type: &str) -> (r: bool)
    ensures
        r == processed_delta(delta_type@),
{
    str_eq(delta_type, "liquidation") || str_eq(delta_type, "vaultDistribution") || str_eq(
        delta_type,
        "vaultLeaderCommission",
    ) || str_eq(delta_type, "rewardsClaim") || str_eq(delta_type, "deployGasAuction") || str_eq(
        delta_type,
        "accountActivationGas",
    )
}

/// Whether a replay leaves ledger updates of this type to the replica blocks.
pub fn is_skipped_ledger_delta(delta_type: &str) -> (r: bool)
    ensures
        r == skipped_delta(delta_type@),
{
    str_eq(delta_type, "deposit") || str_eq(delta_type, "withdraw") || str_eq(
        delta_type,
        "internalTransfer",
    ) || str_eq(delta_type, "subAccountTransfer") || str_eq(delta_type, "spotTransfer") || str_eq(
        delta_type,
        "send",
    ) || str_eq(delta_type, "accountClassTransfer") || str_eq(delta_type, "vaultCreate") || str_eq(
        delta_type,
        "vaultDeposit",
    ) || str_eq(delta_type, "vaultWithdraw") || str_eq(delta_type, "borrowLend") || str_eq(
        delta_type,
        "spotGenesis",
    ) || str_eq(delta_type, "cStakingTransfer") || str_eq(delta_type, "perpDexClassTransfer")
}

/// The kind of an event, and what a replay does with it.
pub fn classify_kind(kind: Option<String>, delta_type: Option<String>) -> (r: (
    String,
    &'static str,
))
    ensures
        (r.0@, r.1@) == classification(
            crate::json::text_opt(kind),
            crate::json::text_opt(delta_type),
        ),
{
    let k = match kind {
        Some(k) => k,
        None => {
            return ("unknown".to_owned(), "unknown");
        },
    };
    if str_eq(k.as_str(), "Funding") {
        (k, "applied")
    } else if str_eq(k.as_str(), "LedgerUpdate") {
        let t = match delta_type {
            Some(d) => d,
            None => "unknown".to_owned(),
        };
        let mut name = "LedgerUpdate/".to_owned();
        push_text(&mut name, t.as_str());
        if is_processed_ledger_delta(t.as_str()) {
            (name, "applied")
        } else if is_skipped_ledger_delta(t.as_str()) {
            (name, "skipped")
        } else {
            (name, "unknown")
        }
    } else if str_eq(k.as_str(), "CDeposit") || str_eq(k.as_str(), "CWithdrawal") || str_eq(
        k.as_str(),
        "Delegation",
    ) || str_eq(k.as_str(), "ValidatorRewards") {
        (k, "skipped")
    } else {
        (k, "unknown")
    }
}

/// The kind of the event at a place of a document, and what a replay does with it.
pub open spec fn classified(doc: Seq<char>, ptr: Seq<char>) -> (Seq<char>, Seq<char>) {
    classification(
        crate::json::first_key_found(doc, ptr + "/inner"@),
        crate::json::string_found(doc, ptr + "/inner/LedgerUpdate/delta/type"@),
    )
}

fn place(ptr: &str, more: &str) -> (r: String)
    ensures
        r@ == ptr@ + more@,
{
    let mut r = ptr.to_owned();
    push_text(&mut r, more);
    r
}

/// The kind of the event at a place of a document, and what a replay does with it.
pub fn classify_misc_event(doc: &str, ptr: &str) -> (r: (String, &'static str))
    ensures
        (r.0@, r.1@) == classified(doc@, ptr@),
{
    let inner = place(ptr, "/inner");
    let delta = place(ptr, "/inner/LedgerUpdate/delta/type");
    classify_kind(first_key_at(doc, inner.as_str()), string_at(doc, delta.as_str()))
}

// ── Whom an event concerns ───────────────────────────────────────────────

/// The users whose addresses stand in a text.
pub open spec fn users_in(text: Seq<char>, users: Map<Seq<char>, ()>) -> Set<Seq<char>> {
    users.dom().filter(|u: Seq<char>| crate::text::occurs(text, u))
}

/// Those users whose addresses stand in a text, in dictionary order.
pub fn users_mentioned(text: &str, users: &StrMap<()>) -> (r: Vec<String>)
    ensures
        crate::strmap::listing(crate::json::texts(r@), users_in(text@, users@)),
{
    let mut found: StrMap<()> = StrMap::new();
    let n: usize = users.len();
    let ghost ks = users.keys();
    let mut i: usize = 0;
    proof {
        crate::strmap::lemma_take_all(ks);
    }
    while i < n
        invariant
            i <= n == ks.len(),
            ks == users.keys(),
            forall|u: Seq<char>| #[trigger]
                found@.contains_key(u) <==> ks.take(i as int).contains(u) && crate::text::occurs(
                    text@,
                    u,
                ),
        decreases n - i,
    {
        proof {
            crate::strmap::lemma_take_one(ks, i as int);
        }
        let u = users.key_at(i);
        if contains_text(text, u.as_str()) {
            found.insert(u.clone(), ());
        }
        i = i + 1;
    }
    proof {
        crate::strmap::lemma_take_all(ks);
        assert forall|u: Seq<char>| users@.contains_key(u) <==> #[trigger] ks.contains(u) by {
            assert(ks.to_set().contains(u) <==> ks.contains(u));
        }
        assert(found@.dom() =~= users_in(text@, users@));
    }
    found.sorted_keys()
}

/// The text in which users are looked for: what stands at a place of a document, in lower case.
pub open spec fn searched(doc: Seq<char>, ptr: Seq<char>) -> Seq<char> {
    match crate::json::value_found(doc, ptr) {
        Some(v) => crate::text::lowercase(v),
        None => Seq::empty(),
    }
}

/// Those users whose addresses stand in the value at a place of a document, in dictionary order.
pub fn related_debug_users_in_value(doc: &str, ptr: &str, debug_users: &StrMap<()>) -> (r: Vec<
    String,
>)
    ensures
        crate::strmap::listing(
            crate::json::texts(r@),
            users_in(searched(doc@, ptr@), debug_users@),
        ),
{
    let text = match value_at(doc, ptr) {
        Some(v) => to_lowercase(v.as_str()),
        None => {
            let empty = String::new();
            assert(empty@ =~= Seq::<char>::empty());
            empty
        },
    };
    users_mentioned(text.as_str(), debug_users)
}

// ── What is noted of an event ────────────────────────────────────────────

/// The first `n` lines, each indented by four spaces and ended by a newline.
pub open spec fn indented(ls: Seq<Seq<char>>, n: int) -> Seq<char>
    decreases n,
{
    if n <= 0 {
        Seq::empty()
    } else {
        (indented(ls, n - 1) + "    "@ + ls[n - 1]).push('\n')
    }
}

/// The text of the value at a place of a document, on several lines where it can be written so.
pub open spec fn written(doc: Seq<char>, ptr: Seq<char>) -> Seq<char> {
    match crate::json::pretty_found(doc, ptr) {
        Some(p) => p,
        None => match crate::json::value_found(doc, ptr) {
            Some(v) => v,
            None => Seq::empty(),
        },
    }
}

/// The place of an event in the document of its block.
pub open spec fn event_place(i: nat) -> Seq<char> {
    "/events/"@ + crate::text::decimal_text(i)
}

/// What is noted of an event.
pub open spec fn section(path: Seq<char>, line_no: nat, block: u64, doc: Seq<char>, i: nat) -> Seq<
    char,
> {
    let ptr = event_place(i);
    let ls = crate::text::lines(written(doc, ptr));
    "  block="@ + crate::text::decimal_text(block as nat) + " file="@ + path + " line="@
        + crate::text::decimal_text(line_no) + " event_idx="@ + crate::text::decimal_text(i)
        + " kind="@ + classified(doc, ptr).0 + " replay_status="@ + classified(doc, ptr).1 + "\n"@
        + indented(ls, ls.len() as int)
}

/// The notes with one more line for each of some users.
pub open spec fn noted_for(
    a: Map<Seq<char>, Seq<Seq<char>>>,
    us: Set<Seq<char>>,
    line: Seq<char>,
) -> Map<Seq<char>, Seq<Seq<char>>> {
    Map::new(
        |u: Seq<char>| a.contains_key(u),
        |u: Seq<char>|
            if us.contains(u) {
                a[u].push(line)
            } else {
                a[u]
            },
    )
}

/// The notes after the first `n` events of a block: those that a replay does not apply are noted of
/// each user they mention.
pub open spec fn events_noted(
    a: Map<Seq<char>, Seq<Seq<char>>>,
    users: Map<Seq<char>, ()>,
    path: Seq<char>,
    line_no: nat,
    block: u64,
    doc: Seq<char>,
    n: nat,
) -> Map<Seq<char>, Seq<Seq<char>>>
    decreases n,
{
    if n == 0 {
        a
    } else {
        let i = (n - 1) as nat;
        let before = events_noted(a, users, path, line_no, block, doc, i);
        if classified(doc, event_place(i)).1 == "applied"@ {
            before
        } else {
            noted_for(
                before,
                users_in(searched(doc, event_place(i)), users),
                section(path, line_no, block, doc, i),
            )
        }
    }
}

/// The notes after one line of a file. Blocks up to `from`, and those above `to`, are passed over.
pub open spec fn line_noted(
    a: Map<Seq<char>, Seq<Seq<char>>>,
    users: Map<Seq<char>, ()>,
    path: Seq<char>,
    line_no: nat,
    line: Seq<char>,
    from: u64,
    to: u64,
) -> Map<Seq<char>, Seq<Seq<char>>> {
    match (
        crate::json::u64_found(line, "/block_number"@),
        crate::json::array_len_found(line, "/events"@),
    ) {
        (Some(block), Some(n)) => if from < block <= to {
            events_noted(a, users, path, line_no, block, line, n as nat)
        } else {
            a
        },
        _ => a,
    }
}

/// The notes after the first `n` lines of a file.
pub open spec fn file_noted(
    a: Map<Seq<char>, Seq<Seq<char>>>,
    users: Map<Seq<char>, ()>,
    path: Seq<char>,
    ls: Seq<Seq<char>>,
    from: u64,
    to: u64,
    n: nat,
) -> Map<Seq<char>, Seq<Seq<char>>>
    decreases n,
{
    if n == 0 {
        a
    } else {
        line_noted(
            file_noted(a, users, path, ls, from, to, (n - 1) as nat),
            users,
            path,
            n,
            ls[n - 1],
            from,
            to,
        )
    }
}

/// A file of misc events: its path below the data directory, and its lines without the white space
/// around them.
pub struct EventFile {
    pub path: String,
    pub lines: Vec<String>,
}

/// The notes after the first `n` files.
pub open spec fn files_noted(
    users: Map<Seq<char>, ()>,
    files: Seq<EventFile>,
    from: u64,
    to: u64,
    n: nat,
) -> Map<Seq<char>, Seq<Seq<char>>>
    decreases n,
{
    if n == 0 {
        crate::clearing_house::notes::blank_notes(users)
    } else {
        let f = files[n - 1];
        file_noted(
            files_noted(users, files, from, to, (n - 1) as nat),
            users,
            f.path@,
            crate::json::texts(f.lines@),
            from,
            to,
            f.lines@.len(),
        )
    }
}

/// The text so far, with the first `n` notes behind it, each followed by an empty line.
pub open spec fn lines_written(acc: Seq<char>, notes: Seq<Seq<char>>, n: int) -> Seq<char>
    decreases n,
{
    if n <= 0 {
        acc
    } else {
        let line = lines_written(acc, notes, n - 1) + notes[n - 1];
        (if notes[n - 1].len() > 0 && notes[n - 1].last() == '\n' {
            line
        } else {
            line.push('\n')
        }).push('\n')
    }
}

/// The text so far, with the notes on a user behind it.
pub open spec fn user_written(acc: Seq<char>, u: Seq<char>, notes: Seq<Seq<char>>) -> Seq<char> {
    let head = acc + "=== USER "@ + u + " ===\n"@;
    if notes.len() == 0 {
        head + "  (no related unprocessed misc events found in replay range)\n"@
    } else {
        lines_written(head, notes, notes.len() as int)
    }
}

/// The report on the first `n` of the users.
pub open spec fn report_on(
    us: Seq<Seq<char>>,
    notes: Map<Seq<char>, Seq<Seq<char>>>,
    n: int,
) -> Seq<char>
    decreases n,
{
    if n <= 0 {
        "=== RAW RELATED UNPROCESSED MISC EVENTS ===\n"@
    } else {
        user_written(report_on(us, notes, n - 1), us[n - 1], notes[us[n - 1]])
    }
}

// ── Taking the notes ─────────────────────────────────────────────────────

/// Appends the lines of a text, each indented by four spaces.
fn indent_json(out: &mut String, pretty: &str)
    ensures
        ({
            let ls = crate::text::lines(pretty@);
            final(out)@ == old(out)@ + indented(ls, ls.len() as int)
        }),
{
    let ghost before = out@;
    let ls = lines_of(pretty);
    let ghost v = crate::json::texts(ls@);
    let mut i: usize = 0;
    assert(out@ =~= before + indented(v, 0));
    while i < ls.len()
        invariant
            i <= ls@.len(),
            v == crate::json::texts(ls@),
            out@ == before + indented(v, i as int),
        decreases ls@.len() - i,
    {
        assert(v[i as int] == ls@[i as int]@);
        push_text(out, "    ");
        push_text(out, ls[i].as_str());
        push_char(out, '\n');
        assert(out@ =~= before + indented(v, i + 1));
        i = i + 1;
    }
}

fn write_event(doc: &str, ptr: &str) -> (r: String)
    ensures
        r@ == written(doc@, ptr@),
{
    match pretty_at(doc, ptr) {
        Some(p) => p,
        None => match value_at(doc, ptr) {
            Some(v) => v,
            None => {
                let empty = String::new();
                assert(empty@ =~= Seq::<char>::empty());
                empty
            },
        },
    }
}

fn write_section(
    path: &str,
    line_no: u64,
    block: u64,
    doc: &str,
    i: u64,
    ptr: &str,
    kind: &str,
    status: &str,
) -> (r: String)
    requires
        ptr@ == event_place(i as nat),
        (kind@, status@) == classified(doc@, ptr@),
    ensures
        r@ == section(path@, line_no as nat, block, doc@, i as nat),
{
    let mut r = "  block=".to_owned();
    push_decimal(&mut r, block);
    push_text(&mut r, " file=");
    push_text(&mut r, path);
    push_text(&mut r, " line=");
    push_decimal(&mut r, line_no);
    push_text(&mut r, " event_idx=");
    push_decimal(&mut r, i);
    push_text(&mut r, " kind=");
    push_text(&mut r, kind);
    push_text(&mut r, " replay_status=");
    push_text(&mut r, status);
    push_text(&mut r, "\n");
    let event = write_event(doc, ptr);
    indent_json(&mut r, event.as_str());
    r
}

/// Notes a line of each of the users.
fn note_for(acc: &mut StrMap<Notes>, users: &Vec<String>, line: &String)
    requires
        crate::json::texts(users@).no_duplicates(),
    ensures
        final(acc)@ == noted_for(old(acc)@, crate::json::texts(users@).to_set(), line@),
{
    let ghost start = acc@;
    let ghost us = crate::json::texts(users@);
    let mut i: usize = 0;
    proof {
        crate::strmap::lemma_take_all(us);
        assert(acc@ =~= noted_for(start, us.take(0).to_set(), line@));
    }
    while i < users.len()
        invariant
            i <= users@.len(),
            us == crate::json::texts(users@),
            us.no_duplicates(),
            acc@ == noted_for(start, us.take(i as int).to_set(), line@),
        decreases users@.len() - i,
    {
        let u = users[i].as_str();
        assert(us[i as int] == u@);
        let ghost before = acc@;
        if let Some(notes) = acc.get_mut(u) {
            notes.take(line.clone());
        }
        proof {
            crate::strmap::lemma_take_one(us, i as int);
            assert forall|x: Seq<char>| #[trigger]
                us.take(i + 1).to_set().contains(x) == (us.take(i as int).to_set().contains(x) || x
                    == u@) by {
                assert(us.take(i + 1).contains(x) <==> us.take(i as int).contains(x) || x == u@);
            }
            assert(!us.take(i as int).to_set().contains(u@));
            assert(acc@ =~= noted_for(start, us.take(i + 1).to_set(), line@));
        }
        i = i + 1;
    }
    proof {
        crate::strmap::lemma_take_all(us);
    }
}

fn note_event(
    acc: &mut StrMap<Notes>,
    users: &StrMap<()>,
    path: &str,
    line_no: u64,
    block: u64,
    doc: &str,
    i: u64,
)
    ensures
        final(acc)@ == (if classified(doc@, event_place(i as nat)).1 == "applied"@ {
            old(acc)@
        } else {
            noted_for(
                old(acc)@,
                users_in(searched(doc@, event_place(i as nat)), users@),
                section(path@, line_no as nat, block, doc@, i as nat),
            )
        }),
{
    let number = decimal_string(i);
    let ptr = place("/events/", number.as_str());
    let related = related_debug_users_in_value(doc, ptr.as_str(), users);
    let (kind, status) = classify_misc_event(doc, ptr.as_str());
    if str_eq(status, "applied") {
        return ;
    }
    let line = write_section(path, line_no, block, doc, i, ptr.as_str(), kind.as_str(), status);
    note_for(acc, &related, &line);
}

fn note_line(
    acc: &mut StrMap<Notes>,
    users: &StrMap<()>,
    path: &str,
    line_no: u64,
    line: &str,
    from: u64,
    to: u64,
)
    ensures
        final(acc)@ == line_noted(old(acc)@, users@, path@, line_no as nat, line@, from, to),
{
    let block: u64 = match u64_at(line, "/block_number") {
        Some(b) => b,
        None => {
            return ;
        },
    };
    if block <= from || block > to {
        return ;
    }
    let n: usize = match array_len_at(line, "/events") {
        Some(n) => n,
        None => {
            return ;
        },
    };
    let ghost start = acc@;
    let mut i: usize = 0;
    while i < n
        invariant
            i <= n,
            acc@ == events_noted(
                start,
                users@,
                path@,
                line_no as nat,
                block,
                line@,
                i as nat,
            ),
        decreases n - i,
    {
        note_event(acc, users, path, line_no, block, line, i as u64);
        i = i + 1;
    }
}

fn write_user(out: &mut String, u: &str, notes: Option<&Notes>)
    requires
        notes is Some,
    ensures
        final(out)@ == user_written(old(out)@, u@, notes->Some_0@),
{
    push_text(out, "=== USER ");
    push_text(out, u);
    push_text(out, " ===\n");
    let ghost head = out@;
    match notes {
        Some(n) => {
            let ghost v = n@;
            if n.lines.len() == 0 {
                push_text(
                    out,
                    "  (no related unprocessed misc events found in replay range)\n",
                );
            } else {
                let mut i: usize = 0;
                while i < n.lines.len()
                    invariant
                        i <= n.lines@.len(),
                        v == n@,
                        out@ == lines_written(head, v, i as int),
                    decreases n.lines@.len() - i,
                {
                    let line = n.lines[i].as_str();
                    assert(v[i as int] == line@);
                    push_text(out, line);
                    if !ends_with_char(line, '\n') {
                        push_char(out, '\n');
                    }
                    push_char(out, '\n');
                    i = i + 1;
                }
            }
        },
        None => {},
    }
}

/// A report on those events in the files that mention one of the users, that lie in the blocks above
/// `from_block` up to `to_block`, and that a replay does not apply. The users come in dictionary
/// order. Nothing where there are no users.
pub fn extract_raw_debug_misc_events(
    files: &Vec<EventFile>,
    debug_users: &StrMap<()>,
    from_block: u64,
    to_block: u64,
) -> (r: String)
    ensures
        if debug_users@ == Map::<Seq<char>, ()>::empty() {
            r@ == Seq::<char>::empty()
        } else {
            let notes = files_noted(debug_users@, files@, from_block, to_block, files@.len());
            exists|us: Seq<Seq<char>>| #[trigger]
                crate::strmap::listing(us, notes.dom()) && r@ == report_on(
                    us,
                    notes,
                    us.len() as int,
                )
        },
{
    if debug_users.is_empty() {
        let r = String::new();
        assert(r@ =~= Seq::<char>::empty());
        return r;
    }
    let mut notes = blank(debug_users);
    let mut i: usize = 0;
    while i < files.len()
        invariant
            i <= files@.len(),
            notes@ == files_noted(debug_users@, files@, from_block, to_block, i as nat),
        decreases files@.len() - i,
    {
        let f = &files[i];
        let ghost start = notes@;
        let ghost ls = crate::json::texts(f.lines@);
        let mut k: usize = 0;
        while k < f.lines.len()
            invariant
                k <= f.lines@.len(),
                ls == crate::json::texts(f.lines@),
                notes@ == file_noted(
                    start,
                    debug_users@,
                    f.path@,
                    ls,
                    from_block,
                    to_block,
                    k as nat,
                ),
            decreases f.lines@.len() - k,
        {
            assert(ls[k as int] == f.lines@[k as int]@);
            note_line(
                &mut notes,
                debug_users,
                f.path.as_str(),
                k as u64 + 1,
                f.lines[k].as_str(),
                from_block,
                to_block,
            );
            k = k + 1;
        }
        i = i + 1;
    }
    let users = notes.sorted_keys();
    let ghost us = crate::json::texts(users@);
    let mut out = "=== RAW RELATED UNPROCESSED MISC EVENTS ===\n".to_owned();
    let mut j: usize = 0;
    while j < users.len()
        invariant
            j <= users@.len(),
            us == crate::json::texts(users@),
            crate::strmap::listing(us, notes@.dom()),
            out@ == report_on(us, notes@, j as int),
        decreases users@.len() - j,
    {
        let u = users[j].as_str();
        assert(us[j as int] == u@);
        assert(us.to_set().contains(u@));
        write_user(&mut out, u, notes.get(u));
        j = j + 1;
    }
    out
}

} // verus!

//! What holds of the events that are reported and of the prices that a state starts with.
use crate::clearing_house::compare::{leverage_text, same_leverage};
use crate::clearing_house::misc_report::{
    classification,
    delta_status,
    event_place,
    events_noted,
    line_noted,
    processed_delta,
    searched,
    skipped_delta,
    users_in,
};
use crate::clearing_house::rmp_streaming::root::{all_marks, dex_marks, OracleMark};
use crate::clearing_house::{DexModel, Leverage, PartialModel};
use vstd::prelude::*;

verus! {

// ── Kinds of events ──────────────────────────────────────────────────────

/// The changes of a ledger that count.
pub open spec fn changes_that_count() -> Seq<Seq<char>> {
    seq![
        "liquidation"@,
        "vaultDistribution"@,
        "vaultLeaderCommission"@,
        "rewardsClaim"@,
        "deployGasAuction"@,
        "accountActivationGas"@,
    ]
}

/// The changes of a ledger that other events bring too.
pub open spec fn changes_passed_over() -> Seq<Seq<char>> {
    seq![
        "deposit"@,
        "withdraw"@,
        "internalTransfer"@,
        "subAccountTransfer"@,
        "spotTransfer"@,
        "send"@,
        "accountClassTransfer"@,
        "vaultCreate"@,
        "vaultDeposit"@,
        "vaultWithdraw"@,
        "borrowLend"@,
        "spotGenesis"@,
        "cStakingTransfer"@,
        "perpDexClassTransfer"@,
    ]
}

/// A change of a ledger counts, is passed over, or is unknown, by what it is called.
pub proof fn law_changes_by_name(t: Seq<char>, i: int)
    ensures
        0 <= i < changes_that_count().len() ==> processed_delta(changes_that_count()[i]) && delta_status(
            changes_that_count()[i],
        ) == "applied"@,
        0 <= i < changes_passed_over().len() ==> skipped_delta(changes_passed_over()[i]),
        processed_delta(t) ==> changes_that_count().contains(t),
        skipped_delta(t) ==> changes_passed_over().contains(t),
        !processed_delta(t) && skipped_delta(t) ==> delta_status(t) == "skipped"@,
        !processed_delta(t) && !skipped_delta(t) ==> delta_status(t) == "unknown"@,
{
    let (a, b) = (changes_that_count(), changes_passed_over());
    assert(a[0] == "liquidation"@ && a[1] == "vaultDistribution"@ && a[2] == "vaultLeaderCommission"@
        && a[3] == "rewardsClaim"@ && a[4] == "deployGasAuction"@ && a[5] == "accountActivationGas"@);
    assert(b[0] == "deposit"@ && b[1] == "withdraw"@ && b[2] == "internalTransfer"@ && b[3]
        == "subAccountTransfer"@ && b[4] == "spotTransfer"@ && b[5] == "send"@ && b[6]
        == "accountClassTransfer"@);
    assert(b[7] == "vaultCreate"@ && b[8] == "vaultDeposit"@ && b[9] == "vaultWithdraw"@ && b[10]
        == "borrowLend"@ && b[11] == "spotGenesis"@ && b[12] == "cStakingTransfer"@ && b[13]
        == "perpDexClassTransfer"@);
}

/// Funding counts; a change of the ledger goes by its name; deposits, withdrawals, delegations and
/// rewards of validators are passed over; anything else is unknown.
pub proof fn law_events_by_kind(t: Seq<char>, k: Seq<char>, delta: Option<Seq<char>>)
    ensures
        classification(Some("Funding"@), delta) == ("Funding"@, "applied"@),
        classification(Some("LedgerUpdate"@), Some(t)) == ("LedgerUpdate/"@ + t, delta_status(t)),
        classification(Some("LedgerUpdate"@), None).0 == "LedgerUpdate/"@ + "unknown"@,
        classification(Some("CDeposit"@), delta) == ("CDeposit"@, "skipped"@),
        classification(Some("CWithdrawal"@), delta) == ("CWithdrawal"@, "skipped"@),
        classification(Some("Delegation"@), delta) == ("Delegation"@, "skipped"@),
        classification(Some("ValidatorRewards"@), delta) == ("ValidatorRewards"@, "skipped"@),
        classification(None, delta) == ("unknown"@, "unknown"@),
        k != "Funding"@ && k != "LedgerUpdate"@ && k != "CDeposit"@ && k != "CWithdrawal"@ && k
            != "Delegation"@ && k != "ValidatorRewards"@ ==> classification(Some(k), delta) == (
            k,
            "unknown"@,
        ),
{
    reveal_strlit("Funding");
    reveal_strlit("LedgerUpdate");
    reveal_strlit("CDeposit");
    reveal_strlit("CWithdrawal");
    reveal_strlit("Delegation");
    reveal_strlit("ValidatorRewards");
    assert("Funding"@.len() == 7 && "LedgerUpdate"@.len() == 12 && "CDeposit"@.len() == 8);
    assert("CWithdrawal"@.len() == 11 && "Delegation"@.len() == 10 && "ValidatorRewards"@.len() == 16);
}

// ── What is noted of users ───────────────────────────────────────────────

/// Whether an event is to be noted for a user: it names the user and does not count otherwise.
pub open spec fn is_noted(users: Map<Seq<char>, ()>, doc: Seq<char>, i: nat, u: Seq<char>) -> bool {
    &&& users.contains_key(u)
    &&& crate::clearing_house::misc_report::classified(doc, event_place(i)).1 != "applied"@
    &&& crate::text::occurs(searched(doc, event_place(i)), u)
}

/// How many of the first `n` events are to be noted for a user.
pub open spec fn to_note(users: Map<Seq<char>, ()>, doc: Seq<char>, n: nat, u: Seq<char>) -> nat
    decreases n,
{
    if n == 0 {
        0
    } else {
        to_note(users, doc, (n - 1) as nat, u) + if is_noted(users, doc, (n - 1) as nat, u) {
            1nat
        } else {
            0
        }
    }
}

/// Each event that names a user and does not count is noted for the user, once; nothing else is, and
/// what was noted before stays.
pub proof fn law_events_are_noted_once(
    a: Map<Seq<char>, Seq<Seq<char>>>,
    users: Map<Seq<char>, ()>,
    path: Seq<char>,
    line_no: nat,
    block: u64,
    doc: Seq<char>,
    n: nat,
    u: Seq<char>,
)
    requires
        a.contains_key(u),
    ensures
        ({
            let b = events_noted(a, users, path, line_no, block, doc, n);
            &&& b.contains_key(u)
            &&& b[u].len() == a[u].len() + to_note(users, doc, n, u)
            &&& a[u].is_prefix_of(b[u])
        }),
    decreases n,
{
    if n > 0 {
        law_events_are_noted_once(a, users, path, line_no, block, doc, (n - 1) as nat, u);
        let i = (n - 1) as nat;
        let us = users_in(searched(doc, event_place(i)), users);
        assert(us.contains(u) <==> users.contains_key(u) && crate::text::occurs(
            searched(doc, event_place(i)),
            u,
        ));
        let (x, y) = (
            events_noted(a, users, path, line_no, block, doc, i)[u],
            events_noted(a, users, path, line_no, block, doc, n)[u],
        );
        assert(a[u] =~= y.subrange(0, a[u].len() as int)) by {
            assert(a[u] =~= x.subrange(0, a[u].len() as int));
            assert forall|j: int| 0 <= j < a[u].len() implies a[u][j] == y[j] by {
                assert(x.subrange(0, a[u].len() as int)[j] == x[j]);
            }
        }
    }
}

/// Lines of blocks up to the first one, or after the last one, bring nothing.
pub proof fn law_lines_out_of_range(
    a: Map<Seq<char>, Seq<Seq<char>>>,
    users: Map<Seq<char>, ()>,
    path: Seq<char>,
    line_no: nat,
    line: Seq<char>,
    from: u64,
    to: u64,
    block: u64,
)
    requires
        crate::json::u64_found(line, "/block_number"@) == Some(block),
    ensures
        block <= from || to < block ==> line_noted(a, users, path, line_no, line, from, to) == a,
        from < block <= to && crate::json::array_len_found(line, "/events"@) is Some ==> line_noted(
            a,
            users,
            path,
            line_no,
            line,
            from,
            to,
        ) == events_noted(
            a,
            users,
            path,
            line_no,
            block,
            line,
            crate::json::array_len_found(line, "/events"@)->0 as nat,
        ),
{
}

// ── Prices that a state starts with ──────────────────────────────────────

proof fn lemma_marks(d: DexModel, di: usize, n: int, m: OracleMark)
    requires
        0 <= n <= d.oracle_prices.len() <= u32::MAX,
    ensures
        dex_marks(d, di, n).contains(m) <==> m.dex == di && is_mark(d, m) && m.asset < n,
    decreases n,
{
    if n > 0 {
        lemma_marks(d, di, n - 1, m);
        let (before, after) = (dex_marks(d, di, n - 1), dex_marks(d, di, n));
        if after.contains(m) {
            let j = choose|j: int| 0 <= j < after.len() && after[j] == m;
            if j < before.len() {
                assert(before[j] == m);
            }
        }
        if before.contains(m) {
            let j = choose|j: int| 0 <= j < before.len() && before[j] == m;
            assert(after[j] == m);
        }
        if m.dex == di && is_mark(d, m) && m.asset == n - 1 {
            assert(after.last() == m);
        }
    }
}

/// Whether a mark is the oracle price of an asset of a dex, with the decimals of its size.
pub open spec fn is_mark(d: DexModel, m: OracleMark) -> bool {
    &&& m.asset < d.oracle_prices.len()
    &&& m.raw == d.oracle_prices[m.asset as int]
    &&& m.raw != 0
    &&& m.sz_decimals == (if m.asset < d.universe.len() {
        d.universe[m.asset as int].sz_decimals
    } else {
        0
    })
}

/// The prices that a state starts with are the oracle prices of all dexes that are not zero, and no
/// others.
pub proof fn law_marks_start_from_the_oracle(dexes: Seq<DexModel>, n: int, m: OracleMark)
    requires
        0 <= n <= dexes.len() <= usize::MAX,
        forall|i: int| 0 <= i < dexes.len() ==> (#[trigger] dexes[i]).oracle_prices.len() <= u32::MAX,
    ensures
        all_marks(dexes, n).contains(m) <==> m.dex < n && is_mark(dexes[m.dex as int], m),
    decreases n,
{
    if n > 0 {
        law_marks_start_from_the_oracle(dexes, n - 1, m);
        let d = dexes[n - 1];
        lemma_marks(d, (n - 1) as usize, d.oracle_prices.len() as int, m);
        let (a, b) = (
            all_marks(dexes, n - 1),
            dex_marks(d, (n - 1) as usize, d.oracle_prices.len() as int),
        );
        if (a + b).contains(m) {
            let j = choose|j: int| 0 <= j < (a + b).len() && (a + b)[j] == m;
            if j < a.len() {
                assert(a[j] == m);
            } else {
                assert(b[j - a.len()] == m);
            }
        }
        if a.contains(m) {
            let j = choose|j: int| 0 <= j < a.len() && a[j] == m;
            assert((a + b)[j] == m);
        }
        if b.contains(m) {
            let j = choose|j: int| 0 <= j < b.len() && b[j] == m;
            assert((a + b)[a.len() + j] == m);
        }
    }
}

// ── Leverages and users ──────────────────────────────────────────────────

/// Two leverages are the same where both are cross or both isolated, and as large, whatever margin
/// they hold.
pub proof fn law_leverages_without_margin(x: u32, y: u32, p: i64, q: i64)
    ensures
        same_leverage(Leverage::Cross(x), Leverage::Cross(y)) <==> x == y,
        same_leverage(
            Leverage::Isolated { leverage: x, raw_usd: p },
            Leverage::Isolated { leverage: y, raw_usd: q },
        ) <==> x == y,
        !same_leverage(Leverage::Cross(x), Leverage::Isolated { leverage: y, raw_usd: q }),
        !same_leverage(Leverage::Isolated { leverage: x, raw_usd: p }, Leverage::Cross(y)),
        leverage_text(Leverage::Cross(x)) == "Cross("@ + crate::text::decimal_text(x as nat) + ")"@,
{
}

/// A user without positions who comes to have one keeps all there was, and starts with none.
pub proof fn law_users_keep_what_they_had(p: PartialModel, a: u32)
    ensures
        ({
            let u = p.promoted();
            &&& u.usdc_balance == p.usdc_balance
            &&& u.spot_collateral == p.spot_collateral
            &&& u.spot_collateral_decimals == p.spot_collateral_decimals
            &&& u.account_mode == p.account_mode
            &&& u.leverage_settings == p.leverage_settings
            &&& !u.positions.contains_key(a)
        }),
{
}

/// An asset is called by the name that the market has for it, and by a question mark where it has
/// none.
pub proof fn law_assets_have_names(universe: Seq<crate::clearing_house::AssetModel>, a: u32)
    ensures
        a < universe.len() ==> crate::clearing_house::compare::coin_name(universe, a)
            == universe[a as int].name,
        a >= universe.len() ==> crate::clearing_house::compare::coin_name(universe, a) == "?"@,
{
}

/// A block counts as one more action of each of its users, and of nobody else.
pub proof fn law_actions_are_counted(m: Map<Seq<char>, u32>, users: Set<Seq<char>>, u: Seq<char>)
    ensures
        ({
            let n = crate::clearing_house::replica::counted_all(m, users);
            &&& n.contains_key(u) <==> m.contains_key(u) || users.contains(u)
            &&& users.contains(u) && !m.contains_key(u) ==> n[u] == 1
            &&& users.contains(u) && m.contains_key(u) && m[u] < u32::MAX ==> n[u] == m[u] + 1
            &&& !users.contains(u) && m.contains_key(u) ==> n[u] == m[u]
        }),
{
}

} // verus!

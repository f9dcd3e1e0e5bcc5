//! What is remembered of deposits: a deposit that was credited once is never credited again.
use crate::clearing_house::misc_events::{FundingDelta, LedgerUpdateEvent, MiscEvent, MiscEventInner};
use crate::clearing_house::replay::{ReplayEvent, ReplayTotals};
use crate::clearing_house::replica::{Action, ActionBundle, ActionResp, Effect, ReplicaBlock, Resps, SignedAction};
use crate::clearing_house::StateModel;
use vstd::prelude::*;

verus! {

/// Whether a state remembers every deposit that another one remembers.
pub open spec fn remembers(t: StateModel, s: StateModel) -> bool {
    s.nonces.subset_of(t.nonces)
}

/// The state and the totals after the first `n` events.
pub open spec fn replayed_all(s: StateModel, t: ReplayTotals, events: Seq<ReplayEvent>, n: int) -> (
    StateModel,
    ReplayTotals,
)
    decreases n,
{
    if n <= 0 {
        (s, t)
    } else {
        let (before, totals) = replayed_all(s, t, events, n - 1);
        crate::clearing_house::replay::replayed(before, totals, events[n - 1])
    }
}

/// Whether the action at a place of a block is a vote on the deposit that went through.
pub open spec fn votes_at(block: ReplicaBlock, bi: int, ai: int, eth_id: Seq<char>) -> bool {
    let bundles = block.abci_block.signed_action_bundles@;
    let actions = bundles[bi].1.signed_actions@;
    &&& 0 <= bi < bundles.len()
    &&& 0 <= ai < actions.len()
    &&& actions[ai].action is VoteEthDepositAction
    &&& actions[ai].action->VoteEthDepositAction_eth_id@ == eth_id
    &&& crate::clearing_house::laws::resp_to(block.resps, bi, ai) matches Some(r) ==> r.succeeded()
}

// ── Blocks ───────────────────────────────────────────────────────────────

proof fn lemma_marks(s: StateModel, pxs: Seq<Option<u64>>, n: int)
    ensures
        crate::clearing_house::replica::marks_set(s, pxs, n).nonces == s.nonces,
    decreases n,
{
    if n > 0 {
        lemma_marks(s, pxs, n - 1);
    }
}

/// An action forgets no deposit.
#[verifier::rlimit(40)]
proof fn lemma_action(s: StateModel, action: Action, actor: Option<Seq<char>>)
    ensures
        remembers(crate::clearing_house::replica::effect_of(s, action, actor).state, s),
        action is VoteEthDepositAction ==> crate::clearing_house::replica::effect_of(
            s,
            action,
            actor,
        ).state.nonces.contains(
            crate::clearing_house::replica::deposit_key(action->VoteEthDepositAction_eth_id@),
        ),
{
    if let Action::SetGlobalAction { pxs } = action {
        lemma_marks(s, pxs@, pxs@.len() as int);
    }
}

proof fn lemma_bundle(
    e: Effect,
    actions: Seq<SignedAction>,
    resps: Option<Seq<ActionResp>>,
    n: int,
    m: int,
)
    requires
        m <= n,
    ensures
        remembers(
            crate::clearing_house::replica::bundle_effect(e, actions, resps, n).state,
            crate::clearing_house::replica::bundle_effect(e, actions, resps, m).state,
        ),
        remembers(crate::clearing_house::replica::bundle_effect(e, actions, resps, n).state, e.state),
    decreases n,
{
    if n > 0 {
        lemma_bundle(e, actions, resps, n - 1, if m < n { m } else { n - 1 });
        let b = crate::clearing_house::replica::bundle_effect(e, actions, resps, n - 1);
        let resp = match resps {
            Some(rs) if n - 1 < rs.len() => Some(rs[n - 1]),
            _ => None,
        };
        lemma_action(
            b.state,
            actions[n - 1].action,
            crate::clearing_house::replica::actor_of(actions[n - 1].vault_address, resp),
        );
    }
}

proof fn lemma_bundles(
    s: StateModel,
    bundles: Seq<(String, ActionBundle)>,
    resps: Option<Resps>,
    n: int,
    m: int,
)
    requires
        m <= n,
    ensures
        remembers(
            crate::clearing_house::replica::bundles_effect(s, bundles, resps, n).state,
            crate::clearing_house::replica::bundles_effect(s, bundles, resps, m).state,
        ),
        remembers(crate::clearing_house::replica::bundles_effect(s, bundles, resps, n).state, s),
    decreases n,
{
    if n > 0 {
        lemma_bundles(s, bundles, resps, n - 1, if m < n { m } else { n - 1 });
        let actions = bundles[n - 1].1.signed_actions@;
        lemma_bundle(
            crate::clearing_house::replica::bundles_effect(s, bundles, resps, n - 1),
            actions,
            crate::clearing_house::replica::bundle_resps(resps, n - 1),
            actions.len() as int,
            0,
        );
    }
}

proof fn lemma_oracle(s: StateModel, di: int, prices: Seq<(String, u64)>, n: int)
    ensures
        crate::clearing_house::replica::oracle_set(s, di, prices, n).nonces == s.nonces,
    decreases n,
{
    if n > 0 {
        lemma_oracle(s, di, prices, n - 1);
    }
}

proof fn lemma_deploys(s: StateModel, actions: Seq<SignedAction>, n: int)
    ensures
        crate::clearing_house::replica::bundle_deploys(s, actions, n).nonces == s.nonces,
    decreases n,
{
    if n > 0 {
        lemma_deploys(s, actions, n - 1);
        let b = crate::clearing_house::replica::bundle_deploys(s, actions, n - 1);
        if let Action::PerpDeploy { set_oracle: Some(o) } = actions[n - 1].action {
            let di = crate::clearing_house::state::first_dex(
                b.dexes,
                |d: crate::clearing_house::DexModel|
                    crate::clearing_house::replica::dex_is_named(d, o.dex@),
                0,
            );
            lemma_oracle(b, di, o.prices@, o.prices@.len() as int);
        }
    }
}

proof fn lemma_all_deploys(s: StateModel, bundles: Seq<(String, ActionBundle)>, n: int)
    ensures
        crate::clearing_house::replica::bundles_deploys(s, bundles, n).nonces == s.nonces,
    decreases n,
{
    if n > 0 {
        lemma_all_deploys(s, bundles, n - 1);
        let actions = bundles[n - 1].1.signed_actions@;
        lemma_deploys(
            crate::clearing_house::replica::bundles_deploys(s, bundles, n - 1),
            actions,
            actions.len() as int,
        );
    }
}

/// A block forgets no deposit.
proof fn lemma_block(s: StateModel, block: ReplicaBlock)
    ensures
        remembers(crate::clearing_house::replica::block_effect(s, block).state, s),
{
    let bundles = block.abci_block.signed_action_bundles@;
    let n = bundles.len() as int;
    lemma_bundles(s, bundles, block.resps, n, 0);
    lemma_all_deploys(
        crate::clearing_house::replica::bundles_effect(s, bundles, block.resps, n).state,
        bundles,
        n,
    );
}

/// A vote that went through is remembered: after its block, the deposit is known.
pub proof fn law_votes_are_remembered(
    s: StateModel,
    block: ReplicaBlock,
    bi: int,
    ai: int,
    eth_id: Seq<char>,
)
    requires
        votes_at(block, bi, ai, eth_id),
    ensures
        crate::clearing_house::replica::block_effect(s, block).state.nonces.contains(
            crate::clearing_house::replica::deposit_key(eth_id),
        ),
{
    let bundles = block.abci_block.signed_action_bundles@;
    let n = bundles.len() as int;
    let actions = bundles[bi].1.signed_actions@;
    let resps = crate::clearing_house::replica::bundle_resps(block.resps, bi);
    let e = crate::clearing_house::replica::bundles_effect(s, bundles, block.resps, bi);
    let b = crate::clearing_house::replica::bundle_effect(e, actions, resps, ai);
    let resp = crate::clearing_house::laws::resp_to(block.resps, bi, ai);
    lemma_action(
        b.state,
        actions[ai].action,
        crate::clearing_house::replica::actor_of(actions[ai].vault_address, resp),
    );
    assert(!actions[ai].action.ignored());
    assert(crate::clearing_house::replica::bundle_effect(
        e,
        actions,
        resps,
        ai + 1,
    ).state.nonces.contains(crate::clearing_house::replica::deposit_key(eth_id)));
    lemma_bundle(e, actions, resps, actions.len() as int, ai + 1);
    assert(crate::clearing_house::replica::bundles_effect(s, bundles, block.resps, bi + 1)
        == crate::clearing_house::replica::bundle_effect(e, actions, resps, actions.len() as int));
    lemma_bundles(s, bundles, block.resps, n, bi + 1);
    lemma_all_deploys(
        crate::clearing_house::replica::bundles_effect(s, bundles, block.resps, n).state,
        bundles,
        n,
    );
}

// ── Other events ─────────────────────────────────────────────────────────

proof fn lemma_each(s: StateModel, users: Seq<String>, micro: i64, n: int)
    ensures
        crate::clearing_house::misc_events::credited_each(s, users, micro, n).nonces == s.nonces,
    decreases n,
{
    if n > 0 {
        lemma_each(s, users, micro, n - 1);
    }
}

proof fn lemma_ledger(s: StateModel, ev: LedgerUpdateEvent)
    ensures
        crate::clearing_house::misc_events::ledger_effect(s, ev).0.nonces == s.nonces,
{
    assert forall|micro: i64, n: int|
        (#[trigger] crate::clearing_house::misc_events::credited_each(s, ev.users@, micro, n)).nonces
            == s.nonces by {
        lemma_each(s, ev.users@, micro, n);
    }
}

proof fn lemma_funding(s: StateModel, deltas: Seq<FundingDelta>, n: int)
    ensures
        crate::clearing_house::misc_events::funding_effect(s, deltas, n).nonces == s.nonces,
    decreases n,
{
    if n > 0 {
        lemma_funding(s, deltas, n - 1);
    }
}

proof fn lemma_misc(s: StateModel, events: Seq<MiscEvent>, n: int)
    ensures
        crate::clearing_house::misc_events::events_effect(s, events, n).0.nonces == s.nonces,
    decreases n,
{
    if n > 0 {
        lemma_misc(s, events, n - 1);
        let t = crate::clearing_house::misc_events::events_effect(s, events, n - 1).0;
        match events[n - 1].inner {
            MiscEventInner::Funding(f) => {
                lemma_funding(t, f.deltas@, f.deltas@.len() as int);
            },
            MiscEventInner::LedgerUpdate(l) => {
                lemma_ledger(t, l);
            },
            _ => {},
        }
    }
}

proof fn lemma_mark_events(s: StateModel, marks: Seq<(String, Option<u64>)>, n: int)
    ensures
        crate::clearing_house::replay::marks_applied(s, marks, n).0.nonces == s.nonces,
    decreases n,
{
    if n > 0 {
        lemma_mark_events(s, marks, n - 1);
    }
}

/// No event that is replayed forgets a deposit, and neither does settling funding: only votes change
/// what is remembered.
pub proof fn law_deposits_are_not_forgotten(s: StateModel, t: ReplayTotals, e: ReplayEvent)
    ensures
        remembers(crate::clearing_house::replay::replayed(s, t, e).0, s),
        !(e is Replica) ==> crate::clearing_house::replay::replayed(s, t, e).0.nonces == s.nonces,
        crate::clearing_house::funding::state_settled(s).nonces == s.nonces,
{
    match e {
        ReplayEvent::Marks(marks) => {
            lemma_mark_events(s, marks@, marks@.len() as int);
        },
        ReplayEvent::Replica(block) => {
            lemma_block(s, block);
        },
        ReplayEvent::Misc(batch) => {
            lemma_misc(s, batch.events@, batch.events@.len() as int);
        },
        ReplayEvent::Fill { user, coin, amounts } => {},
    }
}

proof fn lemma_events(s: StateModel, t: ReplayTotals, events: Seq<ReplayEvent>, n: int)
    ensures
        remembers(replayed_all(s, t, events, n).0, s),
    decreases n,
{
    if n > 0 {
        lemma_events(s, t, events, n - 1);
        let (before, totals) = replayed_all(s, t, events, n - 1);
        law_deposits_are_not_forgotten(before, totals, events[n - 1]);
    }
}

/// A deposit is credited once, whatever is replayed in between: after a block in which a vote on it went
/// through, and any events after that, another vote on it changes nothing, credits nobody and counts as
/// no one's action.
pub proof fn law_deposits_count_once_for_good(
    s: StateModel,
    t: ReplayTotals,
    block: ReplicaBlock,
    bi: int,
    ai: int,
    events: Seq<ReplayEvent>,
    again: Action,
    actor: Option<Seq<char>>,
)
    requires
        again is VoteEthDepositAction,
        votes_at(block, bi, ai, again->VoteEthDepositAction_eth_id@),
    ensures
        ({
            let first = crate::clearing_house::replica::block_effect(s, block).state;
            let later = replayed_all(first, t, events, events.len() as int).0;
            crate::clearing_house::replica::effect_of(later, again, actor)
                == crate::clearing_house::replica::no_effect(later)
        }),
{
    law_votes_are_remembered(s, block, bi, ai, again->VoteEthDepositAction_eth_id@);
    lemma_events(
        crate::clearing_house::replica::block_effect(s, block).state,
        t,
        events,
        events.len() as int,
    );
}

} // verus!

//! Ledger-wide laws of the replay state machine, proved once and for all
//! event sequences.

use vstd::prelude::*;

use crate::records::Record;
use crate::records::TxType;
use crate::transaction::LedgerState;
use crate::transaction::account_bounded;
use crate::transaction::account_ok;
use crate::transaction::amount_limit;
use crate::transaction::balance_limit;
use crate::transaction::dispute_applies;
use crate::transaction::lemma_replay_wf;
use crate::transaction::spec_dispute_key;
use crate::transaction::spec_replay;
use crate::transaction::spec_step;
use crate::transaction::state_wf;

verus! {

/// Law: after replaying any realizable event sequence, every account in
/// the output satisfies `total == available + held` exactly.
pub proof fn lemma_total_is_available_plus_held(events: Seq<Record>)
    requires
        events.len() <= usize::MAX,
    ensures
        forall|c: u16| #[trigger]
            spec_replay(events).accounts.contains_key(c) ==> spec_replay(
                events,
            ).accounts[c].total == spec_replay(events).accounts[c].available + spec_replay(
                events,
            ).accounts[c].held,
{
    assert(events.len() * amount_limit() <= i128::MAX) by (nonlinear_arith)
        requires
            events.len() <= usize::MAX,
    ;
    lemma_replay_wf(events);
}

/// One event never changes the state of a locked account.
pub proof fn lemma_step_keeps_locked_account(s: LedgerState, r: Record, c: u16)
    requires
        s.accounts.contains_key(c),
        s.accounts[c].locked,
    ensures
        spec_step(s, r).accounts.contains_key(c),
        spec_step(s, r).accounts[c] == s.accounts[c],
{
}

/// Law: a chargeback locks an account permanently. Once an account is
/// locked after some prefix of events, no continuation of the event stream
/// changes that account's state in any way.
pub proof fn lemma_locked_account_is_frozen(events: Seq<Record>, more: Seq<Record>, c: u16)
    requires
        spec_replay(events).accounts.contains_key(c),
        spec_replay(events).accounts[c].locked,
    ensures
        spec_replay(events + more).accounts.contains_key(c),
        spec_replay(events + more).accounts[c] == spec_replay(events).accounts[c],
    decreases more.len(),
{
    if more.len() == 0 {
        assert(events + more =~= events);
    } else {
        assert((events + more).drop_last() =~= events + more.drop_last());
        assert((events + more).last() == more.last());
        lemma_locked_account_is_frozen(events, more.drop_last(), c);
        lemma_step_keeps_locked_account(spec_replay(events + more.drop_last()), more.last(), c);
    }
}

/// Law: a resolve directly after an accepted dispute of the same
/// `(client, tx)` pair restores the whole state — accounts, history and
/// dispute set — to its pre-dispute value.
pub proof fn lemma_dispute_resolve_round_trip(s: LedgerState, d: Record, rv: Record)
    requires
        d.tx_type == TxType::Dispute,
        rv.tx_type == TxType::Resolve,
        rv.client == d.client,
        rv.tx == d.tx,
        dispute_applies(s.accounts, s.disputed, s.history, d),
        account_ok(s.accounts[d.client], d.client),
        account_bounded(s.accounts[d.client], balance_limit()),
    ensures
        spec_step(spec_step(s, d), rv).accounts == s.accounts,
        spec_step(spec_step(s, d), rv).history == s.history,
        spec_step(spec_step(s, d), rv).disputed == s.disputed,
{
    let s1 = spec_step(s, d);
    let s2 = spec_step(s1, rv);
    let acc = s.accounts[d.client];
    let a = s.history[d.tx].amount->0;
    assert(s1.accounts[d.client].available == acc.available - a);
    assert(s1.accounts[d.client].held == acc.held + a);
    assert(s2.accounts[d.client] == acc);
    assert(s2.accounts =~= s.accounts);
    assert(s2.disputed =~= s.disputed);
}

/// Law: a deposit or withdrawal whose `tx` already exists anywhere in the
/// transaction history is dropped whole — the state after it is the state
/// before it.
pub proof fn lemma_duplicate_tx_is_dropped(s: LedgerState, r: Record)
    requires
        crate::records::balance_affecting(r.tx_type),
        s.history.contains_key(r.tx),
    ensures
        spec_step(s, r) == s,
{
}

/// Law: a deposit with a missing, zero or negative amount neither creates
/// nor mutates any account, and is not recorded in the history.
pub proof fn lemma_nonpositive_deposit_is_a_no_op(s: LedgerState, r: Record)
    requires
        r.tx_type == TxType::Deposit,
        match r.amount {
            Option::Some(a) => a <= 0,
            Option::None => true,
        },
    ensures
        spec_step(s, r) == s,
{
}

/// Law: a withdrawal larger than the account's available funds leaves
/// every balance unchanged (though the event still occupies its `tx` in
/// the history).
pub proof fn lemma_insufficient_withdrawal_keeps_balances(s: LedgerState, r: Record)
    requires
        r.tx_type == TxType::Withdrawal,
        s.accounts.contains_key(r.client),
        match r.amount {
            Option::Some(a) => s.accounts[r.client].available < a,
            Option::None => false,
        },
    ensures
        spec_step(s, r).accounts == s.accounts,
{
}

/// One event never removes or overwrites an existing transaction-history
/// entry: deposits and withdrawals insert only under a `tx` that history
/// does not hold yet, and the dispute family never writes history.
pub proof fn lemma_step_keeps_history_entry(s: LedgerState, r: Record, t: u32)
    requires
        s.history.contains_key(t),
    ensures
        spec_step(s, r).history.contains_key(t),
        spec_step(s, r).history[t] == s.history[t],
{
}

/// Law: a `tx` once recorded in the transaction history keeps its original
/// event there for the rest of the run, whatever else the stream brings.
pub proof fn lemma_history_is_never_overwritten(events: Seq<Record>, more: Seq<Record>, t: u32)
    requires
        spec_replay(events).history.contains_key(t),
    ensures
        spec_replay(events + more).history.contains_key(t),
        spec_replay(events + more).history[t] == spec_replay(events).history[t],
    decreases more.len(),
{
    if more.len() == 0 {
        assert(events + more =~= events);
    } else {
        assert((events + more).drop_last() =~= events + more.drop_last());
        lemma_history_is_never_overwritten(events, more.drop_last(), t);
        lemma_step_keeps_history_entry(spec_replay(events + more.drop_last()), more.last(), t);
    }
}

/// Packed dispute keys collide only for equal `(client, tx)` pairs.
pub proof fn lemma_dispute_key_injective(c1: u16, t1: u32, c2: u16, t2: u32)
    requires
        spec_dispute_key(c1, t1) == spec_dispute_key(c2, t2),
    ensures
        c1 == c2,
        t1 == t2,
{
}

/// Every active dispute points at a history entry recorded for exactly the
/// disputing client.
pub open spec fn dispute_set_linked(s: LedgerState) -> bool {
    forall|c: u16, t: u32| #[trigger]
        s.disputed.contains(spec_dispute_key(c, t)) ==> s.history.contains_key(t)
            && s.history[t].client == c
}

/// One event preserves the link from active disputes to their history
/// entries.
pub proof fn lemma_step_preserves_dispute_links(s: LedgerState, r: Record)
    requires
        dispute_set_linked(s),
    ensures
        dispute_set_linked(spec_step(s, r)),
{
    let s1 = spec_step(s, r);
    assert forall|c: u16, t: u32| #[trigger]
        s1.disputed.contains(spec_dispute_key(c, t)) implies s1.history.contains_key(t)
        && s1.history[t].client == c by {
        if !s.disputed.contains(spec_dispute_key(c, t)) {
            lemma_dispute_key_injective(c, t, r.client, r.tx);
        }
    }
}

/// Replaying any event sequence keeps every active dispute linked to a
/// history entry of its own client.
pub proof fn lemma_replay_dispute_links(events: Seq<Record>)
    ensures
        dispute_set_linked(spec_replay(events)),
    decreases events.len(),
{
    if events.len() > 0 {
        lemma_replay_dispute_links(events.drop_last());
        lemma_step_preserves_dispute_links(spec_replay(events.drop_last()), events.last());
    }
}

/// Law: disputes are scoped to the `(client, tx)` pair recorded in the
/// transaction history, so a `tx` can sit in at most one account's dispute
/// set at a time.
pub proof fn lemma_disputes_never_cross_accounts(events: Seq<Record>, c1: u16, c2: u16, t: u32)
    requires
        spec_replay(events).disputed.contains(spec_dispute_key(c1, t)),
        spec_replay(events).disputed.contains(spec_dispute_key(c2, t)),
    ensures
        c1 == c2,
{
    lemma_replay_dispute_links(events);
}

} // verus!

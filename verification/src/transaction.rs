//! The transaction-replay state machine: account state, the five event
//! handlers, and the replay engine that drives them.
//!
//! The intended behaviour of each handler is written down once, as a
//! specification function over the mathematical views of the three state
//! collections; each executable handler is proved to realise exactly that
//! transformation, and `spec_replay` folds the per-event step over a whole
//! event sequence.

use std::collections::HashMap;
use std::collections::HashSet;
use vstd::prelude::*;

use crate::records::Record;
use crate::records::TxType;

verus! {

broadcast use vstd::std_specs::hash::group_hash_axioms;

/// The balance state of one account.
///
/// Balances are fixed-point values in ten-thousandths of a currency unit,
/// held in `i128` so that any realizable run of events stays exactly
/// representable. The invariant `total == available + held` holds after
/// every accepted event.
#[derive(Clone, Copy, Debug, PartialEq, Eq, Structural)]
pub struct AccountRecord {
    pub client: u16,
    pub available: i128,
    pub held: i128,
    pub total: i128,
    pub locked: bool,
}

impl Default for AccountRecord {
    /// The empty, unlocked account of client 0.
    fn default() -> (r: AccountRecord)
        ensures
            r == (AccountRecord { client: 0, available: 0, held: 0, total: 0, locked: false }),
    {
        AccountRecord { client: 0, available: 0, held: 0, total: 0, locked: false }
    }
}

/// The whole replay state, at the specification level: the account ledger,
/// the transaction history (keyed by `tx`, which is globally unique among
/// recorded events), and the set of active disputes (keyed by the packed
/// `(client, tx)` pair).
pub struct LedgerState {
    pub accounts: Map<u16, AccountRecord>,
    pub history: Map<u32, Record>,
    pub disputed: Set<u64>,
}

/// Packs a `(client, tx)` pair into one dispute-set key; injective because
/// `tx` occupies the low 32 bits.
pub open spec fn spec_dispute_key(client: u16, tx: u32) -> u64 {
    (client as int * 0x1_0000_0000 + tx as int) as u64
}

/// Packs a `(client, tx)` pair into the key under which an active dispute
/// is tracked.
pub fn dispute_key(client: u16, tx: u32) -> (k: u64)
    ensures
        k == spec_dispute_key(client, tx),
{
    client as u64 * 0x1_0000_0000 + tx as u64
}

/// The largest magnitude an event amount can have, as a mathematical
/// integer (`i64::MIN` has magnitude `i64::MAX + 1`).
pub open spec fn amount_limit() -> int {
    i64::MAX + 1
}

/// A balance bound with enough headroom that one further event cannot
/// overflow an `i128` field.
pub open spec fn balance_limit() -> int {
    i128::MAX - (i64::MAX + 1)
}

/// The bookkeeping invariant of one account: `total` is exactly
/// `available + held`, and the account sits under the ledger key of its own
/// client identifier.
pub open spec fn account_ok(a: AccountRecord, c: u16) -> bool {
    &&& a.client == c
    &&& a.total == a.available + a.held
}

/// All three balance fields lie within `[-bound, bound]`.
pub open spec fn account_bounded(a: AccountRecord, bound: int) -> bool {
    &&& -bound <= a.available <= bound
    &&& -bound <= a.held <= bound
    &&& -bound <= a.total <= bound
}

/// Every account of the ledger is well-kept and bounded.
pub open spec fn accounts_wf(accounts: Map<u16, AccountRecord>, bound: int) -> bool {
    forall|c: u16|
        #[trigger] accounts.contains_key(c) ==> account_ok(accounts[c], c) && account_bounded(
            accounts[c],
            bound,
        )
}

/// The account as first created by a deposit of `amount`.
pub open spec fn new_account(client: u16, amount: i64) -> AccountRecord {
    AccountRecord {
        client,
        available: amount as i128,
        held: 0,
        total: amount as i128,
        locked: false,
    }
}

/// `a` with its balances replaced by `available` and `held` and `total`
/// recomputed from them.
pub open spec fn with_balances(a: AccountRecord, available: int, held: int) -> AccountRecord {
    AccountRecord {
        available: available as i128,
        held: held as i128,
        total: (available + held) as i128,
        ..a
    }
}

/// Whether a deposit event takes effect on the ledger (and is therefore
/// recorded in the transaction history): it must carry a positive amount,
/// and the account, if it already exists, must not be locked.
pub open spec fn deposit_applies(accounts: Map<u16, AccountRecord>, r: Record) -> bool {
    match r.amount {
        Option::Some(a) => a > 0 && (!accounts.contains_key(r.client)
            || !accounts[r.client].locked),
        Option::None => false,
    }
}

/// The ledger after a deposit event: a positive amount credits `available`
/// of an unlocked account, creating the account if it does not exist yet;
/// anything else is a silent no-op.
pub open spec fn spec_deposit(accounts: Map<u16, AccountRecord>, r: Record) -> Map<
    u16,
    AccountRecord,
> {
    match r.amount {
        Option::Some(a) => {
            if a <= 0 {
                accounts
            } else if !accounts.contains_key(r.client) {
                accounts.insert(r.client, new_account(r.client, a))
            } else if accounts[r.client].locked {
                accounts
            } else {
                let acc = accounts[r.client];
                accounts.insert(
                    r.client,
                    with_balances(acc, acc.available + a, acc.held as int),
                )
            }
        },
        Option::None => accounts,
    }
}

/// Credits `record.amount` to the account of `record.client`, creating it
/// if absent. Zero and negative amounts, missing amounts, and locked
/// accounts leave the ledger unchanged. Returns whether the event took
/// effect (and so belongs in the transaction history).
pub fn deposit(result: &mut HashMap<u16, AccountRecord>, record: &Record) -> (applied: bool)
    requires
        old(result)@.contains_key(record.client) ==> account_ok(
            old(result)@[record.client],
            record.client,
        ) && account_bounded(old(result)@[record.client], balance_limit()),
    ensures
        final(result)@ == spec_deposit(old(result)@, *record),
        applied == deposit_applies(old(result)@, *record),
{
    if let Some(amount) = record.amount {
        if amount <= 0 {
            return false;
        }
        let existing: Option<AccountRecord> = match result.get(&record.client) {
            None => None,
            Some(a) => Some(*a),
        };
        match existing {
            None => {
                let acc = AccountRecord {
                    client: record.client,
                    available: amount as i128,
                    held: 0,
                    total: amount as i128,
                    locked: false,
                };
                result.insert(record.client, acc);
                true
            },
            Some(acc) => {
                if acc.locked {
                    false
                } else {
                    let new_available = acc.available + amount as i128;
                    let new_acc = AccountRecord {
                        available: new_available,
                        total: new_available + acc.held,
                        ..acc
                    };
                    result.insert(record.client, new_acc);
                    true
                }
            },
        }
    } else {
        false
    }
}

/// Whether a withdrawal event is recorded in the transaction history: it
/// must carry an amount and address an existing account. History records
/// intent, not success — an insufficient-funds withdrawal still consumes
/// its `tx` identifier.
pub open spec fn withdrawal_recorded(accounts: Map<u16, AccountRecord>, r: Record) -> bool {
    r.amount is Some && accounts.contains_key(r.client)
}

/// The ledger after a withdrawal event: the amount is debited from
/// `available` only when the account exists, is not locked, and has
/// sufficient available funds; anything else is a silent no-op.
pub open spec fn spec_withdraw(accounts: Map<u16, AccountRecord>, r: Record) -> Map<
    u16,
    AccountRecord,
> {
    match r.amount {
        Option::Some(a) => {
            if !accounts.contains_key(r.client) {
                accounts
            } else if accounts[r.client].locked {
                accounts
            } else if accounts[r.client].available >= a {
                let acc = accounts[r.client];
                accounts.insert(
                    r.client,
                    with_balances(acc, acc.available - a, acc.held as int),
                )
            } else {
                accounts
            }
        },
        Option::None => accounts,
    }
}

/// Debits `record.amount` from the account of `record.client` when the
/// account exists, is unlocked, and has at least that much available;
/// otherwise the ledger is unchanged. Returns whether the event belongs in
/// the transaction history (the account existed and an amount was given,
/// regardless of whether funds sufficed).
pub fn withdraw(result: &mut HashMap<u16, AccountRecord>, record: &Record) -> (recorded: bool)
    requires
        old(result)@.contains_key(record.client) ==> account_ok(
            old(result)@[record.client],
            record.client,
        ) && account_bounded(old(result)@[record.client], balance_limit()),
    ensures
        final(result)@ == spec_withdraw(old(result)@, *record),
        recorded == withdrawal_recorded(old(result)@, *record),
{
    if let Some(amount) = record.amount {
        let existing: Option<AccountRecord> = match result.get(&record.client) {
            None => None,
            Some(a) => Some(*a),
        };
        match existing {
            None => false,
            Some(acc) => {
                if acc.locked {
                    true
                } else if acc.available >= amount as i128 {
                    let new_available = acc.available - amount as i128;
                    let new_acc = AccountRecord {
                        available: new_available,
                        total: new_available + acc.held,
                        ..acc
                    };
                    result.insert(record.client, new_acc);
                    true
                } else {
                    true
                }
            },
        }
    } else {
        false
    }
}

/// Whether a dispute event takes effect: the account exists and is not
/// locked, the `(client, tx)` pair is not already under dispute, and the
/// transaction history holds a balance-affecting event with an amount for
/// exactly that pair.
pub open spec fn dispute_applies(
    accounts: Map<u16, AccountRecord>,
    disputed: Set<u64>,
    history: Map<u32, Record>,
    r: Record,
) -> bool {
    &&& accounts.contains_key(r.client)
    &&& !accounts[r.client].locked
    &&& !disputed.contains(spec_dispute_key(r.client, r.tx))
    &&& history.contains_key(r.tx)
    &&& history[r.tx].client == r.client
    &&& crate::records::balance_affecting(history[r.tx].tx_type)
    &&& history[r.tx].amount is Some
}

/// The ledger after a dispute event: the original amount moves from
/// `available` to `held`. The debit of `available` is deliberately
/// unguarded — disputing a withdrawal can drive `available` negative.
pub open spec fn spec_dispute_accounts(
    accounts: Map<u16, AccountRecord>,
    disputed: Set<u64>,
    history: Map<u32, Record>,
    r: Record,
) -> Map<u16, AccountRecord> {
    if dispute_applies(accounts, disputed, history, r) {
        let a = history[r.tx].amount->0;
        let acc = accounts[r.client];
        accounts.insert(r.client, with_balances(acc, acc.available - a, acc.held + a))
    } else {
        accounts
    }
}

/// The dispute set after a dispute event.
pub open spec fn spec_dispute_set(
    accounts: Map<u16, AccountRecord>,
    disputed: Set<u64>,
    history: Map<u32, Record>,
    r: Record,
) -> Set<u64> {
    if dispute_applies(accounts, disputed, history, r) {
        disputed.insert(spec_dispute_key(r.client, r.tx))
    } else {
        disputed
    }
}

/// Opens a dispute against the prior transaction `record.tx` of
/// `record.client`: its amount moves from `available` to `held` and the
/// pair joins the dispute set. Any failed precondition makes the event a
/// silent no-op.
pub fn dispute(
    result: &mut HashMap<u16, AccountRecord>,
    disputed: &mut HashSet<u64>,
    processed: &HashMap<u32, Record>,
    record: &Record,
)
    requires
        old(result)@.contains_key(record.client) ==> account_ok(
            old(result)@[record.client],
            record.client,
        ) && account_bounded(old(result)@[record.client], balance_limit()),
    ensures
        final(result)@ == spec_dispute_accounts(old(result)@, old(disputed)@, processed@, *record),
        final(disputed)@ == spec_dispute_set(old(result)@, old(disputed)@, processed@, *record),
{
    // Fast-path guard: with no history at all, no dispute can match.
    if processed.is_empty() {
        return;
    }
    let acc = match result.get(&record.client) {
        None => {
            return;
        },
        Some(a) => *a,
    };
    if acc.locked {
        return;
    }
    let key = dispute_key(record.client, record.tx);
    if disputed.contains(&key) {
        return;
    }
    let entry = match processed.get(&record.tx) {
        None => {
            return;
        },
        Some(e) => *e,
    };
    if entry.client != record.client {
        return;
    }
    match entry.tx_type {
        TxType::Deposit | TxType::Withdrawal => {},
        _ => {
            return;
        },
    }
    if let Some(amount) = entry.amount {
        let new_available = acc.available - amount as i128;
        let new_held = acc.held + amount as i128;
        let new_acc = AccountRecord {
            available: new_available,
            held: new_held,
            total: new_available + new_held,
            ..acc
        };
        result.insert(record.client, new_acc);
        disputed.insert(key);
    }
}

/// Whether a resolve or chargeback event takes effect: the `(client, tx)`
/// pair is under active dispute, the account exists and is not locked, and
/// the transaction history holds the original amount for the pair.
pub open spec fn settlement_applies(
    accounts: Map<u16, AccountRecord>,
    disputed: Set<u64>,
    history: Map<u32, Record>,
    r: Record,
) -> bool {
    &&& disputed.contains(spec_dispute_key(r.client, r.tx))
    &&& accounts.contains_key(r.client)
    &&& !accounts[r.client].locked
    &&& history.contains_key(r.tx)
    &&& history[r.tx].client == r.client
    &&& history[r.tx].amount is Some
}

/// The ledger after a resolve event: the disputed amount moves back from
/// `held` to `available`.
pub open spec fn spec_resolve_accounts(
    accounts: Map<u16, AccountRecord>,
    disputed: Set<u64>,
    history: Map<u32, Record>,
    r: Record,
) -> Map<u16, AccountRecord> {
    if settlement_applies(accounts, disputed, history, r) {
        let a = history[r.tx].amount->0;
        let acc = accounts[r.client];
        accounts.insert(r.client, with_balances(acc, acc.available + a, acc.held - a))
    } else {
        accounts
    }
}

/// The dispute set after a resolve event.
pub open spec fn spec_resolve_set(
    accounts: Map<u16, AccountRecord>,
    disputed: Set<u64>,
    history: Map<u32, Record>,
    r: Record,
) -> Set<u64> {
    if settlement_applies(accounts, disputed, history, r) {
        disputed.remove(spec_dispute_key(r.client, r.tx))
    } else {
        disputed
    }
}

/// Closes the dispute on `(record.client, record.tx)` in the account
/// holder's favour: the held amount returns to `available` and the pair
/// leaves the dispute set. An unmatched resolve is a silent no-op.
pub fn resolve(
    result: &mut HashMap<u16, AccountRecord>,
    disputed: &mut HashSet<u64>,
    processed: &HashMap<u32, Record>,
    record: &Record,
)
    requires
        old(result)@.contains_key(record.client) ==> account_ok(
            old(result)@[record.client],
            record.client,
        ) && account_bounded(old(result)@[record.client], balance_limit()),
    ensures
        final(result)@ == spec_resolve_accounts(old(result)@, old(disputed)@, processed@, *record),
        final(disputed)@ == spec_resolve_set(old(result)@, old(disputed)@, processed@, *record),
{
    let key = dispute_key(record.client, record.tx);
    if !disputed.contains(&key) {
        return;
    }
    let acc = match result.get(&record.client) {
        None => {
            return;
        },
        Some(a) => *a,
    };
    if acc.locked {
        return;
    }
    let entry = match processed.get(&record.tx) {
        None => {
            return;
        },
        Some(e) => *e,
    };
    if entry.client != record.client {
        return;
    }
    if let Some(amount) = entry.amount {
        let new_available = acc.available + amount as i128;
        let new_held = acc.held - amount as i128;
        let new_acc = AccountRecord {
            available: new_available,
            held: new_held,
            total: new_available + new_held,
            ..acc
        };
        result.insert(record.client, new_acc);
        disputed.remove(&key);
    }
}

/// The ledger after a chargeback event: the disputed amount leaves `held`,
/// but only under the guard `held >= amount`; the account is locked
/// unconditionally once the preconditions pass, even when that guard
/// withholds the deduction.
pub open spec fn spec_chargeback_accounts(
    accounts: Map<u16, AccountRecord>,
    disputed: Set<u64>,
    history: Map<u32, Record>,
    r: Record,
) -> Map<u16, AccountRecord> {
    if settlement_applies(accounts, disputed, history, r) {
        let a = history[r.tx].amount->0;
        let acc = accounts[r.client];
        let debited = if acc.held >= a {
            with_balances(acc, acc.available as int, acc.held - a)
        } else {
            acc
        };
        accounts.insert(r.client, AccountRecord { locked: true, ..debited })
    } else {
        accounts
    }
}

/// The dispute set after a chargeback event.
pub open spec fn spec_chargeback_set(
    accounts: Map<u16, AccountRecord>,
    disputed: Set<u64>,
    history: Map<u32, Record>,
    r: Record,
) -> Set<u64> {
    if settlement_applies(accounts, disputed, history, r) {
        disputed.remove(spec_dispute_key(r.client, r.tx))
    } else {
        disputed
    }
}

/// Closes the dispute on `(record.client, record.tx)` against the account
/// holder: the held amount is written off (when `held` covers it), the
/// pair leaves the dispute set, and the account is locked permanently. An
/// unmatched chargeback is a silent no-op.
pub fn chargeback(
    result: &mut HashMap<u16, AccountRecord>,
    disputed: &mut HashSet<u64>,
    processed: &HashMap<u32, Record>,
    record: &Record,
)
    requires
        old(result)@.contains_key(record.client) ==> account_ok(
            old(result)@[record.client],
            record.client,
        ) && account_bounded(old(result)@[record.client], balance_limit()),
    ensures
        final(result)@ == spec_chargeback_accounts(
            old(result)@,
            old(disputed)@,
            processed@,
            *record,
        ),
        final(disputed)@ == spec_chargeback_set(old(result)@, old(disputed)@, processed@, *record),
{
    let key = dispute_key(record.client, record.tx);
    if !disputed.contains(&key) {
        return;
    }
    let acc = match result.get(&record.client) {
        None => {
            return;
        },
        Some(a) => *a,
    };
    if acc.locked {
        return;
    }
    let entry = match processed.get(&record.tx) {
        None => {
            return;
        },
        Some(e) => *e,
    };
    if entry.client != record.client {
        return;
    }
    if let Some(amount) = entry.amount {
        let debited = if acc.held >= amount as i128 {
            let new_held = acc.held - amount as i128;
            AccountRecord { held: new_held, total: acc.available + new_held, ..acc }
        } else {
            acc
        };
        result.insert(record.client, AccountRecord { locked: true, ..debited });
        disputed.remove(&key);
    }
}

/// One step of the replay state machine: the effect of a single event on
/// the whole state. A `Deposit` or `Withdrawal` whose `tx` already exists
/// anywhere in the transaction history is dropped before its handler runs.
pub open spec fn spec_step(s: LedgerState, r: Record) -> LedgerState {
    match r.tx_type {
        TxType::Deposit => if s.history.contains_key(r.tx) {
            s
        } else {
            LedgerState {
                accounts: spec_deposit(s.accounts, r),
                history: if deposit_applies(s.accounts, r) {
                    s.history.insert(r.tx, r)
                } else {
                    s.history
                },
                disputed: s.disputed,
            }
        },
        TxType::Withdrawal => if s.history.contains_key(r.tx) {
            s
        } else {
            LedgerState {
                accounts: spec_withdraw(s.accounts, r),
                history: if withdrawal_recorded(s.accounts, r) {
                    s.history.insert(r.tx, r)
                } else {
                    s.history
                },
                disputed: s.disputed,
            }
        },
        TxType::Dispute => LedgerState {
            accounts: spec_dispute_accounts(s.accounts, s.disputed, s.history, r),
            history: s.history,
            disputed: spec_dispute_set(s.accounts, s.disputed, s.history, r),
        },
        TxType::Resolve => LedgerState {
            accounts: spec_resolve_accounts(s.accounts, s.disputed, s.history, r),
            history: s.history,
            disputed: spec_resolve_set(s.accounts, s.disputed, s.history, r),
        },
        TxType::Chargeback => LedgerState {
            accounts: spec_chargeback_accounts(s.accounts, s.disputed, s.history, r),
            history: s.history,
            disputed: spec_chargeback_set(s.accounts, s.disputed, s.history, r),
        },
    }
}

/// The state before any event: no accounts, no history, no disputes.
pub open spec fn initial_state() -> LedgerState {
    LedgerState { accounts: Map::empty(), history: Map::empty(), disputed: Set::empty() }
}

/// The state after replaying a whole event sequence, left to right.
pub open spec fn spec_replay(events: Seq<Record>) -> LedgerState
    decreases events.len(),
{
    if events.len() == 0 {
        initial_state()
    } else {
        spec_step(spec_replay(events.drop_last()), events.last())
    }
}

/// Well-formedness of the replay state after `n` events: every account
/// keeps its bookkeeping invariant, and each balance field is bounded by
/// `n` times the largest possible event amount.
pub open spec fn state_wf(s: LedgerState, n: int) -> bool {
    accounts_wf(s.accounts, n * amount_limit())
}

/// One event moves each balance field of one account by at most one
/// amount, so a well-formed state stays well-formed with one more event's
/// worth of headroom.
pub proof fn lemma_step_preserves_wf(s: LedgerState, r: Record, n: int)
    requires
        0 <= n,
        (n + 1) * amount_limit() <= i128::MAX,
        state_wf(s, n),
    ensures
        state_wf(spec_step(s, r), n + 1),
{
    let bound0 = n * amount_limit();
    let bound1 = (n + 1) * amount_limit();
    assert(bound0 + amount_limit() == bound1) by (nonlinear_arith)
        requires
            bound0 == n * amount_limit(),
            bound1 == (n + 1) * amount_limit(),
    ;
    assert(0 <= bound0 <= bound1) by (nonlinear_arith)
        requires
            0 <= n,
            bound0 == n * amount_limit(),
            bound1 == (n + 1) * amount_limit(),
    ;
    let s1 = spec_step(s, r);
    assert forall|c: u16| s1.accounts.contains_key(c) implies account_ok(s1.accounts[c], c)
        && account_bounded(s1.accounts[c], bound1) by {
        if s.accounts.contains_key(c) {
            assert(account_ok(s.accounts[c], c) && account_bounded(s.accounts[c], bound0));
        }
    }
}

/// After replaying any realizable event sequence the state is well-formed:
/// the bookkeeping invariant holds of every account, with balances bounded
/// by the number of events times the largest event amount.
pub proof fn lemma_replay_wf(events: Seq<Record>)
    requires
        events.len() * amount_limit() <= i128::MAX,
    ensures
        state_wf(spec_replay(events), events.len() as int),
    decreases events.len(),
{
    if events.len() == 0 {
        assert(state_wf(initial_state(), 0));
    } else {
        assert((events.len() - 1) * amount_limit() <= i128::MAX) by (nonlinear_arith)
            requires
                events.len() * amount_limit() <= i128::MAX,
        ;
        lemma_replay_wf(events.drop_last());
        lemma_step_preserves_wf(spec_replay(events.drop_last()), events.last(), events.len() - 1);
    }
}

/// Replays an ordered event sequence and returns the final account
/// ledger: exactly the accounts of `spec_replay` over the input sequence.
pub fn process_records(records: Vec<Record>) -> (result: HashMap<u16, AccountRecord>)
    ensures
        result@ == spec_replay(records@).accounts,
{
    let mut result: HashMap<u16, AccountRecord> = HashMap::new();
    let mut processed: HashMap<u32, Record> = HashMap::new();
    let mut disputed: HashSet<u64> = HashSet::new();
    proof {
        assert(records@.take(0) =~= Seq::<Record>::empty());
    }
    let n = records.len();
    let mut i: usize = 0;
    while i < n
        invariant
            i <= n,
            n == records@.len(),
            result@ == spec_replay(records@.take(i as int)).accounts,
            processed@ == spec_replay(records@.take(i as int)).history,
            disputed@ == spec_replay(records@.take(i as int)).disputed,
            state_wf(spec_replay(records@.take(i as int)), i as int),
        decreases n - i,
    {
        let ghost pre = spec_replay(records@.take(i as int));
        let r = records[i];
        proof {
            assert(records@.take(i as int + 1).drop_last() =~= records@.take(i as int));
            assert(records@.take(i as int + 1).last() == records@[i as int]);
            assert(i as int * amount_limit() <= balance_limit()) by (nonlinear_arith)
                requires
                    0 <= i as int <= usize::MAX - 1,
            ;
            assert((i as int + 1) * amount_limit() <= i128::MAX) by (nonlinear_arith)
                requires
                    0 <= i as int <= usize::MAX - 1,
            ;
            lemma_step_preserves_wf(pre, records@[i as int], i as int);
        }
        match r.tx_type {
            TxType::Deposit => {
                if !processed.contains_key(&r.tx) {
                    let applied = deposit(&mut result, &r);
                    if applied {
                        processed.insert(r.tx, r);
                    }
                }
            },
            TxType::Withdrawal => {
                if !processed.contains_key(&r.tx) {
                    let recorded = withdraw(&mut result, &r);
                    if recorded {
                        processed.insert(r.tx, r);
                    }
                }
            },
            TxType::Dispute => dispute(&mut result, &mut disputed, &processed, &r),
            TxType::Resolve => resolve(&mut result, &mut disputed, &processed, &r),
            TxType::Chargeback => chargeback(&mut result, &mut disputed, &processed, &r),
        }
        proof {
            assert(spec_replay(records@.take(i as int + 1)) == spec_step(pre, records@[i as int]));
        }
        i += 1;
    }
    proof {
        assert(records@.take(n as int) =~= records@);
    }
    result
}

} // verus!

//! The event records the replay engine consumes.

use vstd::prelude::*;

verus! {

/// An account identifier.
pub type ClientId = u16;

/// A transaction identifier.
pub type TxId = u32;

/// One whole currency unit, expressed in the fixed-point amount scale
/// (ten-thousandths of a unit, i.e. four decimal places).
pub const SCALE: i64 = 10_000;

/// The five kinds of transaction event.
#[derive(Clone, Copy, Debug, PartialEq, Eq, Structural)]
pub enum TxType {
    Deposit,
    Withdrawal,
    Dispute,
    Resolve,
    Chargeback,
}

/// One pre-validated transaction event.
///
/// `amount` is present only for `Deposit` and `Withdrawal` events and is a
/// fixed-point value in ten-thousandths of a currency unit. `Dispute`,
/// `Resolve` and `Chargeback` reference the `tx` of a prior event and carry
/// no amount of their own.
#[derive(Clone, Copy, Debug)]
pub struct Record {
    pub tx_type: TxType,
    pub client: ClientId,
    pub tx: TxId,
    pub amount: Option<i64>,
}

/// Whether an event kind moves balances directly (and therefore occupies a
/// `tx` identifier in the transaction history).
pub open spec fn balance_affecting(t: TxType) -> bool {
    t == TxType::Deposit || t == TxType::Withdrawal
}

} // verus!

//! Failures of the store and of the migration procedure.
use vstd::prelude::*;

verus! {

/// Why a call into the store failed. Every failure ends the call with no
/// change to the store.
#[derive(Debug, Clone, Copy, PartialEq, Eq, Structural)]
pub enum MigrationError {
    /// The bytes of a record match no known record layout.
    MalformedRecord,
    /// The bytes of a slot carry an unknown tag or match no layout.
    MalformedSlot,
    /// The bulk reinterpretation found the current layout already in place.
    AlreadyMigrated,
    /// The bulk reinterpretation found no prior state at all.
    NoPriorState,
    /// A mutating call named a key that holds no record.
    RecordNotFound,
    /// The record has no unit left to sell.
    SoldOut,
    /// The attached deposit differs from the price owed.
    WrongDeposit,
    /// A new record must offer at least one unit.
    ZeroAmount,
}

} // verus!

use vstd::prelude::*;

verus! {

/// Every failure an operation can report. All errors are terminal for the
/// current invocation: nothing is persisted once one is returned.
#[derive(Clone, Debug, PartialEq)]
pub enum ContractError {
    /// The caller does not match the recorded owner on an owner-gated call.
    Unauthorized {},
    /// A tendered coin used a denomination other than the required one.
    IncorrectNativeDenom { provided: String, required: String },
    InsufficientFunds {},
    /// Tendered funds carry a foreign denomination, or the summed matching
    /// amount disagrees with the caller-declared amount.
    InvalidFunds {},
    /// An intermediate of the conversion exceeded the 128-bit range.
    NumericOverflow {},
}

} // verus!

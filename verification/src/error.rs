use vstd::prelude::*;

verus! {

/// Why an operation was refused. A refused operation changes nothing.
#[derive(Clone, Copy, Debug, PartialEq, Eq, Hash, Structural)]
pub enum LedgerError {
    /// The caller is not a teacher.
    Unauthorized,
    /// No record was ever issued under the given number.
    NotFound,
    /// The constructor has already run on this ledger.
    AlreadyInitialized,
}

} // verus!

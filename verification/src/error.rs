use vstd::prelude::*;

verus! {

/// Everything a lifecycle operation can fail with. Every failure leaves the
/// obligation record exactly as it was: no partial effect survives.
#[derive(Clone, Copy, Debug, PartialEq, Eq, Structural)]
pub enum Error {
    /// The creator of an obligation must differ from its payer.
    IdentityConflict,
    /// A recurrent obligation needs a positive installment interval.
    InvalidSchedule,
    /// The acceptor did not acknowledge the obligation's recurrence flag.
    RecurrenceMismatch,
    /// The caller is not the principal entitled to this operation, or the
    /// obligation is not in a state where the operation is permitted.
    NotAuthorized,
    /// A computed value would not fit the numeric range.
    ArithmeticOverflow,
    /// Withdrawal was requested before the obligation became eligible.
    TooEarly,
    /// The obligation is not in the Accepted state.
    NotAccepted,
    /// No installments remain to withdraw.
    NothingDue,
    /// The escrow account cannot cover a requested transfer; raised by the
    /// transfer collaborator, never by the engine itself.
    InsufficientFunds,
    /// A live obligation already exists for this (creator, payer) pair.
    DuplicateObligation,
}

} // verus!

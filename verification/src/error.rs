//! Errors reported by the engine's commands.

use vstd::prelude::*;

verus! {

/// Why a record or a request was rejected.
#[derive(Clone, Copy, Debug, PartialEq, Eq, Structural)]
pub enum ValidationReason {
    /// A record's name is empty.
    EmptyName,
    /// A client's email address is malformed.
    InvalidEmail,
    /// A client's interactions are not in chronological order.
    InteractionsOutOfOrder,
    /// A template's subject is empty.
    EmptySubject,
    /// A configuration value is out of range.
    InvalidConfig,
    /// The queued email is being sent right now and cannot be cancelled.
    InFlight,
    /// The queued email has already reached a terminal state.
    AlreadyTerminal,
    /// Only an abandoned email can be retried by hand.
    NotAbandoned,
    /// An outcome was reported for an email that is not being sent.
    NotSending,
}

/// An error returned by a command. No command changes any state when it
/// returns an error.
#[derive(Clone, Copy, Debug, PartialEq, Eq, Structural)]
pub enum EngineError {
    /// No record has the given identifier.
    NotFound,
    /// The input was rejected, for the given reason.
    Validation(ValidationReason),
}

} // verus!

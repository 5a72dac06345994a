use vstd::prelude::*;

verus! {

/// The unified error taxonomy of the data-access layer.
///
/// Absence of a record is never an error: lookup operations report it as an
/// empty optional. The two lifecycle variants (`AlreadyInitialized`,
/// `NotInitialized`) signal startup-ordering bugs: they are deterministic
/// precondition violations, not transient conditions.
#[derive(Clone, Copy, Debug, PartialEq, Eq, Structural)]
pub enum Error {
    /// A second initialization attempt after the one-shot guard was claimed.
    AlreadyInitialized,
    /// A connection was requested before the pool was published.
    NotInitialized,
    /// Invalid connection configuration or pool build failure; fatal at startup.
    Configuration,
    /// Connection checkout failure: the pool is exhausted.
    Connection,
    /// Migration runner failure; fatal at startup, nothing is applied.
    Migration,
    /// A per-operation backing-store failure, surfaced to the caller.
    Store,
    /// Aggregation output did not match the caller's target shape.
    Decode,
    /// An entity-level constraint was violated before a write was attempted.
    Validation,
}

} // verus!

use vstd::prelude::*;

verus! {

/// Every failure in the batching pipeline is fatal to the current round;
/// the variants only classify it for the caller.
#[derive(Clone, Debug, PartialEq, Eq)]
pub enum BatchError {
    /// A persisted document is malformed or cannot be produced.
    ConfigError,
    /// A symbolic commitment name has no match; `known` lists the group
    /// names that were searched.
    LookupError { name: String, known: Vec<String> },
    /// Inputs violate a structural precondition (mismatched circuit sizes,
    /// too few proofs for a continuation chain).
    PreconditionViolation,
    /// The delegated proving engine reported a failure.
    EngineError,
    /// A disk read or write of cached material failed.
    CacheIOError,
    /// A stored Merkle record disagrees with its recomputation.
    IntegrityError,
}

} // verus!

use vstd::prelude::*;

verus! {

/// Failure classes of the forward computation. None of them is retried: each
/// points to a configuration or a shape fault, not to a transient condition.
#[derive(Debug, Clone, Copy, PartialEq, Eq, Structural)]
pub enum ModelError {
    /// A tensor dimension contract was violated.
    ShapeMismatch,
    /// A named weight is absent from the weight provider.
    MissingWeight,
    /// The hyperparameters or positions cannot be served (head counts that do
    /// not divide, positions past the rotary table).
    UnsupportedConfiguration,
    /// The tensor backend reported a fault.
    NumericBackendFailure,
}

} // verus!

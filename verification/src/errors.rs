//! Error taxonomy of the dynamics engine.

use vstd::prelude::*;

verus! {

/// Everything that a call into the engine can report.
///
/// - `InvalidIndex`: a sparse structure is malformed (a coordinate lies
///   outside the matrix); the current call is aborted.
/// - `ShapeMismatch`: tensors that must broadcast together do not agree
///   in size; a programmer error, surfaced immediately.
/// - `IntegrationStalled`: the adaptive integrator shrank its step over
///   and over without ever producing an acceptable step; surfaced to the
///   caller instead of looping forever, and never paired with a partial
///   trajectory.
#[derive(Clone, Copy, Debug, PartialEq, Eq, Structural)]
pub enum EngineError {
    InvalidIndex,
    ShapeMismatch,
    IntegrationStalled,
}

impl EngineError {
    /// A human-readable rendering, for callers that report failures.
    pub fn describe(&self) -> (s: &'static str)
        ensures
            s@ =~= match *self {
                EngineError::InvalidIndex => "invalid sparse index"@,
                EngineError::ShapeMismatch => "tensor shapes do not broadcast"@,
                EngineError::IntegrationStalled => "integration step size collapsed"@,
            },
    {
        match self {
            EngineError::InvalidIndex => "invalid sparse index",
            EngineError::ShapeMismatch => "tensor shapes do not broadcast",
            EngineError::IntegrationStalled => "integration step size collapsed",
        }
    }
}

} // verus!

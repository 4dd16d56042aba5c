//! The engine's error taxonomy.
//!
//! Every failure is detected before any row is processed and aborts the whole
//! call — there are no partial results and no retryable class. Null rows are
//! not errors; they flow through the engine unchanged.

use vstd::prelude::*;

verus! {

/// A failure of one engine call.
#[derive(Clone, Debug, PartialEq, Eq)]
pub enum EngineError {
    /// Configuration error: the norm exponent `p` was below `1.0` (or not a
    /// number at all).
    InvalidP,
    /// Configuration error: the requested normalization axis is not a name
    /// the engine knows. Carries the offending name.
    UnsupportedAxis(String),
    /// Not-implemented error: the horizontal axis is a known, deliberate gap,
    /// reported distinctly from misuse.
    HorizontalNotImplemented,
    /// Type-mismatch error: the column's element type is outside the four
    /// supported numeric kinds. Carries the offending type's name.
    UnsupportedType(String),
}

impl EngineError {
    /// Whether this failure is a configuration error (as opposed to the
    /// deliberate not-implemented gap or a type mismatch).
    pub open spec fn spec_is_configuration(self) -> bool {
        self is InvalidP || self is UnsupportedAxis
    }

    /// Classifies this failure as a configuration error or not.
    pub fn is_configuration(&self) -> (b: bool)
        ensures
            b == self.spec_is_configuration(),
    {
        match self {
            EngineError::InvalidP => true,
            EngineError::UnsupportedAxis(_) => true,
            EngineError::HorizontalNotImplemented => false,
            EngineError::UnsupportedType(_) => false,
        }
    }
}

} // verus!

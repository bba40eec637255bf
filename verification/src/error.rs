//! The error kinds that fallible tensor operations return.  Every failure is
//! reported as plain data; nothing here panics.

use vstd::prelude::*;

verus! {

/// The single error type of the tensor core.  The first violated
/// precondition of an operation determines the one error returned.
#[derive(Debug, Clone)]
pub enum TensorError {
    /// A reshape or slice assignment with incompatible element counts or
    /// axis lengths.
    ShapeMismatch,
    /// Slice or view bounds outside the tensor's shape.
    IndexOutOfRange,
    /// Typed access, stacking or a zero fill with a wrong or inconsistent
    /// element kind.
    KindMismatch,
    /// No conversion rule between the two kinds.
    UnsupportedCast,
    /// A string could not be parsed as the target kind; carries the
    /// offending text.
    ParseError(String),
    /// A symbolic dimension was cast to a concrete numeric kind before it
    /// was resolved.
    UnresolvedDimension,
    /// A scalar-only operation was applied to a tensor of nonzero rank.
    RankMismatch,
    /// An invalid size or alignment combination.
    AllocationError,
}

impl TensorError {
    /// A short human-readable description of the error kind.
    pub fn message(&self) -> (r: String)
        ensures
            self is ParseError ==> r@ == self->ParseError_0@,
    {
        match self {
            TensorError::ShapeMismatch => "shape mismatch".to_owned(),
            TensorError::IndexOutOfRange => "index out of range".to_owned(),
            TensorError::KindMismatch => "element kind mismatch".to_owned(),
            TensorError::UnsupportedCast => "unsupported cast".to_owned(),
            TensorError::ParseError(s) => s.clone(),
            TensorError::UnresolvedDimension => "unresolved symbolic dimension".to_owned(),
            TensorError::RankMismatch => "rank mismatch".to_owned(),
            TensorError::AllocationError => "invalid allocation".to_owned(),
        }
    }
}

} // verus!

use vstd::prelude::*;

verus! {

/// The kinds of failure that the library reports.
#[derive(Clone, Copy, Debug, PartialEq, Eq, Structural)]
pub enum ErrorKind {
    /// An input vector's length differs from the visible size, or the
    /// inputs and labels of a batch differ in number.
    DimensionMismatch,
    /// A label outside `[1, max_label]`.
    InvalidLabel,
    /// A training epoch was asked for on no examples.
    EmptyBatch,
    /// A size or a step count that must be positive is zero.
    InvalidConfiguration,
    /// A line of a label file is not an unsigned integer.
    MalformedLabels,
    /// An input file is not valid csv, or one of its fields is not a byte value.
    MalformedInputs,
}

/// An error of the library, tagged with its kind.
#[derive(Clone, Copy, Debug, PartialEq, Eq, Structural)]
pub struct RBMError(pub ErrorKind);

impl RBMError {
    /// A short description of the error, for a user.
    pub fn message(&self) -> &'static str {
        match self.0 {
            ErrorKind::DimensionMismatch => "dimension mismatch",
            ErrorKind::InvalidLabel => "invalid label",
            ErrorKind::EmptyBatch => "empty batch",
            ErrorKind::InvalidConfiguration => "invalid configuration",
            ErrorKind::MalformedLabels => "malformed label file",
            ErrorKind::MalformedInputs => "malformed input file",
        }
    }
}

} // verus!

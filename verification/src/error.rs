//! The errors that abort configuration or synthesis.
use vstd::prelude::*;

verus! {

/// A fault in how the circuit is declared. The declaration has to be
/// corrected before any run.
#[derive(Clone, Copy, Debug, PartialEq, Eq, Structural)]
pub enum ConfigurationError {
    /// A declaration was made after the constraint system was frozen.
    Frozen,
    /// A column was named that was never declared, or whose kind does not
    /// fit the use made of it.
    UndeclaredColumn,
    /// A selector was named that was never declared.
    UndeclaredSelector,
    /// Equality was enabled twice on one column.
    DuplicateEquality,
    /// A cell on a column without equality enabled was put under an equality
    /// constraint.
    EqualityNotEnabled,
    /// A simple selector was given to a second gate, or to a lookup.
    SelectorMisuse,
    /// A table was loaded into a number of columns other than its width.
    TableWidthMismatch,
}

/// A fault met while the witness is laid out.
#[derive(Clone, Copy, Debug, PartialEq, Eq, Structural)]
pub enum SynthesisError {
    /// A public input was asked for beyond the end of its column.
    InstanceOutOfBounds,
    /// A cell was written a second time.
    CellAlreadyAssigned,
}

/// Any fault that aborts a run before checking.
#[derive(Clone, Copy, Debug, PartialEq, Eq, Structural)]
pub enum Error {
    Configuration(ConfigurationError),
    Synthesis(SynthesisError),
}

} // verus!

//! Addresses in the matrix: columns, selectors and cells.
use vstd::prelude::*;

verus! {

/// What a column holds.
#[derive(Clone, Copy, Debug, PartialEq, Eq, Hash, Structural)]
pub enum ColumnKind {
    /// Witness values.
    Advice,
    /// Constants fixed by the circuit.
    Fixed,
    /// Public inputs.
    Instance,
    /// One column of a lookup table.
    LookupTable,
}

/// A column, identified by its kind and its index among columns of that kind.
#[derive(Clone, Copy, Debug, PartialEq, Eq, Hash, Structural)]
pub struct Column {
    pub kind: ColumnKind,
    pub index: usize,
}

/// A per-row switch for a gate or a lookup argument. A simple selector serves
/// one gate; a complex one may also guard lookups.
#[derive(Clone, Copy, Debug, PartialEq, Eq, Hash, Structural)]
pub struct Selector {
    pub index: usize,
    pub complex: bool,
}

/// One cell of the matrix: a column and an absolute row.
#[derive(Clone, Copy, Debug, PartialEq, Eq, Hash, Structural)]
pub struct Cell {
    pub column: Column,
    pub row: usize,
}

impl Column {
    /// Whether cells of this column are written during synthesis.
    pub open spec fn is_assignable(self) -> bool {
        self.kind == ColumnKind::Advice || self.kind == ColumnKind::Fixed
    }
}

} // verus!

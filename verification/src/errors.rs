//! Failure kinds surfaced by commands and cell evaluations.

use vstd::prelude::*;

verus! {

/// Everything that a command or a cell evaluation can fail with.
#[derive(Clone, Copy, PartialEq, Eq, Structural, Debug)]
pub enum CellError {
    /// Unknown graph / gate / link / port / monitor id.
    LookupMiss,
    /// Logical or arithmetic operation on differently sized vectors.
    WidthMismatch,
    /// A literal or width outside what the encoding supports.
    UnsupportedEncoding,
    /// An operator did not receive a required named input.
    MissingInput,
    /// Gate parameters lacked a mandatory field for the chosen type.
    ParamMissing,
    /// The cell type string is not in the library.
    UnknownCellType,
}

} // verus!

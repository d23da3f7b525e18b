//! Error taxonomy of the layout core: malformed call inputs and
//! accessor misuse are reported to the immediate caller; nothing is
//! retried internally.

use vstd::prelude::*;

verus! {

/// A failure local to one call of the layout core.
#[derive(Clone, Copy, Debug, PartialEq, Eq, Structural)]
pub enum GraphError {
    /// A call input was malformed or out of range: a vertex or dimension
    /// count too small, a degree bound below two, or an edge endpoint
    /// that does not index a row of the position matrix.
    InvalidParameter,
    /// A read accessor was asked for a row index outside the matrix.
    IndexOutOfBounds,
}

} // verus!

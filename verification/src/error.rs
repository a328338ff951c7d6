use vstd::prelude::*;

verus! {

/// Errors of the row-access core.
///
/// Per-field rendering mismatches are not errors: the materializer always
/// produces a value, falling back to a structural rendering.
#[derive(Clone, Copy, Debug, PartialEq, Eq, Structural)]
pub enum ViewerError {
    /// The table could not be opened or is not a valid columnar file.
    OpenError,
    /// The requested global row index lies at or beyond the end of the table.
    IndexOutOfRange,
    /// A row group failed to decode, which indicates file corruption.
    DecodeError,
}

} // verus!

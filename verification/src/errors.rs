use vstd::prelude::*;

use crate::header::AxisKeyStub;

verus! {

/// Everything that can go wrong while planning or carrying out an axis
/// rotation. Every variant is recoverable: the library never panics and
/// never terminates the process.
#[derive(Debug, PartialEq, Eq)]
pub enum RotateError {
    /// An axis number outside `1..=naxis` was handed to the index mapper.
    InvalidAxis,
    /// The explicit axis-order specification holds a character that is not
    /// a decimal digit; the offending character is carried along.
    ModeParseError(char),
    /// The explicit axis-order specification has the wrong length:
    /// expected length (the cube's axis count) first, actual length second.
    ModeLengthMismatch(usize, usize),
    /// The explicit axis-order specification is a digit sequence of the
    /// right length but not a permutation of `1..=naxis`.
    InvalidPermutation,
    /// No axis type key held the searched-for value; the value is carried.
    AxisNotFound(String),
    /// A required per-axis key (stub plus file-axis number) is absent from
    /// the source header.
    KeyMissing(AxisKeyStub, usize),
    /// The destination path exists and overwriting was not requested.
    AlreadyExists(String),
}

} // verus!

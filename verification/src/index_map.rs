use vstd::prelude::*;

use crate::errors::RotateError;

verus! {

/// Array position, in storage order, of the axis with 1-based file-axis
/// number `fits_index` in a cube of `naxis` axes. File-axis numbers count
/// from the fastest-varying axis; array positions count from the
/// slowest-varying axis, so the two orders are reversed.
pub open spec fn array_position_of(fits_index: int, naxis: int) -> int {
    naxis - fits_index
}

/// File-axis number of the axis at storage-order array position `pos` in a
/// cube of `naxis` axes; the inverse of [`array_position_of`].
pub open spec fn file_axis_of(pos: int, naxis: int) -> int {
    naxis - pos
}

/// Converts a 1-based file-axis number to a 0-based storage-order array
/// position. An axis number outside `1..=naxis` is rejected rather than
/// silently mapped out of bounds.
pub fn fits_index_to_array_index(fits_index: usize, naxis: usize) -> (r: Result<
    usize,
    RotateError,
>)
    ensures
        1 <= fits_index <= naxis ==> (r matches Ok(pos) && pos as int == array_position_of(
            fits_index as int,
            naxis as int,
        )),
        !(1 <= fits_index <= naxis) ==> (r matches Err(e) && e == RotateError::InvalidAxis),
{
    if 1 <= fits_index && fits_index <= naxis {
        Ok(naxis - fits_index)
    } else {
        Err(RotateError::InvalidAxis)
    }
}

/// The file-axis-number / array-position correspondence is a bijection:
/// over `fits_index` in `1..=naxis` the array positions cover `0..naxis`
/// exactly once, and the two conversions invert each other.
pub proof fn lemma_index_map_bijective(naxis: int)
    requires
        naxis >= 1,
    ensures
        forall|f: int|
            1 <= f <= naxis ==> {
                &&& 0 <= #[trigger] array_position_of(f, naxis) < naxis
                &&& file_axis_of(array_position_of(f, naxis), naxis) == f
            },
        forall|a: int|
            0 <= a < naxis ==> {
                &&& 1 <= #[trigger] file_axis_of(a, naxis) <= naxis
                &&& array_position_of(file_axis_of(a, naxis), naxis) == a
            },
{
}

} // verus!

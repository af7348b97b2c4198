use vstd::prelude::*;

use crate::cube::{is_permuted, to_int_seq, Cube};
use crate::errors::RotateError;
use crate::header::{
    all_axis_keys_present, remap_header, remap_missing_key, remapped_header_ok, Header,
};
use crate::planner::{
    digit_values, explicit_array_order, explicit_spec_error, explicit_spec_valid,
    is_first_type_gap, is_first_type_match, no_type_match, plan_rotation, relocate_last_order,
    swap_file_map, RotateMode,
};

verus! {

/// Guards the destination: an existing path is refused unless overwriting
/// was asked for. Whether the path exists is the caller's finding; the
/// file system itself stays outside the library.
pub fn check_file_exists(filename: &str, exists: bool, overwrite: bool) -> (r: Result<
    bool,
    RotateError,
>)
    ensures
        exists && !overwrite ==> (r matches Err(e) && (e matches RotateError::AlreadyExists(p)
            && p@ == filename@)),
        !(exists && !overwrite) ==> (r matches Ok(b) && b),
{
    if !overwrite && exists {
        Err(RotateError::AlreadyExists(filename.to_owned()))
    } else {
        Ok(true)
    }
}

/// Runs the whole in-memory rotation: derives the plan from the caller's
/// mode, reorders the cube's axes by it, and builds the remapped header.
/// The source header is only read; the cube is consumed and replaced. Every
/// failure is returned, never thrown: a bad explicit specification, a
/// designated axis not found, or a per-axis key missing from the source.
pub fn rotate_cube<T: Copy>(cube: Cube<T>, header: &Header, mode: &RotateMode) -> (r: Result<
    (Cube<T>, Header),
    RotateError,
>)
    requires
        cube.wf(),
    ensures
        r matches Ok(pair) ==> pair.0.wf(),
        mode matches RotateMode::Explicit(m) ==> {
            &&& !explicit_spec_valid(m@, cube.spec_naxis()) ==> (r matches Err(e) && e
                == explicit_spec_error(m@, cube.spec_naxis()))
            &&& explicit_spec_valid(m@, cube.spec_naxis()) ==> {
                &&& (r is Ok <==> all_axis_keys_present(
                    header.cards@,
                    cube.spec_naxis() as int,
                ))
                &&& r matches Ok(pair) ==> is_permuted(
                    cube,
                    explicit_array_order(digit_values(m@), cube.spec_naxis()),
                    pair.0,
                ) && remapped_header_ok(
                    header.cards@,
                    pair.1.cards@,
                    digit_values(m@),
                    cube.spec_naxis() as int,
                )
                &&& r matches Err(e) ==> remap_missing_key(
                    header.cards@,
                    cube.spec_naxis() as int,
                    e,
                )
            }
        },
        mode matches RotateMode::AutoDetect(t) ==> {
            &&& forall|i: int|
                is_first_type_match(header.cards@, cube.spec_naxis() as int, t@, i) ==> {
                    &&& (r is Ok <==> all_axis_keys_present(
                        header.cards@,
                        cube.spec_naxis() as int,
                    ))
                    &&& r matches Ok(pair) ==> is_permuted(
                        cube,
                        relocate_last_order(cube.spec_naxis(), cube.spec_naxis() - i),
                        pair.0,
                    ) && remapped_header_ok(
                        header.cards@,
                        pair.1.cards@,
                        to_int_seq(swap_file_map(cube.spec_naxis(), i)),
                        cube.spec_naxis() as int,
                    )
                    &&& r matches Err(e) ==> remap_missing_key(
                        header.cards@,
                        cube.spec_naxis() as int,
                        e,
                    )
                }
            &&& forall|i: int|
                is_first_type_gap(header.cards@, cube.spec_naxis() as int, t@, i) ==> (r matches
                Err(e) && e == RotateError::KeyMissing(
                    crate::header::AxisKeyStub::CType,
                    i as usize,
                ))
            &&& no_type_match(header.cards@, cube.spec_naxis() as int, t@) ==> (r matches Err(e)
                && (e matches RotateError::AxisNotFound(s) && s@ == t@))
        },
{
    let naxis = cube.naxis();
    let plan = match plan_rotation(mode, header, naxis) {
        Ok(p) => p,
        Err(e) => {
            return Err(e);
        },
    };
    let rotated = cube.permute(&plan.array_order);
    let new_header = match remap_header(header, &plan.file_map, naxis) {
        Ok(h) => h,
        Err(e) => {
            return Err(e);
        },
    };
    Ok((rotated, new_header))
}

} // verus!

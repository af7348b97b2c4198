use fitsrotate_rs::cube::Cube;
use fitsrotate_rs::errors::RotateError;
use fitsrotate_rs::header::{AxisKeyStub, Header};
use fitsrotate_rs::planner::{plan_rotation, RotateMode};
use fitsrotate_rs::rotate::{check_file_exists, rotate_cube};

fn sky_header(ctypes: &[&str]) -> Header {
    let mut h = Header::new();
    for (k, t) in ctypes.iter().enumerate() {
        let axis = k + 1;
        h.push_axis_card(AxisKeyStub::CType, axis, t.to_string());
        h.push_axis_card(AxisKeyStub::CRVal, axis, format!("crval{}", axis));
        h.push_axis_card(AxisKeyStub::CDelt, axis, format!("cdelt{}", axis));
        h.push_axis_card(AxisKeyStub::CRPix, axis, format!("crpix{}", axis));
        h.push_axis_card(AxisKeyStub::CUnit, axis, format!("cunit{}", axis));
    }
    h
}

fn counted_cube(shape: Vec<usize>) -> Cube<f32> {
    let len: usize = shape.iter().product();
    let data: Vec<f32> = (0..len).map(|x| x as f32).collect();
    Cube::new(shape, data).unwrap()
}

fn value_of(h: &Header, stub: AxisKeyStub, axis: usize) -> String {
    h.axis_lookup(stub, axis).unwrap().clone()
}

#[test]
fn explicit_full_reversal_keeps_shape_and_swaps_keys() {
    // Storage-order shape (4, 5, 6); requested file order 3, 2, 1 maps each
    // file axis through its array position, leaving the data unchanged while
    // the per-axis keys of file axes 1 and 3 trade numbers.
    let cube = counted_cube(vec![4, 5, 6]);
    let original = cube.data.clone();
    let header = sky_header(&["RA", "DEC", "FREQ"]);
    let mode = RotateMode::Explicit("321".to_string());
    let (rot, out) = rotate_cube(cube, &header, &mode).unwrap();
    assert_eq!(rot.shape, vec![4, 5, 6]);
    assert_eq!(rot.data, original);
    assert_eq!(value_of(&out, AxisKeyStub::CType, 1), "FREQ");
    assert_eq!(value_of(&out, AxisKeyStub::CType, 2), "DEC");
    assert_eq!(value_of(&out, AxisKeyStub::CType, 3), "RA");
    assert_eq!(value_of(&out, AxisKeyStub::CRVal, 1), "crval3");
    assert_eq!(value_of(&out, AxisKeyStub::CUnit, 3), "cunit1");
}

#[test]
fn explicit_identity_listing_reverses_storage_order() {
    // File order 1, 2, 3 translates to array positions 2, 1, 0.
    let cube = counted_cube(vec![2, 3, 4]);
    let header = sky_header(&["RA", "DEC", "FREQ"]);
    let mode = RotateMode::Explicit("123".to_string());
    let (rot, _) = rotate_cube(cube, &header, &mode).unwrap();
    assert_eq!(rot.shape, vec![4, 3, 2]);
}

#[test]
fn auto_detect_moves_frequency_axis() {
    // CTYPE3 holds the target, so file axis 3 (array position 0) moves to
    // the last array position: shape (10, 20, 30) becomes (20, 30, 10), and
    // file axes 1 and 3 trade header numbers.
    let cube = counted_cube(vec![10, 20, 30]);
    let header = sky_header(&["RA", "DEC", "FREQ"]);
    let mode = RotateMode::AutoDetect("FREQ".to_string());
    let (rot, out) = rotate_cube(cube, &header, &mode).unwrap();
    assert_eq!(rot.shape, vec![20, 30, 10]);
    assert_eq!(value_of(&out, AxisKeyStub::CType, 1), "FREQ");
    assert_eq!(value_of(&out, AxisKeyStub::CType, 2), "DEC");
    assert_eq!(value_of(&out, AxisKeyStub::CType, 3), "RA");
    assert_eq!(value_of(&out, AxisKeyStub::CRVal, 1), "crval3");
    assert_eq!(value_of(&out, AxisKeyStub::CRVal, 3), "crval1");
}

#[test]
fn auto_detect_on_middle_axis_swaps_first_two_keys() {
    // CTYPE2 holds the target on a 3-axis cube: array position 1 moves to
    // the last slot, and the header swaps file axes 1 and 2.
    let header = sky_header(&["RA", "FREQ", "DEC"]);
    let mode = RotateMode::AutoDetect("FREQ".to_string());
    let plan = plan_rotation(&mode, &header, 3).unwrap();
    assert_eq!(plan.array_order, vec![0, 2, 1]);
    assert_eq!(plan.file_map, vec![2, 1, 3]);

    let cube = counted_cube(vec![4, 5, 6]);
    let (rot, out) = rotate_cube(cube, &header, &mode).unwrap();
    assert_eq!(rot.shape, vec![4, 6, 5]);
    assert_eq!(value_of(&out, AxisKeyStub::CType, 1), "FREQ");
    assert_eq!(value_of(&out, AxisKeyStub::CType, 2), "RA");
    assert_eq!(value_of(&out, AxisKeyStub::CType, 3), "DEC");
}

#[test]
fn auto_detect_reports_a_missing_value() {
    let cube = counted_cube(vec![2, 2, 2]);
    let header = sky_header(&["RA", "DEC", "VELO"]);
    let mode = RotateMode::AutoDetect("FREQ".to_string());
    let err = rotate_cube(cube, &header, &mode).unwrap_err();
    assert_eq!(err, RotateError::AxisNotFound("FREQ".to_string()));
}

#[test]
fn auto_detect_reports_a_missing_type_key() {
    let cube = counted_cube(vec![2, 2, 2]);
    let mut header = sky_header(&["RA", "DEC", "FREQ"]);
    header.cards.retain(|c| !matches!(c.name,
        fitsrotate_rs::header::CardName::Axis(AxisKeyStub::CType, 2)));
    let mode = RotateMode::AutoDetect("FREQ".to_string());
    let err = rotate_cube(cube, &header, &mode).unwrap_err();
    assert_eq!(err, RotateError::KeyMissing(AxisKeyStub::CType, 2));
}

#[test]
fn rotation_propagates_a_missing_per_axis_key() {
    let cube = counted_cube(vec![2, 2]);
    let mut header = sky_header(&["RA", "DEC"]);
    header.cards.retain(|c| !matches!(c.name,
        fitsrotate_rs::header::CardName::Axis(AxisKeyStub::CRPix, 2)));
    let mode = RotateMode::Explicit("21".to_string());
    let err = rotate_cube(cube, &header, &mode).unwrap_err();
    assert_eq!(err, RotateError::KeyMissing(AxisKeyStub::CRPix, 2));
}

#[test]
fn rotation_rejects_a_bad_mode_string() {
    let cube = counted_cube(vec![2, 2]);
    let header = sky_header(&["RA", "DEC"]);
    let mode = RotateMode::Explicit("12345".to_string());
    let err = rotate_cube(cube, &header, &mode).unwrap_err();
    assert_eq!(err, RotateError::ModeLengthMismatch(2, 5));
}

#[test]
fn single_axis_cube_is_its_own_rotation() {
    let cube = counted_cube(vec![5]);
    let original = cube.data.clone();
    let header = sky_header(&["FREQ"]);
    let mode = RotateMode::Explicit("1".to_string());
    let (rot, out) = rotate_cube(cube, &header, &mode).unwrap();
    assert_eq!(rot.shape, vec![5]);
    assert_eq!(rot.data, original);
    assert_eq!(value_of(&out, AxisKeyStub::CType, 1), "FREQ");
}

#[test]
fn rotation_carries_other_cards_over() {
    let cube = counted_cube(vec![2, 3]);
    let mut header = sky_header(&["RA", "DEC"]);
    header.push_other_card("OBJECT".to_string(), "M31".to_string());
    let mode = RotateMode::Explicit("21".to_string());
    let (_, out) = rotate_cube(cube, &header, &mode).unwrap();
    let found = out.cards.iter().any(|c| match &c.name {
        fitsrotate_rs::header::CardName::Other(n) => n == "OBJECT" && c.value == "M31",
        _ => false,
    });
    assert!(found);
}

#[test]
fn overwrite_guard_refuses_an_existing_destination() {
    let r = check_file_exists("out.rot.fits", true, false);
    assert_eq!(r.unwrap_err(), RotateError::AlreadyExists("out.rot.fits".to_string()));
}

#[test]
fn overwrite_guard_allows_overwriting_when_asked() {
    assert_eq!(check_file_exists("out.rot.fits", true, true).unwrap(), true);
}

#[test]
fn overwrite_guard_allows_a_fresh_destination() {
    assert_eq!(check_file_exists("out.rot.fits", false, false).unwrap(), true);
}

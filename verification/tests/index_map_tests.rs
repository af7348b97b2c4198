use fitsrotate_rs::errors::RotateError;
use fitsrotate_rs::index_map::fits_index_to_array_index;

#[test]
fn maps_fastest_axis_to_last_position() {
    // File axis 1 is the fastest-varying axis, which is last in storage order.
    assert_eq!(fits_index_to_array_index(1, 3).unwrap(), 2);
}

#[test]
fn maps_middle_axis() {
    assert_eq!(fits_index_to_array_index(2, 3).unwrap(), 1);
}

#[test]
fn maps_slowest_axis_to_first_position() {
    assert_eq!(fits_index_to_array_index(3, 3).unwrap(), 0);
}

#[test]
fn maps_single_axis_cube() {
    assert_eq!(fits_index_to_array_index(1, 1).unwrap(), 0);
}

#[test]
fn covers_all_positions_once() {
    let naxis = 5;
    let mut seen = vec![false; naxis];
    for f in 1..=naxis {
        let pos = fits_index_to_array_index(f, naxis).unwrap();
        assert_eq!(pos, naxis - f);
        assert!(!seen[pos]);
        seen[pos] = true;
    }
    assert!(seen.iter().all(|&s| s));
}

#[test]
fn rejects_zero_index() {
    assert_eq!(fits_index_to_array_index(0, 3), Err(RotateError::InvalidAxis));
}

#[test]
fn rejects_index_beyond_naxis() {
    assert_eq!(fits_index_to_array_index(4, 3), Err(RotateError::InvalidAxis));
}

#[test]
fn rejects_empty_cube() {
    assert_eq!(fits_index_to_array_index(1, 0), Err(RotateError::InvalidAxis));
}

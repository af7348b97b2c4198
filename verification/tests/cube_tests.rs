use fitsrotate_rs::cube::{invert_axis_order, Cube};

fn cube_u32(shape: Vec<usize>, len: usize) -> Cube<u32> {
    let data: Vec<u32> = (0..len as u32).collect();
    Cube::new(shape, data).unwrap()
}

#[test]
fn new_accepts_matching_data_length() {
    let c = Cube::new(vec![2, 3], vec![0u32, 1, 2, 3, 4, 5]).unwrap();
    assert_eq!(c.shape, vec![2, 3]);
}

#[test]
fn new_rejects_mismatched_data_length() {
    assert!(Cube::new(vec![2, 3], vec![0u32; 5]).is_none());
}

#[test]
fn new_accepts_zero_extent() {
    let c = Cube::new(vec![2, 0, 3], Vec::<u32>::new()).unwrap();
    assert_eq!(c.data.len(), 0);
}

#[test]
fn identity_order_changes_nothing() {
    let c = cube_u32(vec![2, 3, 4], 24);
    let r = c.permute(&vec![0, 1, 2]);
    assert_eq!(r.shape, c.shape);
    assert_eq!(r.data, c.data);
}

#[test]
fn transpose_two_axes() {
    // Shape (2, 3), row-major data 0..6; new axis 0 is old axis 1.
    let c = cube_u32(vec![2, 3], 6);
    let r = c.permute(&vec![1, 0]);
    assert_eq!(r.shape, vec![3, 2]);
    assert_eq!(r.data, vec![0, 3, 1, 4, 2, 5]);
}

#[test]
fn rotate_three_axes() {
    // Shape (2, 2, 2); new order (2, 0, 1): new index (i, j, k) reads
    // old index (j, k, i).
    let c = cube_u32(vec![2, 2, 2], 8);
    let r = c.permute(&vec![2, 0, 1]);
    assert_eq!(r.shape, vec![2, 2, 2]);
    // new[i][j][k] == old[j][k][i] == 4*j + 2*k + i
    let expect: Vec<u32> = vec![0, 2, 4, 6, 1, 3, 5, 7];
    assert_eq!(r.data, expect);
}

#[test]
fn permute_works_on_float_samples() {
    let data: Vec<f32> = (0..6).map(|x| x as f32 * 0.5).collect();
    let c = Cube::new(vec![2, 3], data).unwrap();
    let r = c.permute(&vec![1, 0]);
    assert_eq!(r.shape, vec![3, 2]);
    assert_eq!(r.data, vec![0.0, 1.5, 0.5, 2.0, 1.0, 2.5]);
}

#[test]
fn inverse_of_a_cycle() {
    let inv = invert_axis_order(&vec![2, 0, 1]);
    assert_eq!(inv, vec![1, 2, 0]);
}

#[test]
fn round_trip_restores_the_cube() {
    let c = cube_u32(vec![2, 3, 4], 24);
    let order = vec![2, 0, 1];
    let inv = invert_axis_order(&order);
    let once = c.permute(&order);
    let back = once.permute(&inv);
    assert_eq!(back.shape, c.shape);
    assert_eq!(back.data, c.data);
}

#[test]
fn round_trip_with_uneven_extents() {
    let c = cube_u32(vec![1, 5, 2, 3], 30);
    let order = vec![3, 1, 0, 2];
    let inv = invert_axis_order(&order);
    let back = c.permute(&order).permute(&inv);
    assert_eq!(back.shape, c.shape);
    assert_eq!(back.data, c.data);
}

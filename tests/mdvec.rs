use mdvec::{AccessError, Mdvec};

fn grid_2x3() -> Mdvec<i32> {
    let mut m: Mdvec<i32> = Mdvec::with_capacity(&[2, 3]);
    m.replace_buffer(vec![10, 11, 12, 13, 14, 15]);
    m
}

#[test]
fn it_works() {
    let result = mdvec::add(2, 2);
    assert_eq!(result, 4);
}

#[test]
fn get_reads_row_major_cells() {
    let m = grid_2x3();
    assert_eq!(*m.get(&[0, 0]), 10);
    assert_eq!(*m.get(&[1, 2]), 15);
    assert_eq!(*m.get(&[0, 1]), 11);
    assert_eq!(*m.get(&[1, 0]), 13);
}

#[test]
fn index_operator_reads_like_get() {
    let m = grid_2x3();
    let at: &[usize] = &[1, 1];
    assert_eq!(m[at], 14);
}

#[test]
fn offset_of_three_axes() {
    let m: Mdvec<u8> = Mdvec::with_capacity(&[3, 4, 2]);
    assert_eq!(m.flat_index(&[1, 2, 1]), Ok(13));
    assert_eq!(m.flat_index(&[0, 0, 0]), Ok(0));
    assert_eq!(m.flat_index(&[2, 3, 1]), Ok(23));
}

#[test]
fn empty_shape_offset_is_zero() {
    let m: Mdvec<u8> = Mdvec::new();
    assert_eq!(m.flat_index(&[]), Ok(0));
    let n: Mdvec<u8> = Mdvec::with_capacity(&[]);
    assert_eq!(n.flat_index(&[]), Ok(0));
}

#[test]
fn index_equal_to_extent_is_out_of_bounds() {
    let m: Mdvec<u8> = Mdvec::with_capacity(&[5]);
    assert_eq!(m.flat_index(&[5]), Err(AccessError::IndexOutOfBounds));
    assert_eq!(m.flat_index(&[4]), Ok(4));
}

#[test]
fn wrong_number_of_indices_is_invalid_dimensionality() {
    let m: Mdvec<u8> = Mdvec::with_capacity(&[2, 2]);
    assert_eq!(m.flat_index(&[0]), Err(AccessError::InvalidDimensionality));
    assert_eq!(m.flat_index(&[0, 0, 0]), Err(AccessError::InvalidDimensionality));
    let e: Mdvec<u8> = Mdvec::new();
    assert_eq!(e.flat_index(&[0]), Err(AccessError::InvalidDimensionality));
}

#[test]
fn dimensionality_is_checked_before_bounds() {
    let m: Mdvec<u8> = Mdvec::with_capacity(&[2, 2]);
    assert_eq!(m.flat_index(&[9]), Err(AccessError::InvalidDimensionality));
}

#[test]
fn out_of_bounds_on_any_axis() {
    let m: Mdvec<u8> = Mdvec::with_capacity(&[3, 4, 2]);
    assert_eq!(m.flat_index(&[3, 0, 0]), Err(AccessError::IndexOutOfBounds));
    assert_eq!(m.flat_index(&[0, 4, 0]), Err(AccessError::IndexOutOfBounds));
    assert_eq!(m.flat_index(&[0, 0, 7]), Err(AccessError::IndexOutOfBounds));
}

#[test]
fn zero_extent_has_no_cells() {
    let m: Mdvec<u8> = Mdvec::with_capacity(&[3, 0]);
    assert_eq!(m.flat_index(&[0, 0]), Err(AccessError::IndexOutOfBounds));
}

#[test]
fn offsets_are_distinct_and_end_at_product_minus_one() {
    let m: Mdvec<u8> = Mdvec::with_capacity(&[2, 3]);
    let mut seen = Vec::new();
    for i in 0..2usize {
        for j in 0..3usize {
            let o = m.flat_index(&[i, j]).unwrap();
            assert!(!seen.contains(&o));
            seen.push(o);
        }
    }
    assert_eq!(seen.iter().max(), Some(&5));
    assert_eq!(m.flat_index(&[1, 2]), Ok(5));
}

#[test]
fn set_then_get_returns_value() {
    let mut m = grid_2x3();
    m.set(&[1, 0], 99);
    assert_eq!(*m.get(&[1, 0]), 99);
    assert_eq!(*m.get(&[0, 0]), 10);
    assert_eq!(*m.get(&[1, 2]), 15);
}

#[test]
fn get_mut_changes_one_cell() {
    let mut m = grid_2x3();
    *m.get_mut(&[0, 2]) += 100;
    assert_eq!(*m.get(&[0, 2]), 112);
    assert_eq!(*m.get(&[0, 1]), 11);
}

#[test]
fn replace_buffer_hands_back_previous() {
    let mut m = grid_2x3();
    let previous = m.replace_buffer(vec![0, 1, 2, 3, 4, 5]);
    assert_eq!(previous, vec![10, 11, 12, 13, 14, 15]);
    assert_eq!(*m.get(&[1, 1]), 4);
    assert_eq!(m.flat_index(&[1, 1]), Ok(4));
}

#[test]
fn one_axis_offset_is_the_index() {
    let m: Mdvec<u8> = Mdvec::with_capacity(&[7]);
    assert_eq!(m.flat_index(&[6]), Ok(6));
}

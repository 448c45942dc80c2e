use sandpiles_parallel::get::{Get, GetMut};
use sandpiles_parallel::Field;

#[test]
fn field_test_to_coords() {
    let field: Field<u8> = Field::new(10, 10);
    assert_eq!(field.to_coords(11), (1, 1));
    assert_eq!(field.to_coords(10), (0, 1));
    assert_eq!(field.to_coords(9), (9, 0));
}

#[test]
fn lib_test_to_coords() {
    let field: Field<u8> = Field::new(10, 10);
    assert_eq!(field.to_coords(11), (1, 1));
    assert_eq!(field.to_coords(10), (0, 1));
    assert_eq!(field.to_coords(9), (9, 0));
}

#[test]
fn test_new_zero_filled() {
    let field: Field<u32> = Field::new(4, 3);
    assert_eq!(field.width, 4);
    assert_eq!(field.height, 3);
    assert_eq!(field.data, vec![0u32; 12]);
    assert_eq!(field.old_data, vec![0u32; 12]);
}

#[test]
fn test_coords_round_trip() {
    let field: Field<u32> = Field::new(4, 3);
    for y in 0..3 {
        for x in 0..4 {
            let index = field.from_coords(x, y);
            assert_eq!(field.to_coords(index), (x, y));
        }
    }
}

#[test]
fn test_from_coords_checked() {
    let field: Field<u32> = Field::new(3, 2);
    assert_eq!(field.from_coords_checked(2, 1), Some(5));
    assert_eq!(field.from_coords_checked(0, 0), Some(0));
    assert_eq!(field.from_coords_checked(3, 0), None);
    assert_eq!(field.from_coords_checked(0, 2), None);
}

#[test]
fn test_get_by_flat_index() {
    let mut field: Field<u32> = Field::new(3, 2);
    field.data[4] = 7;
    assert_eq!(field.get(4usize), Some(7));
    assert_eq!(field.get(6usize), None);
}

#[test]
fn test_set_by_flat_index() {
    let mut field: Field<u32> = Field::new(3, 2);
    assert!(field.set(5usize, 9));
    assert_eq!(field.data[5], 9);
    assert!(!field.set(6usize, 9));
}

#[test]
fn test_get_by_coords_checks_both_axes() {
    let mut field: Field<u32> = Field::new(2, 3);
    field.data[5] = 11;
    assert_eq!(field.get((1usize, 2usize)), Some(11));
    // A column past the width misses, even though the flat index would
    // still land inside the buffer.
    assert_eq!(field.get((2usize, 0usize)), None);
    // A row past the height produces an index past the buffer.
    assert_eq!(field.get((1usize, 3usize)), None);
}

#[test]
fn test_set_by_coords() {
    let mut field: Field<u32> = Field::new(3, 3);
    assert!(field.set((1usize, 2usize), 4));
    assert_eq!(field.data[7], 4);
    assert!(!field.set((3usize, 0usize), 4));
    assert!(!field.set((0usize, 3usize), 4));
}

#[test]
fn test_field_equality() {
    let mut a: Field<u32> = Field::new(3, 3);
    let b = a.clone();
    assert_eq!(a, b);
    a.data[0] = 1;
    assert!(a != b);
}

use sandpiles_parallel::Field;

#[test]
fn test_put_line_horizontal() {
    let mut field: Field<u32> = Field::new(4, 1);
    field.put_line(0, 0, 2, 0);
    // The walk draws its first pixel twice and stops one short of the
    // second endpoint.
    assert_eq!(field.data, vec![20, 10, 0, 0]);
}

#[test]
fn test_put_line_horizontal_reversed() {
    let mut field: Field<u32> = Field::new(4, 1);
    field.put_line(2, 0, 0, 0);
    assert_eq!(field.data, vec![20, 10, 0, 0]);
}

#[test]
fn test_put_line_vertical() {
    let mut field: Field<u32> = Field::new(1, 4);
    field.put_line(0, 0, 0, 2);
    assert_eq!(field.data, vec![20, 10, 0, 0]);
}

#[test]
fn test_put_line_diagonal() {
    let mut field: Field<u32> = Field::new(3, 3);
    field.put_line(0, 0, 2, 2);
    assert_eq!(field.data, vec![10, 0, 0, 10, 0, 0, 0, 10, 0]);
}

#[test]
fn test_put_line_clipped_at_edge() {
    // Pixels past the grid edge are dropped; the ones on the grid are kept.
    let mut field: Field<u32> = Field::new(3, 1);
    field.put_line(0, 0, 4, 0);
    assert_eq!(field.data, vec![20, 10, 10]);
}

#[test]
fn test_put_line_adds_to_existing_grains() {
    let mut field: Field<u32> = Field::new(4, 1);
    field.data[1] = 3;
    field.put_line(0, 0, 2, 0);
    assert_eq!(field.data, vec![20, 13, 0, 0]);
}

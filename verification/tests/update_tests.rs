use rand::rngs::StdRng;
use rand::Rng;
use rand::SeedableRng;
use sandpiles_parallel::Field;

#[test]
fn test_update_iter() {
    let mut rng = StdRng::seed_from_u64(345234);
    let mut field: Field<u32> = Field::new(100, 100);
    field
        .data
        .iter_mut()
        .for_each(|cell| *cell = rng.gen_range(0..=400));
    let mut field_2 = field.clone();
    let mut field_3 = field.clone();
    let mut field_4 = field.clone();
    for _ in 0..100 {
        field.slow_update();
        field_2.update_iter();
        field_3.update_iter_branchless();
        field_4.update_parallel();
    }
    assert_eq!(field, field_2);
    assert_eq!(field_2, field_3);
    assert_eq!(field_2, field_4);
}

#[test]
fn test_step() {
    let mut field: Field<u32> = Field::new(3, 3);
    let index = field.from_coords(1, 1);
    field.data[index] = 4;
    field.update_iter();

    let mut expected_field: Field<u32> = Field::new(3, 3);
    expected_field
        .data
        .copy_from_slice(&[0, 1, 0, 1, 0, 1, 0, 1, 0]);
    assert_eq!(field.data, expected_field.data);
}

#[test]
fn test_step_all_strategies() {
    // The concrete center-cell scenario, through each strategy in turn.
    let expected = vec![0u32, 1, 0, 1, 0, 1, 0, 1, 0];
    let mut a: Field<u32> = Field::new(3, 3);
    a.data[4] = 4;
    a.slow_update();
    assert_eq!(a.data, expected);

    let mut b: Field<u32> = Field::new(3, 3);
    b.data[4] = 4;
    b.update_iter();
    assert_eq!(b.data, expected);

    let mut c: Field<u32> = Field::new(3, 3);
    c.data[4] = 4;
    c.update_iter_branchless();
    assert_eq!(c.data, expected);

    let mut d: Field<u32> = Field::new(3, 3);
    d.data[4] = 4;
    d.update_parallel();
    assert_eq!(d.data, expected);
}

#[test]
fn test_corner_boundary_loss() {
    // A toppling corner loses the two grains meant for its missing
    // neighbours: the total drops from 4 to 2.
    let mut field: Field<u32> = Field::new(3, 3);
    field.data[0] = 4;
    field.update_iter();
    assert_eq!(field.data, vec![0, 1, 0, 1, 0, 0, 0, 0, 0]);
    let total: u32 = field.data.iter().sum();
    assert_eq!(total, 2);
}

#[test]
fn test_corner_boundary_loss_parallel() {
    let mut field: Field<u32> = Field::new(3, 3);
    field.data[0] = 4;
    field.update_parallel();
    assert_eq!(field.data, vec![0, 1, 0, 1, 0, 0, 0, 0, 0]);
}

#[test]
fn test_interior_mass_conserved() {
    // No toppling cell touches the boundary, so the total is unchanged.
    let mut field: Field<u32> = Field::new(5, 5);
    field.data[12] = 6;
    field.data[7] = 3;
    let before: u32 = field.data.iter().sum();
    field.update_iter();
    let after: u32 = field.data.iter().sum();
    assert_eq!(before, after);
    assert_eq!(field.data[12], 2);
    assert_eq!(field.data[7], 4);
    assert_eq!(field.data[11], 1);
    assert_eq!(field.data[13], 1);
    assert_eq!(field.data[17], 1);
}

#[test]
fn test_threshold_no_cascade() {
    // A cell holding nine grains topples once, not twice: one step removes
    // exactly four grains.
    let mut field: Field<u32> = Field::new(3, 3);
    field.data[4] = 9;
    field.update_iter();
    assert_eq!(field.data[4], 5);
    assert_eq!(field.data, vec![0, 1, 0, 1, 5, 1, 0, 1, 0]);
}

#[test]
fn test_excess_topples_on_later_step() {
    // The grains above the threshold stay put and trigger another toppling
    // only on the next step.
    let mut field: Field<u32> = Field::new(3, 3);
    field.data[4] = 8;
    field.update_iter();
    assert_eq!(field.data, vec![0, 1, 0, 1, 4, 1, 0, 1, 0]);
    field.update_iter();
    assert_eq!(field.data, vec![0, 2, 0, 2, 0, 2, 0, 2, 0]);
}

#[test]
fn test_update_snapshots_previous_state() {
    let mut field: Field<u32> = Field::new(3, 3);
    field.data[4] = 4;
    let before = field.data.clone();
    field.update_iter();
    assert_eq!(field.old_data, before);
}

#[test]
fn test_single_column_grid() {
    // A width-one grid only sends grains up and down.
    let mut field: Field<u32> = Field::new(1, 4);
    field.data[1] = 5;
    field.update_iter();
    assert_eq!(field.data, vec![1, 1, 1, 0]);
    let mut parallel: Field<u32> = Field::new(1, 4);
    parallel.data[1] = 5;
    parallel.update_parallel();
    assert_eq!(parallel.data, field.data);
}

#[test]
fn test_empty_grid() {
    let mut field: Field<u32> = Field::new(0, 5);
    field.update_iter();
    field.update_parallel();
    field.slow_update();
    field.update_iter_branchless();
    assert_eq!(field.data.len(), 0);
}

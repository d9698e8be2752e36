use scratch_graphics::utilities::{interpolate, Axis};

#[test]
fn interpolate_single_index_gives_start_value() {
    assert_eq!(interpolate(3, 7, 3, 7), vec![7]);
    assert_eq!(interpolate(-5, 0, -5, 0), vec![0]);
    assert_eq!(interpolate(5, 9, 5, 1), vec![9]);
}

#[test]
fn interpolate_rounds_linear_steps() {
    assert_eq!(interpolate(0, 0, 4, 10), vec![0, 3, 5, 8, 10]);
}

#[test]
fn interpolate_rounds_negative_halves_away_from_zero() {
    assert_eq!(interpolate(0, 0, 2, -1), vec![0, -1, -1]);
}

#[test]
fn interpolate_reversed_range_is_empty() {
    assert_eq!(interpolate(3, 7, 1, 2), Vec::<i32>::new());
}

#[test]
fn interpolate_one_value_per_index() {
    let values = interpolate(-10, 100, 10, -100);
    assert_eq!(values.len(), 21);
    assert_eq!(values[0], 100);
    assert_eq!(values[10], 0);
    assert_eq!(values[20], -100);
}

#[test]
fn interpolate_extreme_coordinates_stay_in_range() {
    let values = interpolate(i32::MAX - 2, i32::MIN, i32::MAX, i32::MAX);
    assert_eq!(values.len(), 3);
    assert_eq!(values[0], i32::MIN);
    assert_eq!(values[2], i32::MAX);
}

#[test]
fn axis_values_compare() {
    assert_eq!(Axis::X, Axis::X);
    assert_ne!(Axis::Y, Axis::Z);
}

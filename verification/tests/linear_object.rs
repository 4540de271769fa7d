use linear_object::geometry::algebra::{Element, Producer};
use linear_object::geometry::dynamic_linear_object::DynamicLinearObject;
use linear_object::geometry::linear_object::{Dot, LinearObject, ShapeMismatch};
use linear_object::geometry::static_linear_object::{Scalar, StaticLinearObject};
use linear_object::geometry::views::{LaneIter, ValueIter};

/// Single-precision entries, as the rendering host wants them.
#[derive(Clone, Copy, Debug, PartialEq)]
struct Float(f32);

impl Element for Float {
    fn zero_value() -> Float {
        unreachable!()
    }

    fn sum(self, _: Float) -> Float {
        unreachable!()
    }

    fn product(self, _: Float) -> Float {
        unreachable!()
    }

    fn zero() -> Float {
        Float(0.0)
    }

    fn plus(self, other: Float) -> Float {
        Float(self.0 + other.0)
    }

    fn times(self, other: Float) -> Float {
        Float(self.0 * other.0)
    }
}

fn values(mut view: ValueIter<'_, Float>) -> Vec<f32> {
    let mut out = Vec::new();
    while let Some(value) = view.next() {
        out.push(value.0);
    }
    out
}

fn lanes(mut views: LaneIter<'_, Float>) -> Vec<Vec<f32>> {
    let mut out = Vec::new();
    while let Some(view) = views.next() {
        out.push(values(view));
    }
    out
}

fn fill<M: LinearObject<Value = Float>>(object: &mut M, entries: &[f32]) {
    let slots = object.mut_data();
    assert_eq!(slots.len(), entries.len());
    for (slot, entry) in slots.iter_mut().zip(entries) {
        *slot = Float(*entry);
    }
}

fn matrix(rows: usize, cols: usize, entries: &[f32]) -> DynamicLinearObject<Float> {
    let mut object = DynamicLinearObject::new(rows, cols);
    fill(&mut object, entries);
    object
}

#[test]
fn new_matrix_has_its_shape_and_is_zero() {
    for (rows, cols) in [(0usize, 0usize), (0, 4), (4, 0), (1, 1), (2, 3), (5, 2)] {
        let object: DynamicLinearObject<Float> = DynamicLinearObject::new(rows, cols);
        assert_eq!(object.rows_count(), rows);
        assert_eq!(object.cols_count(), cols);
        assert_eq!(values(object.data()), vec![0.0f32; rows * cols]);
    }
}

#[test]
fn new_fixed_matrix_has_its_shape_and_is_zero() {
    let object: StaticLinearObject<Float, 2, 3, 6> = StaticLinearObject::new().unwrap();
    assert_eq!(object.rows_count(), 2);
    assert_eq!(object.cols_count(), 3);
    assert_eq!(values(object.data()), vec![0.0f32; 6]);
}

#[test]
fn fixed_matrix_needs_one_slot_per_entry() {
    assert!(StaticLinearObject::<Float, 2, 3, 5>::new().is_none());
    assert!(StaticLinearObject::<Float, 2, 3, 7>::new().is_none());
    assert!(StaticLinearObject::<Float, { usize::MAX }, 2, 6>::new().is_none());
    assert!(StaticLinearObject::<Float, 0, 3, 0>::new().is_some());
}

#[test]
fn row_is_a_contiguous_run_of_the_data() {
    let object = matrix(3, 2, &[1.0, 2.0, 3.0, 4.0, 5.0, 6.0]);
    let flat = values(object.data());
    for index in 0..3 {
        let row = values(object.row(index));
        assert_eq!(row.len(), object.cols_count());
        assert_eq!(row, flat[index * 2..(index + 1) * 2].to_vec());
    }
    assert_eq!(values(object.row(1)), vec![3.0, 4.0]);
}

#[test]
fn col_steps_through_the_data_by_the_row_length() {
    let object = matrix(3, 2, &[1.0, 2.0, 3.0, 4.0, 5.0, 6.0]);
    let flat = values(object.data());
    for index in 0..2 {
        let col = values(object.col(index));
        assert_eq!(col.len(), object.rows_count());
        let expected: Vec<f32> = (0..3).map(|k| flat[k * 2 + index]).collect();
        assert_eq!(col, expected);
    }
    assert_eq!(values(object.col(1)), vec![2.0, 4.0, 6.0]);
}

#[test]
fn rows_and_cols_come_in_index_order() {
    let object = matrix(2, 3, &[1.0, 2.0, 3.0, 4.0, 5.0, 6.0]);
    assert_eq!(lanes(object.rows()), vec![vec![1.0, 2.0, 3.0], vec![4.0, 5.0, 6.0]]);
    assert_eq!(lanes(object.cols()), vec![vec![1.0, 4.0], vec![2.0, 5.0], vec![3.0, 6.0]]);
}

#[test]
fn row_view_from_rows_can_be_walked_twice() {
    let object = matrix(2, 2, &[1.0, 2.0, 3.0, 4.0]);
    let mut rows = object.rows();
    let first_row = rows.next().unwrap();
    let once = values(first_row.clone());
    let twice = values(first_row);
    assert_eq!(once, vec![1.0, 2.0]);
    assert_eq!(once, twice);
    assert_eq!(first_row.to_vec(), first_row.to_vec());
    assert_eq!(first_row.to_vec(), vec![Float(1.0), Float(2.0)]);
}

#[test]
fn mut_data_writes_through() {
    let mut object = matrix(2, 2, &[1.0, 2.0, 3.0, 4.0]);
    object.mut_data()[2] = Float(9.0);
    assert_eq!(values(object.data()), vec![1.0, 2.0, 9.0, 4.0]);
    assert_eq!(object.rows_count(), 2);
    assert_eq!(object.cols_count(), 2);
}

#[test]
fn dot_with_identity_gives_the_other_matrix() {
    let identity = matrix(2, 2, &[1.0, 0.0, 0.0, 1.0]);
    let other = matrix(2, 2, &[3.5, -2.0, 0.25, 7.0]);
    let mut output: DynamicLinearObject<Float> = DynamicLinearObject::new(2, 2);
    assert_eq!(output.dot(&identity, &other), Ok(()));
    assert_eq!(values(output.data()), vec![3.5, -2.0, 0.25, 7.0]);
    assert_eq!(output.dot(&other, &identity), Ok(()));
    assert_eq!(values(output.data()), vec![3.5, -2.0, 0.25, 7.0]);
}

#[test]
fn dot_of_two_by_two() {
    let left = matrix(2, 2, &[1.0, 2.0, 3.0, 4.0]);
    let right = matrix(2, 2, &[5.0, 6.0, 7.0, 8.0]);
    let mut output: DynamicLinearObject<Float> = DynamicLinearObject::new(2, 2);
    assert_eq!(output.dot(&left, &right), Ok(()));
    assert_eq!(values(output.data()), vec![19.0, 22.0, 43.0, 50.0]);
}

#[test]
fn dot_of_rectangles() {
    let left = matrix(2, 3, &[1.0, 2.0, 3.0, 4.0, 5.0, 6.0]);
    let right = matrix(3, 2, &[7.0, 8.0, 9.0, 10.0, 11.0, 12.0]);
    let mut output: DynamicLinearObject<Float> = DynamicLinearObject::new(2, 2);
    assert_eq!(output.dot(&left, &right), Ok(()));
    assert_eq!(values(output.data()), vec![58.0, 64.0, 139.0, 154.0]);
}

#[test]
fn dot_overwrites_what_the_output_held() {
    let left = matrix(1, 2, &[1.0, 2.0]);
    let right = matrix(2, 1, &[3.0, 4.0]);
    let mut output = matrix(1, 1, &[100.0]);
    assert_eq!(output.dot(&left, &right), Ok(()));
    assert_eq!(values(output.data()), vec![11.0]);
}

#[test]
fn dot_into_too_small_an_output_is_a_shape_mismatch() {
    let left = matrix(2, 3, &[1.0, 2.0, 3.0, 4.0, 5.0, 6.0]);
    let right = matrix(3, 2, &[7.0, 8.0, 9.0, 10.0, 11.0, 12.0]);
    let mut output = matrix(1, 3, &[1.0, 1.0, 1.0]);
    assert_eq!(output.dot(&left, &right), Err(ShapeMismatch));
    assert_eq!(values(output.data()), vec![1.0, 1.0, 1.0]);
}

#[test]
fn dot_into_too_large_an_output_is_a_shape_mismatch() {
    let left = matrix(2, 3, &[1.0, 2.0, 3.0, 4.0, 5.0, 6.0]);
    let right = matrix(3, 2, &[7.0, 8.0, 9.0, 10.0, 11.0, 12.0]);
    let mut output = matrix(3, 2, &[1.0; 6]);
    assert_eq!(output.dot(&left, &right), Err(ShapeMismatch));
    assert_eq!(values(output.data()), vec![1.0; 6]);
}

#[test]
fn dot_counts_slots_not_sides() {
    let left = matrix(2, 1, &[1.0, 2.0]);
    let right = matrix(1, 2, &[3.0, 4.0]);
    let mut output: DynamicLinearObject<Float> = DynamicLinearObject::new(1, 4);
    assert_eq!(output.dot(&left, &right), Ok(()));
    assert_eq!(values(output.data()), vec![3.0, 4.0, 6.0, 8.0]);
    assert_eq!(output.rows_count(), 1);
    assert_eq!(output.cols_count(), 4);
}

#[test]
fn dot_pairs_as_far_as_the_shorter_of_row_and_column() {
    let left = matrix(1, 3, &[1.0, 2.0, 3.0]);
    let right = matrix(2, 1, &[10.0, 100.0]);
    let mut output: DynamicLinearObject<Float> = DynamicLinearObject::new(1, 1);
    assert_eq!(output.dot(&left, &right), Ok(()));
    assert_eq!(values(output.data()), vec![210.0]);
}

#[test]
fn dot_sums_in_traversal_order() {
    let left = matrix(1, 3, &[1.0e8, 1.0, -1.0e8]);
    let right = matrix(3, 1, &[1.0, 1.0, 1.0]);
    let mut output: DynamicLinearObject<Float> = DynamicLinearObject::new(1, 1);
    assert_eq!(output.dot(&left, &right), Ok(()));
    let expected = ((0.0f32 + 1.0e8 * 1.0) + 1.0 * 1.0) + -1.0e8 * 1.0;
    assert_eq!(values(output.data()), vec![expected]);
}

#[test]
fn dot_with_a_zero_side() {
    let left: DynamicLinearObject<Float> = DynamicLinearObject::new(0, 3);
    let right: DynamicLinearObject<Float> = DynamicLinearObject::new(3, 2);
    let mut output: DynamicLinearObject<Float> = DynamicLinearObject::new(0, 2);
    assert_eq!(output.dot(&left, &right), Ok(()));
    assert!(values(output.data()).is_empty());

    let left: DynamicLinearObject<Float> = DynamicLinearObject::new(2, 0);
    let right: DynamicLinearObject<Float> = DynamicLinearObject::new(0, 2);
    let mut output = matrix(2, 2, &[5.0; 4]);
    assert_eq!(output.dot(&left, &right), Ok(()));
    assert_eq!(values(output.data()), vec![0.0; 4]);
}

#[test]
fn views_of_a_shape_with_a_zero_side_are_empty() {
    let object: DynamicLinearObject<Float> = DynamicLinearObject::new(3, 0);
    assert!(values(object.data()).is_empty());
    assert!(values(object.row(2)).is_empty());
    assert_eq!(lanes(object.rows()), vec![Vec::<f32>::new(); 3]);
    assert!(lanes(object.cols()).is_empty());
}

#[test]
fn scalar_behaves_as_a_one_by_one_matrix() {
    let mut scalar: Scalar<Float> = Scalar::new().unwrap();
    let mut dynamic: DynamicLinearObject<Float> = DynamicLinearObject::new(1, 1);
    assert_eq!(scalar.rows_count(), dynamic.rows_count());
    assert_eq!(scalar.cols_count(), dynamic.cols_count());
    assert_eq!(values(scalar.data()), values(dynamic.data()));
    fill(&mut scalar, &[3.0]);
    fill(&mut dynamic, &[3.0]);
    assert_eq!(values(scalar.row(0)), values(dynamic.row(0)));
    assert_eq!(values(scalar.col(0)), values(dynamic.col(0)));
    assert_eq!(lanes(scalar.rows()), lanes(dynamic.rows()));
    assert_eq!(lanes(scalar.cols()), lanes(dynamic.cols()));

    let four = matrix(1, 1, &[4.0]);
    let mut from_scalar: Scalar<Float> = Scalar::new().unwrap();
    let mut from_dynamic: DynamicLinearObject<Float> = DynamicLinearObject::new(1, 1);
    assert_eq!(from_scalar.dot(&scalar, &four), Ok(()));
    assert_eq!(from_dynamic.dot(&dynamic, &four), Ok(()));
    assert_eq!(values(from_scalar.data()), vec![12.0]);
    assert_eq!(values(from_dynamic.data()), vec![12.0]);
}

#[test]
fn dot_mixes_fixed_and_dynamic_matrices() {
    let mut left: StaticLinearObject<Float, 2, 2, 4> = StaticLinearObject::new().unwrap();
    fill(&mut left, &[1.0, 2.0, 3.0, 4.0]);
    let right = matrix(2, 2, &[5.0, 6.0, 7.0, 8.0]);
    let mut output: StaticLinearObject<Float, 2, 2, 4> = StaticLinearObject::new().unwrap();
    assert_eq!(output.dot(&left, &right), Ok(()));
    assert_eq!(values(output.data()), vec![19.0, 22.0, 43.0, 50.0]);
    let mut small: Scalar<Float> = Scalar::new().unwrap();
    assert_eq!(small.dot(&left, &right), Err(ShapeMismatch));
    assert_eq!(values(small.data()), vec![0.0]);
}

#[test]
fn dot_of_wrapping_integers() {
    let mut left: DynamicLinearObject<i32> = DynamicLinearObject::new(1, 2);
    let mut right: DynamicLinearObject<i32> = DynamicLinearObject::new(2, 1);
    left.mut_data().copy_from_slice(&[i32::MAX, 1]);
    right.mut_data().copy_from_slice(&[2, 3]);
    let mut output: DynamicLinearObject<i32> = DynamicLinearObject::new(1, 1);
    assert_eq!(output.dot(&left, &right), Ok(()));
    let mut data = output.data();
    assert_eq!(data.next(), Some(i32::MAX.wrapping_mul(2).wrapping_add(3)));
    assert_eq!(data.next(), None);
}

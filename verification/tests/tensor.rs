use psyduck::tensor::error::{MatrixError, ShapeMismatch};
use psyduck::tensor::host::HostTensor;
use psyduck::tensor::naive::NaiveTensor;
use psyduck::tensor::shape::Shape;
use psyduck::tensor::traits::{MatrixTensor, Tensor};

fn zeros_f32(rows: usize, columns: usize) -> HostTensor<f32, 2> {
    HostTensor::from_vec(vec![0.0; rows * columns], Shape::new([rows, columns])).unwrap()
}

#[test]
fn copies_a_compact_rank_two_tile() {
    let source = HostTensor::from_vec((0..20).map(|value| value as f32).collect(), Shape::new([4, 5]))
        .expect("source shape should match its elements");

    let tile = source
        .copy_tile([1, 1], Shape::new([2, 3]))
        .expect("tile should be within the source matrix");

    assert_eq!(tile.shape().dims(), &[2, 3]);
    assert_eq!(tile.as_slice(), &[6.0, 7.0, 8.0, 11.0, 12.0, 13.0]);
}

#[test]
fn rejects_a_tile_outside_the_source_matrix() {
    let source = zeros_f32(4, 5);

    assert!(source.copy_tile([3, 4], Shape::new([2, 2])).is_err());
}

#[test]
fn validates_matmul_shapes() {
    let lhs = zeros_f32(2, 3);
    let compatible_rhs = zeros_f32(3, 4);
    let incompatible_rhs = zeros_f32(4, 3);

    assert_eq!(lhs.validate_matmul_shape_with(&compatible_rhs), Ok(()));
    assert_eq!(
        lhs.validate_matmul_shape_with(&incompatible_rhs),
        Err(ShapeMismatch { lhs: vec![2, 3], rhs: vec![4, 3] })
    );
}

#[test]
fn validates_matmul_target_shape() {
    let lhs = zeros_f32(2, 3);
    let rhs = zeros_f32(3, 4);
    let compatible_target = zeros_f32(2, 4);
    let incompatible_target = zeros_f32(4, 2);

    assert_eq!(lhs.validate_matmul_target_with(&rhs, &compatible_target), Ok(()));
    assert_eq!(
        lhs.validate_matmul_target_with(&rhs, &incompatible_target),
        Err(ShapeMismatch { lhs: vec![2, 4], rhs: vec![4, 2] })
    );
}

#[test]
fn validates_matmul_shapes_before_the_target() {
    let lhs = zeros_f32(2, 3);
    let incompatible_rhs = zeros_f32(4, 3);
    let target = zeros_f32(7, 7);

    assert_eq!(
        lhs.validate_matmul_target_with(&incompatible_rhs, &target),
        Err(ShapeMismatch { lhs: vec![2, 3], rhs: vec![4, 3] })
    );
}

#[test]
fn validates_add_shapes() {
    let lhs = zeros_f32(2, 3);
    assert_eq!(lhs.validate_add_shape_with(&zeros_f32(2, 3)), Ok(()));
    assert_eq!(
        lhs.validate_add_shape_with(&zeros_f32(3, 2)),
        Err(ShapeMismatch { lhs: vec![2, 3], rhs: vec![3, 2] })
    );
}

#[test]
fn rejects_a_buffer_of_the_wrong_length() {
    let result = HostTensor::<i32, 2>::from_vec(vec![1, 2, 3], Shape::new([2, 2]));
    let error = result.err().expect("three elements cannot fill a 2x2 matrix");
    assert_eq!(error.expected, 4);
    assert_eq!(error.actual, 3);
}

#[test]
fn shape_reports_its_dimensions() {
    let shape = Shape::new([3, 5]);
    assert_eq!(shape.dims(), &[3, 5]);
    assert_eq!(shape.numel(), 15);
    assert_eq!(shape.rows(), 3);
    assert_eq!(shape.cols(), 5);
    assert_eq!(shape.transposed().dims(), &[5, 3]);
}

#[test]
fn reads_back_what_was_written() {
    let mut tensor = HostTensor::<i32, 2>::zeros(Shape::new([2, 3]));
    tensor.set(1, 2, 9).unwrap();
    assert_eq!(tensor.get(1, 2).unwrap(), 9);
    assert_eq!(tensor.get(0, 0).unwrap(), 0);
    tensor.assign_add(1, 2, 5).unwrap();
    assert_eq!(tensor.get(1, 2).unwrap(), 14);
    assert_eq!(tensor.as_slice(), &[0, 0, 0, 0, 0, 14]);
}

#[test]
fn rejects_positions_outside_the_matrix() {
    let mut tensor = HostTensor::<i32, 2>::zeros(Shape::new([2, 3]));
    let shape = *tensor.shape();
    assert_eq!(tensor.get(0, 3), Err(MatrixError::OutOfBounds(shape)));
    assert_eq!(tensor.get(2, 0), Err(MatrixError::OutOfBounds(shape)));
    assert_eq!(tensor.set(2, 0, 1), Err(MatrixError::OutOfBounds(shape)));
    assert_eq!(tensor.swap(0, 0, 0, 3), Err(MatrixError::OutOfBounds(shape)));
    assert_eq!(tensor.as_slice(), &[0, 0, 0, 0, 0, 0]);
}

#[test]
fn swaps_two_elements() {
    let mut tensor = HostTensor::from_vec(vec![1, 2, 3, 4, 5, 6], Shape::new([2, 3])).unwrap();
    tensor.swap(0, 1, 1, 2).unwrap();
    assert_eq!(tensor.as_slice(), &[1, 6, 3, 4, 5, 2]);
}

#[test]
fn with_mut_applies_a_function_in_place() {
    let mut tensor = HostTensor::from_vec(vec![1, 2, 3, 4], Shape::new([2, 2])).unwrap();
    tensor.with_mut(1, 0, |value| value * 10).unwrap();
    assert_eq!(tensor.as_slice(), &[1, 2, 30, 4]);
}

#[test]
fn transposing_twice_restores_the_matrix() {
    let mut tensor = HostTensor::from_vec((0..12).collect::<Vec<i32>>(), Shape::new([3, 4])).unwrap();
    tensor.transpose().unwrap();
    assert_eq!((tensor.rows(), tensor.columns()), (4, 3));
    assert_eq!(tensor.as_slice(), &[0, 4, 8, 1, 5, 9, 2, 6, 10, 3, 7, 11]);
    tensor.transpose().unwrap();
    assert_eq!((tensor.rows(), tensor.columns()), (3, 4));
    assert_eq!(tensor.as_slice(), (0..12).collect::<Vec<i32>>().as_slice());
}

#[test]
fn writes_a_tile_back_into_place() {
    let mut target = HostTensor::<i32, 2>::zeros(Shape::new([3, 3]));
    let tile = HostTensor::from_vec(vec![1, 2, 3, 4], Shape::new([2, 2])).unwrap();
    target.write_tile([1, 1], &tile).unwrap();
    assert_eq!(target.as_slice(), &[0, 0, 0, 0, 1, 2, 0, 3, 4]);
    assert!(target.write_tile([2, 2], &tile).is_err());

    let mut copy = HostTensor::<i32, 2>::zeros(Shape::new([2, 2]));
    target.copy_tile_into([1, 1], &mut copy).unwrap();
    assert_eq!(copy.as_slice(), &[1, 2, 3, 4]);
}

#[test]
fn naive_tensors_hold_their_elements() {
    let mut tensor = NaiveTensor::<i32, 2>::zeros(Shape::new([2, 2]));
    tensor.set_flat(3, 7);
    assert_eq!(tensor.get_flat(3), 7);
    assert_eq!(tensor.as_slice(), &[0, 0, 0, 7]);
    assert!(NaiveTensor::<i32, 2>::from_vec(vec![1], Shape::new([2, 2])).is_err());
}

#[test]
fn writing_back_a_copied_tile_changes_nothing() {
    let mut matrix = HostTensor::from_vec((0..20).collect::<Vec<i32>>(), Shape::new([4, 5])).unwrap();
    let tile = matrix.copy_tile([1, 2], Shape::new([3, 2])).unwrap();
    assert_eq!(tile.as_slice(), &[7, 8, 12, 13, 17, 18]);
    matrix.write_tile([1, 2], &tile).unwrap();
    assert_eq!(matrix.as_slice(), (0..20).collect::<Vec<i32>>().as_slice());
}

#[test]
fn shapes_convert_from_arrays() {
    let shape: Shape<2> = Shape::from([6, 7]);
    assert_eq!(shape, Shape::new([6, 7]));
    assert_eq!(shape.check_element_count(42), Ok(()));
    let error = shape.check_element_count(41).unwrap_err();
    assert_eq!((error.expected, error.actual), (42, 41));
}

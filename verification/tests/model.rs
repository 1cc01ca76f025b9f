use psyduck::model::host::HostModelBackend;
use psyduck::model::naive::NaiveModelBackend;
use psyduck::model::simd::{SimdDotProduct, ACCUMULATORS, LANES};
use psyduck::model::tile::SimdMicroKernel;
use psyduck::model::OutputMode;
use psyduck::tensor::error::MatrixError;
use psyduck::model::stride::Stride;
use psyduck::model::ModelError;
use psyduck::tensor::host::HostTensor;
use psyduck::tensor::naive::NaiveTensor;
use psyduck::tensor::shape::Shape;

fn square_matrix(values: &[i32; 4]) -> HostTensor<i32, 2> {
    let mut tensor = HostTensor::zeros(Shape::new([2, 2]));
    tensor.as_mut_slice().copy_from_slice(values);
    tensor
}

fn square_matrix_f32(values: &[f32; 4]) -> HostTensor<f32, 2> {
    HostTensor::from_vec(values.to_vec(), Shape::new([2, 2])).unwrap()
}

fn rectangular_matrix_f32(values: &[f32; 6]) -> HostTensor<f32, 2> {
    HostTensor::from_vec(values.to_vec(), Shape::new([2, 3])).unwrap()
}

#[test]
fn mod_correctly_adds_two_matrices() {
    let backend = HostModelBackend::<i32>::new();
    let a = square_matrix(&[1, 2, 3, 4]);
    let b = square_matrix(&[5, 6, 7, 8]);
    let mut target = HostTensor::zeros(Shape::new([2, 2]));

    backend.try_add(&a, &b, &mut target).expect("2x2 matrices should be addable");

    assert_eq!(target.as_slice(), &[6, 8, 10, 12]);
}

#[test]
fn correctly_multiplies_two_matrices() {
    let backend = HostModelBackend::<i32>::new();
    let a = square_matrix(&[1, 2, 3, 4]);
    let b = square_matrix(&[5, 6, 7, 8]);
    let mut target = HostTensor::zeros(Shape::new([2, 2]));

    backend.try_matmul::<1, 1, 1>(&a, &b, &mut target).expect("2x2 matrices should be multipliable");

    assert_eq!(target.as_slice(), &[19, 22, 43, 50]);

    backend.try_matmul::<1, 1, 1>(&a, &b, &mut target).expect("repeated matmul should overwrite its target");

    assert_eq!(target.as_slice(), &[19, 22, 43, 50]);
}

#[test]
fn tile_sizes_one_and_two_are_functionally_identical() {
    const SIZE: usize = 16;
    const ELEMENTS: usize = SIZE * SIZE;

    // Inputs in sixteenths, scaled by 16 so that they are exact integers:
    // (index * 17 + 3) % 29 / 16 - 0.875 becomes (index * 17 + 3) % 29 - 14.
    let backend = HostModelBackend::<i64>::new();
    let a = HostTensor::from_vec(
        (0..ELEMENTS).map(|index| ((index * 17 + 3) % 29) as i64 - 14).collect(),
        Shape::new([SIZE, SIZE]),
    )
    .expect("A should contain exactly SIZE squared elements");
    let b = HostTensor::from_vec(
        (0..ELEMENTS).map(|index| ((index * 11 + 7) % 31) as i64 - 15).collect(),
        Shape::new([SIZE, SIZE]),
    )
    .expect("B should contain exactly SIZE squared elements");
    let mut tile_one = HostTensor::zeros(Shape::new([SIZE, SIZE]));
    let mut tile_two = HostTensor::zeros(Shape::new([SIZE, SIZE]));

    backend.try_matmul::<1, 1, 1>(&a, &b, &mut tile_one).expect("1x1x1 tiled matmul should succeed");
    backend.try_matmul::<2, 2, 2>(&a, &b, &mut tile_two).expect("2x2x2 tiled matmul should succeed");

    for (index, (&one, &two)) in tile_one.as_slice().iter().zip(tile_two.as_slice()).enumerate() {
        assert!(one == two, "tile outputs differ at element {index}: {one} != {two}");
    }
}

#[test]
fn correctly_accumulates_full_simd_chunks_and_the_remainder() {
    let backend = HostModelBackend::<i32>::new();
    let mut a = HostTensor::zeros(Shape::new([1, 10]));
    let mut b = HostTensor::zeros(Shape::new([10, 1]));
    let mut target = HostTensor::zeros(Shape::new([1, 1]));

    let values = [1, 2, 3, 4, 5, 6, 7, 8, 9, 10];
    a.as_mut_slice().copy_from_slice(&values);
    b.as_mut_slice().copy_from_slice(&values);

    backend
        .try_matmul::<1, 1, 1>(&a, &b, &mut target)
        .expect("a full SIMD chunk and its remainder should be multipliable");

    assert_eq!(target.as_slice(), &[385]);
}

#[test]
fn supports_a_generic_simd_lane_count() {
    let values = [1, 2, 3, 4, 5, 6];

    let result = <i32 as SimdDotProduct<4, 8>>::simd_dot_product(&values, &values);

    assert_eq!(result, 91);
}

#[test]
fn correctly_transpose_rank_2_matrix_inplace() {
    // Validate square transpose.
    let mut square = square_matrix_f32(&[1.0, 2.0, 3.0, 4.0]);
    HostModelBackend::<f32>::transpose(&mut square).expect("2x2 matrix should be transposable");
    assert_eq!(square.as_slice(), &[1.0, 3.0, 2.0, 4.0]);

    // Validate rectangular transpose.
    let mut rectangular = rectangular_matrix_f32(&[1.0, 2.0, 3.0, 4.0, 5.0, 6.0]);
    HostModelBackend::<f32>::transpose(&mut rectangular).expect("2x3 matrix should be transposable");
    assert_eq!((rectangular.rows(), rectangular.columns()), (3, 2));
    assert_eq!(rectangular.as_slice(), &[1.0, 4.0, 2.0, 5.0, 3.0, 6.0]);

    HostModelBackend::<f32>::transpose(&mut rectangular).expect("3x2 matrix should be transposable");
    assert_eq!((rectangular.rows(), rectangular.columns()), (2, 3));
    assert_eq!(rectangular.as_slice(), &[1.0, 2.0, 3.0, 4.0, 5.0, 6.0]);
}

#[test]
fn correctly_ensure_valid_square_tile_shapes() {
    let a_tile_shape = Shape::new([2, 2]);
    let b_tile_shape = Shape::new([2, 2]);
    let c_tile_shape = Shape::new([2, 2]);

    HostModelBackend::<f32>::validate_tile_shapes(&a_tile_shape, &b_tile_shape, &c_tile_shape)
        .expect("valid square tile shapes should be valid");
}

#[test]
fn correctly_guard_against_invalid_square_tile_shapes() {
    let a_tile_shape = Shape::new([2, 2]);
    let b_tile_shape = Shape::new([2, 2]);
    let c_tile_shape = Shape::new([3, 3]);

    HostModelBackend::<f32>::validate_tile_shapes(&a_tile_shape, &b_tile_shape, &c_tile_shape)
        .expect_err("invalid square tile shapes should be invalid");
}

#[test]
fn correctly_ensure_valid_rectangular_tile_shapes() {
    let a_tile_shape = Shape::new([2, 3]);
    let b_tile_shape = Shape::new([3, 2]);
    let c_tile_shape = Shape::new([2, 2]);

    HostModelBackend::<f32>::validate_tile_shapes(&a_tile_shape, &b_tile_shape, &c_tile_shape)
        .expect("valid rectangular tile shapes should be valid");
}

#[test]
fn correctly_guard_against_invalid_rectangular_tile_shapes() {
    let a_tile_shape = Shape::new([3, 2]);
    let b_tile_shape = Shape::new([3, 2]);
    let c_tile_shape = Shape::new([2, 2]);

    HostModelBackend::<f32>::validate_tile_shapes(&a_tile_shape, &b_tile_shape, &c_tile_shape)
        .expect_err("invalid rectangular tile shapes should be invalid");
}

#[test]
fn correctly_ensures_tile_fits_matrix() {
    let matrix_shape = Shape::new([128, 256]);
    let tile_shape = Shape::new([32, 64]);

    HostModelBackend::<f32>::validate_tile_fits(&matrix_shape, &tile_shape)
        .expect("tile dimensions should evenly divide matrix dimensions");
}

#[test]
fn correctly_rejects_tile_that_does_not_fit_matrix() {
    let matrix_shape = Shape::new([128, 256]);

    HostModelBackend::<f32>::validate_tile_fits(&matrix_shape, &Shape::new([32, 48]))
        .expect_err("tile dimensions should evenly divide matrix dimensions");

    HostModelBackend::<f32>::validate_tile_fits(&matrix_shape, &Shape::new([0, 64]))
        .expect_err("tile dimensions must be non-zero");
}

#[test]
fn adds_to_lanes_in_round_robin_order() {
    let mut stride = Stride::<4, i32>::zeros();

    for value in 1..=6 {
        stride.add_next_lane(value);
    }

    assert_eq!(stride.lanes(), &[6, 8, 3, 4]);
    assert_eq!(stride.next_lane(), 2);
    assert_eq!(stride.sum(), 21);
}

#[test]
fn naive_correctly_adds_two_matrices() {
    let backend = NaiveModelBackend::<i32>::new();
    let mut a = NaiveTensor::zeros(Shape::new([2, 2]));
    a.as_mut_slice().copy_from_slice(&[1, 2, 3, 4]);
    let mut b = NaiveTensor::zeros(Shape::new([2, 2]));
    b.as_mut_slice().copy_from_slice(&[5, 6, 7, 8]);
    let mut target = NaiveTensor::zeros(Shape::new([2, 2]));

    backend.try_add::<256>(&a, &b, &mut target).expect("2x2 matrices should be addable");

    assert_eq!(target.as_slice(), &[6, 8, 10, 12]);
}

#[test]
fn rejects_mismatched_addition_shapes() {
    let backend = HostModelBackend::<i32>::new();
    let a = square_matrix(&[1, 2, 3, 4]);
    let b = HostTensor::<i32, 2>::zeros(Shape::new([1, 4]));
    let mut target = HostTensor::<i32, 2>::zeros(Shape::new([2, 2]));

    match backend.try_add(&a, &b, &mut target) {
        Err(ModelError::ShapeMismatch(e)) => {
            assert_eq!(e.lhs, vec![2, 2]);
            assert_eq!(e.rhs, vec![1, 4]);
        }
        other => panic!("expected a shape mismatch, got {other:?}"),
    }
    assert_eq!(target.as_slice(), &[0, 0, 0, 0]);
}

#[test]
fn rejects_a_target_of_the_wrong_shape() {
    let backend = HostModelBackend::<i32>::new();
    let a = square_matrix(&[1, 2, 3, 4]);
    let b = square_matrix(&[5, 6, 7, 8]);
    let mut target = HostTensor::<i32, 2>::zeros(Shape::new([2, 3]));

    match backend.try_matmul::<1, 1, 1>(&a, &b, &mut target) {
        Err(ModelError::ShapeMismatch(e)) => {
            assert_eq!(e.lhs, vec![2, 2]);
            assert_eq!(e.rhs, vec![2, 3]);
        }
        other => panic!("expected a shape mismatch, got {other:?}"),
    }
}

#[test]
fn rejects_tiles_that_do_not_divide_the_operands() {
    let backend = HostModelBackend::<i32>::new();
    let a = HostTensor::<i32, 2>::zeros(Shape::new([3, 3]));
    let b = HostTensor::<i32, 2>::zeros(Shape::new([3, 3]));
    let mut target = HostTensor::<i32, 2>::zeros(Shape::new([3, 3]));

    match backend.try_matmul::<2, 1, 1>(&a, &b, &mut target) {
        Err(ModelError::InvalidTileShape { matrix, tile }) => {
            assert_eq!(matrix, vec![3, 3]);
            assert_eq!(tile, vec![2, 1]);
        }
        other => panic!("expected an invalid tile shape, got {other:?}"),
    }
}

#[test]
fn multiplies_rectangular_matrices_with_rectangular_tiles() {
    let backend = HostModelBackend::<i32>::new();
    let a = HostTensor::from_vec((1..=12).collect(), Shape::new([2, 6])).unwrap();
    let b = HostTensor::from_vec((1..=24).collect(), Shape::new([6, 4])).unwrap();
    let mut target = HostTensor::<i32, 2>::zeros(Shape::new([2, 4]));

    backend.try_matmul::<2, 2, 3>(&a, &b, &mut target).unwrap();

    let mut expected = vec![0; 8];
    for i in 0..2 {
        for j in 0..4 {
            for c in 0..6 {
                expected[i * 4 + j] += a.as_slice()[i * 6 + c] * b.as_slice()[c * 4 + j];
            }
        }
    }
    assert_eq!(target.as_slice(), expected.as_slice());
}

#[test]
fn uploads_and_downloads_copies() {
    let backend = HostModelBackend::<i32>::new();
    let source = square_matrix(&[1, 2, 3, 4]);
    let uploaded = backend.upload(&source).unwrap();
    let downloaded = backend.download(&uploaded).unwrap();
    assert_eq!(downloaded.as_slice(), source.as_slice());
    let allocated = backend.allocate(Shape::new([2, 3])).unwrap();
    assert_eq!(allocated.as_slice(), &[0, 0, 0, 0, 0, 0]);

    let naive = NaiveModelBackend::<i32>::new();
    let tensor = NaiveTensor::from_vec(vec![4, 3, 2, 1], Shape::new([2, 2])).unwrap();
    assert_eq!(naive.download_dtoh(&naive.upload_htod(&tensor).unwrap()).unwrap().as_slice(), &[4, 3, 2, 1]);
    assert_eq!(naive.allocate(Shape::new([1, 2])).unwrap().as_slice(), &[0, 0]);
}

fn kernel_operands(b_columns: usize) -> (HostTensor<i64, 2>, HostTensor<i64, 2>) {
    let a = HostTensor::from_vec((1..=16).collect(), Shape::new([2, 8])).unwrap();
    let b = HostTensor::from_vec((0..4 * b_columns as i64).map(|v| v % 7 - 3).collect(), Shape::new([4, b_columns]))
        .unwrap();
    (a, b)
}

fn kernel_dot(a: &HostTensor<i64, 2>, b: &HostTensor<i64, 2>, i: usize, j: usize) -> i64 {
    (0..8).map(|t| a.as_slice()[i * 8 + t] * b.as_slice()[j * 8 + t]).sum()
}

#[test]
fn microkernel_writes_the_product_block_of_a_larger_output() {
    let (a, b) = kernel_operands(8);
    let mut c = HostTensor::from_vec(vec![7i64; 15], Shape::new([3, 5])).unwrap();
    let r = <i64 as SimdMicroKernel<LANES, ACCUMULATORS>>::matmul_microkernel(OutputMode::Overwrite, &a, &b, &mut c);
    assert_eq!(r, Ok(()));
    for x in 0..3 {
        for y in 0..5 {
            let expected = if x < 2 && y < 4 { kernel_dot(&a, &b, x, y) } else { 7 };
            assert_eq!(c.get(x, y), Ok(expected), "entry ({x}, {y})");
        }
    }
}

#[test]
fn microkernel_stops_at_the_first_entry_outside_the_output() {
    let (a, b) = kernel_operands(8);
    let mut c = HostTensor::from_vec(vec![7i64; 6], Shape::new([2, 3])).unwrap();
    let r = <i64 as SimdMicroKernel<LANES, ACCUMULATORS>>::matmul_microkernel(OutputMode::Accumulate, &a, &b, &mut c);
    assert_eq!(r, Err(MatrixError::OutOfBounds(Shape::new([2, 3]))));
    for y in 0..3 {
        assert_eq!(c.get(0, y), Ok(7 + kernel_dot(&a, &b, 0, y)));
        assert_eq!(c.get(1, y), Ok(7));
    }
}

#[test]
fn microkernel_reads_a_wider_right_operand_in_runs_of_the_shared_length() {
    let (a, b) = kernel_operands(9);
    let mut c = HostTensor::from_vec(vec![0i64; 8], Shape::new([2, 4])).unwrap();
    let r = <i64 as SimdMicroKernel<LANES, ACCUMULATORS>>::matmul_microkernel(OutputMode::Overwrite, &a, &b, &mut c);
    assert_eq!(r, Ok(()));
    for x in 0..2 {
        for y in 0..4 {
            assert_eq!(c.get(x, y), Ok(kernel_dot(&a, &b, x, y)));
        }
    }
    assert_eq!(c.get(0, 0), Ok((1..=8).zip(b.as_slice()[..8].iter()).map(|(u, v)| u * v).sum()));
}

use psyduck::generator::{
    calculate_matmul_checksum, canonical_matmul_checksum, matrices_from_seed, Generator, GeneratorError,
    CANONICAL_SEED, CHECKSUM_SCALE,
};
use psyduck::tensor::traits::Tensor;

const CANONICAL_MATMUL_CHECKSUMS: [(usize, f64); 11] = [
    (4, 5.818_115_234_375),
    (8, 9.721_069_335_937_5),
    (16, -2.028_442_382_812_5),
    (32, 11.211_242_675_781_25),
    (64, -69.861_328_125),
    (128, 350.061_401_367_187_5),
    (256, -342.720_458_984_375),
    (512, -1_873.092_895_507_812_5),
    (1_024, 1_308.468_261_718_75),
    (2_048, 129_273.643_493_652_34),
    (4_096, 939_875.690_734_863_3),
];

#[test]
fn canonical_seed_is_used_by_default() {
    let default = Generator::default().matrices::<i32>(2, 3, 4).unwrap();
    let explicit = Generator::Deterministic(Some(CANONICAL_SEED)).matrices::<i32>(2, 3, 4).unwrap();

    assert_eq!(default.seed, CANONICAL_SEED);
    assert_eq!(default.a.as_slice(), explicit.a.as_slice());
    assert_eq!(default.b.as_slice(), explicit.b.as_slice());
    // The generated values are signed bytes; as floats they are read over 128.
    let first: Vec<f32> = default.a.as_slice()[..6].iter().map(|&v| v as f32 / 128.0).collect();
    assert_eq!(first.as_slice(), &[-0.8125, -0.34375, -0.2734375, 0.28125, -0.21875, -0.390625]);
}

#[test]
fn builds_m_by_k_and_k_by_n_matrices() {
    let matrices = Generator::default().matrices::<i64>(2, 3, 4).unwrap();

    assert_eq!(matrices.a.shape().dims(), &[2, 4]);
    assert_eq!(matrices.b.shape().dims(), &[4, 3]);
}

#[test]
fn canonical_checksums_match_the_exact_integer_workload() {
    for (size, expected) in CANONICAL_MATMUL_CHECKSUMS {
        let actual = calculate_matmul_checksum(size, size, size, CANONICAL_SEED).unwrap();
        assert_eq!(actual as f64 / CHECKSUM_SCALE as f64, expected, "canonical checksum changed for N={size}");
        assert_eq!(Some(actual), canonical_matmul_checksum(size), "canonical checksum changed for N={size}");
    }
}

#[test]
fn only_published_sizes_have_a_canonical_checksum() {
    assert_eq!(canonical_matmul_checksum(3), None);
    assert_eq!(canonical_matmul_checksum(8192), None);
    assert_eq!(canonical_matmul_checksum(4), Some(95_324));
}

#[test]
fn checksum_is_the_sum_of_the_exact_product() {
    let generated = matrices_from_seed::<i64>(7, 3, 5, 4).unwrap();
    let a = generated.a.as_slice();
    let b = generated.b.as_slice();
    let mut total: i128 = 0;
    for i in 0..3 {
        for j in 0..5 {
            for c in 0..4 {
                total += (a[i * 4 + c] * b[c * 5 + j]) as i128;
            }
        }
    }
    assert_eq!(calculate_matmul_checksum(3, 5, 4, 7).unwrap(), total);
}

#[test]
fn an_empty_shared_dimension_sums_to_zero() {
    assert!(matches!(calculate_matmul_checksum(3, 5, 0, 7), Ok(0)));
    assert!(matches!(calculate_matmul_checksum(usize::MAX, usize::MAX, 0, 7), Ok(0)));
}

#[test]
fn the_same_seed_gives_the_same_matrices() {
    let first = matrices_from_seed::<i32>(42, 3, 2, 5).unwrap();
    let second = Generator::Deterministic(Some(42)).matrices::<i32>(3, 2, 5).unwrap();
    assert_eq!(first.a.as_slice(), second.a.as_slice());
    assert_eq!(first.b.as_slice(), second.b.as_slice());
    let other = matrices_from_seed::<i32>(43, 3, 2, 5).unwrap();
    assert_ne!(first.a.as_slice(), other.a.as_slice());
}

#[test]
fn reports_dimension_overflow() {
    match Generator::default().matrices::<i32>(usize::MAX, 1, 2) {
        Err(GeneratorError::DimensionOverflow { rows, columns }) => {
            assert_eq!((rows, columns), (usize::MAX, 2));
        }
        _ => panic!("an m x k overflow should be reported"),
    }
    match Generator::default().matrices::<i32>(1, usize::MAX, 2) {
        Err(GeneratorError::DimensionOverflow { rows, columns }) => {
            assert_eq!((rows, columns), (2, usize::MAX));
        }
        _ => panic!("a k x n overflow should be reported"),
    }
    assert!(matches!(
        calculate_matmul_checksum(usize::MAX, 1, 2, CANONICAL_SEED),
        Err(GeneratorError::DimensionOverflow { .. })
    ));
}

#[test]
fn generator_names_and_canonical_seeds() {
    assert!(Generator::default().is_canonical());
    assert!(Generator::Deterministic(Some(CANONICAL_SEED)).is_canonical());
    assert!(!Generator::Deterministic(Some(1)).is_canonical());
    assert!(!Generator::NonDeterministic.is_canonical());
    assert_eq!(Generator::default().name(), "deterministic");
    assert_eq!(Generator::NonDeterministic.name(), "non-deterministic");
}

#[test]
fn random_generators_report_their_seed() {
    let generated = Generator::NonDeterministic.matrices::<i32>(2, 2, 2).unwrap();
    let replay = matrices_from_seed::<i32>(generated.seed, 2, 2, 2).unwrap();
    assert_eq!(generated.a.as_slice(), replay.a.as_slice());
    assert_eq!(generated.b.as_slice(), replay.b.as_slice());
}

//! Reproducible input matrices for benchmarks.

use vstd::prelude::*;

use crate::element::Element;
use crate::tensor::error::ElementCountMismatch;
use crate::tensor::host::HostTensor;

pub mod deterministic;
pub mod draw;
pub mod sums;

use crate::generator::draw::DrawnSeed;
use crate::generator::deterministic::{
    a_seed, a_seed_spec, b_seed, b_seed_spec, checksum_numerator, exact_matmul_checksum, generated_values, matrix,
    checksum_fits,
};

verus! {

/// A seed of the generated stream.
pub type Seed = u64;

/// The seed that published benchmark checksums are computed from.
pub const CANONICAL_SEED: u64 = 0x5053_5944_5543_4B01;

/// Checksums are exact integers in units of one over this scale: generated values are signed
/// bytes over 128, so every product of two is a multiple of 1/16384.
pub const CHECKSUM_SCALE: i128 = 16384;

/// The published checksum of the canonical `size x size x size` product, in units of
/// 1/`CHECKSUM_SCALE`, for the sizes that have one.
pub open spec fn canonical_checksum_spec(size: usize) -> Option<i128> {
    if size == 4 {
        Some(95324i128)
    } else if size == 8 {
        Some(159270i128)
    } else if size == 16 {
        Some(-33234i128)
    } else if size == 32 {
        Some(183685i128)
    } else if size == 64 {
        Some(-1144608i128)
    } else if size == 128 {
        Some(5735406i128)
    } else if size == 256 {
        Some(-5615132i128)
    } else if size == 512 {
        Some(-30688754i128)
    } else if size == 1024 {
        Some(21437944i128)
    } else if size == 2048 {
        Some(2118019375i128)
    } else if size == 4096 {
        Some(15398923317i128)
    } else {
        None
    }
}

/// The published checksum of the canonical `size x size x size` product, in units of
/// 1/`CHECKSUM_SCALE`, if `size` is one of the published sizes.
pub fn canonical_matmul_checksum(size: usize) -> (r: Option<i128>)
    ensures
        r == canonical_checksum_spec(size),
{
    if size == 4 {
        Some(95324)
    } else if size == 8 {
        Some(159270)
    } else if size == 16 {
        Some(-33234)
    } else if size == 32 {
        Some(183685)
    } else if size == 64 {
        Some(-1144608)
    } else if size == 128 {
        Some(5735406)
    } else if size == 256 {
        Some(-5615132)
    } else if size == 512 {
        Some(-30688754)
    } else if size == 1024 {
        Some(21437944)
    } else if size == 2048 {
        Some(2118019375)
    } else if size == 4096 {
        Some(15398923317)
    } else {
        None
    }
}

/// The checksum a benchmark of an `m x k` by `k x n` product should reproduce: the published
/// one, when the inputs are canonical and square with a published size.
pub fn expected_matmul_checksum(generator: Generator, m: usize, n: usize, k: usize) -> (r: Option<i128>)
    ensures
        r == if generator.fixed_seed() == Some(CANONICAL_SEED) && m == n && n == k {
            canonical_checksum_spec(m)
        } else {
            None
        },
{
    if generator.is_canonical() && m == n && n == k {
        canonical_matmul_checksum(m)
    } else {
        None
    }
}

/// The exact checksum of the product of the `m x k` and `k x n` matrices generated from
/// `seed`, in units of 1/`CHECKSUM_SCALE`.
pub fn calculate_matmul_checksum(m: usize, n: usize, k: usize, seed: u64) -> (r: Result<i128, GeneratorError>)
    requires
        m * k <= usize::MAX && k * n <= usize::MAX ==> checksum_fits(m as int, n as int, k as int),
    ensures
        r is Ok <==> m * k <= usize::MAX && k * n <= usize::MAX,
        r matches Ok(numerator) ==> numerator == checksum_numerator(m as nat, n as nat, k as nat, seed),
        r matches Err(e) ==> overflow_error(e, m, n, k),
{
    exact_matmul_checksum(m, n, k, seed)
}

/// Why matrices could not be generated.
#[derive(Debug)]
pub enum GeneratorError {
    /// `rows * columns` does not fit in a `usize`.
    DimensionOverflow { rows: usize, columns: usize },
    ElementCountMismatch(ElementCountMismatch),
    /// The operating system's random source gave no seed.
    SeedUnavailable,
}

/// Where the seed of generated matrices comes from.
#[derive(Clone, Copy, Debug, PartialEq, Eq, Structural)]
pub enum Generator {
    /// A fixed seed; `None` stands for the canonical one.
    Deterministic(Option<u64>),
    /// A fresh random seed on every call.
    NonDeterministic,
}

/// The two operands of a product, and the seed they were generated from.
pub struct GeneratedMatrices<F> {
    pub a: HostTensor<F, 2>,
    pub b: HostTensor<F, 2>,
    pub seed: u64,
    /// The seed drawn from the random source for these matrices, if one was.
    pub drawn: Option<DrawnSeed>,
}

impl<F> GeneratedMatrices<F> {
    /// The seed drawn from the random source for these matrices, if one was.
    pub closed spec fn drawn_seed(&self) -> Option<u64> {
        match self.drawn {
            Some(d) => Some(d.value()),
            None => None,
        }
    }
}

impl Default for Generator {
    fn default() -> (r: Self)
        ensures
            r == Generator::Deterministic(None),
    {
        Generator::Deterministic(None)
    }
}

/// A fresh seed from the operating system's random source, `rand::rngs::OsRng` through
/// `TryRngCore::try_next_u64`, or `None` where the source reports an error. Nothing is stated of
/// the value or of when the source fails: both depend on the machine.
#[verifier::external_body]
pub(crate) fn random_seed() -> Option<u64> {
    rand::TryRngCore::try_next_u64(&mut rand::rngs::OsRng).ok()
}

/// `generated` holds `a` as `m x k` and `b` as `k x n`, drawn from the two streams of `seed`.
pub open spec fn generated_from<F: Element>(generated: GeneratedMatrices<F>, m: usize, n: usize, k: usize, seed: u64) -> bool {
    &&& generated.seed == seed
    &&& generated.a.wf()
    &&& generated.b.wf()
    &&& generated.a.shape_spec()@ == seq![m, k]
    &&& generated.b.shape_spec()@ == seq![k, n]
    &&& generated.a@ == generated_values::<F>(a_seed_spec(seed), (m * k) as nat)
    &&& generated.b@ == generated_values::<F>(b_seed_spec(seed), (k * n) as nat)
}

/// The error for dimensions whose element count overflows, checked `m x k` first.
pub open spec fn overflow_error(e: GeneratorError, m: usize, n: usize, k: usize) -> bool {
    if m * k > usize::MAX {
        e == (GeneratorError::DimensionOverflow { rows: m, columns: k })
    } else {
        e == (GeneratorError::DimensionOverflow { rows: k, columns: n })
    }
}

/// Builds `A` as `m x k` and `B` as `k x n` from `seed`.
pub fn matrices_from_seed<F: Element>(seed: u64, m: usize, n: usize, k: usize) -> (r: Result<
    GeneratedMatrices<F>,
    GeneratorError,
>)
    ensures
        r is Ok <==> m * k <= usize::MAX && k * n <= usize::MAX,
        r matches Ok(g) ==> generated_from(g, m, n, k, seed),
        r matches Err(e) ==> overflow_error(e, m, n, k),
{
    let a = matrix(m, k, a_seed(seed))?;
    let b = matrix(k, n, b_seed(seed))?;
    Ok(GeneratedMatrices { a, b, seed, drawn: None })
}

/// Where the seed of `generated` came from: the fixed seed of a deterministic generator, with
/// nothing drawn, or, for a non-deterministic one, the seed drawn from the random source on
/// that call.
pub open spec fn seed_from_source<F>(generator: Generator, generated: GeneratedMatrices<F>) -> bool {
    match generator.fixed_seed() {
        Some(seed) => generated.seed == seed && generated.drawn_seed() is None,
        None => generated.drawn_seed() == Some(generated.seed),
    }
}

/// Matrices of a non-deterministic generator are those of the seed drawn on their call: two
/// calls whose draws differ report different seeds, and each call's matrices are the ones that
/// its own drawn seed generates.
pub proof fn lemma_drawn_seed_is_used<F: Element>(
    first: GeneratedMatrices<F>,
    second: GeneratedMatrices<F>,
    m: usize,
    n: usize,
    k: usize,
)
    requires
        seed_from_source(Generator::NonDeterministic, first),
        seed_from_source(Generator::NonDeterministic, second),
        generated_from(first, m, n, k, first.seed),
        generated_from(second, m, n, k, second.seed),
    ensures
        first.drawn_seed() is Some && second.drawn_seed() is Some,
        generated_from(first, m, n, k, first.drawn_seed()->0),
        generated_from(second, m, n, k, second.drawn_seed()->0),
        first.drawn_seed() != second.drawn_seed() ==> first.seed != second.seed,
{
}

impl Generator {
    /// The seed this generator uses, when it is fixed.
    pub open spec fn fixed_seed(self) -> Option<u64> {
        match self {
            Generator::Deterministic(Some(seed)) => Some(seed),
            Generator::Deterministic(None) => Some(CANONICAL_SEED),
            Generator::NonDeterministic => None,
        }
    }

    /// Whether this generator reproduces the published canonical inputs.
    pub fn is_canonical(self) -> (r: bool)
        ensures
            r == (self.fixed_seed() == Some(CANONICAL_SEED)),
    {
        match self {
            Generator::Deterministic(None) => true,
            Generator::Deterministic(Some(seed)) => seed == CANONICAL_SEED,
            Generator::NonDeterministic => false,
        }
    }

    /// Builds `A` as `m x k` and `B` as `k x n`, from the fixed seed or a fresh random one.
    /// A non-deterministic generator draws a seed from the random source on every call and
    /// generates from the seed it drew.
    pub fn matrices<F: Element>(&self, m: usize, n: usize, k: usize) -> (r: Result<
        GeneratedMatrices<F>,
        GeneratorError,
    >)
        ensures
            r matches Err(GeneratorError::SeedUnavailable) ==> self.fixed_seed() is None,
            !(r matches Err(GeneratorError::SeedUnavailable)) ==> (r is Ok <==> m * k <= usize::MAX && k * n
                <= usize::MAX),
            r matches Ok(g) ==> generated_from(g, m, n, k, g.seed),
            r matches Ok(g) ==> (self.fixed_seed() matches Some(seed) ==> g.seed == seed),
            r matches Ok(g) ==> seed_from_source(*self, g),
            r matches Err(e) ==> overflow_error(e, m, n, k) || e == GeneratorError::SeedUnavailable,
    {
        let (seed, drawn) = match self {
            Generator::Deterministic(Some(seed)) => (*seed, None),
            Generator::Deterministic(None) => (CANONICAL_SEED, None),
            Generator::NonDeterministic => match DrawnSeed::draw() {
                Some(drawn) => (drawn.get(), Some(drawn)),
                None => return Err(GeneratorError::SeedUnavailable),
            },
        };
        match matrices_from_seed(seed, m, n, k) {
            Ok(generated) => Ok(GeneratedMatrices { a: generated.a, b: generated.b, seed, drawn }),
            Err(e) => Err(e),
        }
    }

    pub open spec fn name_spec(self) -> &'static str {
        match self {
            Generator::Deterministic(_) => "deterministic",
            Generator::NonDeterministic => "non-deterministic",
        }
    }

    /// The name of this kind of generator in reports.
    pub fn name(self) -> (r: &'static str)
        ensures
            r == self.name_spec(),
    {
        match self {
            Generator::Deterministic(_) => "deterministic",
            Generator::NonDeterministic => "non-deterministic",
        }
    }
}

} // verus!

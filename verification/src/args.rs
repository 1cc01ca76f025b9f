//! The choices a benchmark is run with: target, matrix size and input generator.

use vstd::prelude::*;

use crate::generator::{Generator, Seed};
use crate::instrument::benchmark::BenchmarkTarget;

verus! {

/// Where to run a benchmark.
#[derive(Clone, Copy, Debug, PartialEq, Eq, Structural)]
pub enum Target {
    /// Run the benchmark on the host CPU.
    Host,
    /// Run the benchmark on the device GPU.
    Device,
}

impl From<Target> for BenchmarkTarget {
    fn from(target: Target) -> (r: BenchmarkTarget) {
        match target {
            Target::Host => BenchmarkTarget::Host,
            Target::Device => BenchmarkTarget::Device,
        }
    }
}

impl vstd::std_specs::convert::FromSpecImpl<Target> for BenchmarkTarget {
    open spec fn obeys_from_spec() -> bool {
        true
    }

    open spec fn from_spec(target: Target) -> BenchmarkTarget {
        match target {
            Target::Host => BenchmarkTarget::Host,
            Target::Device => BenchmarkTarget::Device,
        }
    }
}

/// The side of a square benchmark matrix.
#[derive(Clone, Copy, Debug, PartialEq, Eq, Structural)]
pub enum MatrixSize {
    N4,
    N8,
    N16,
    N32,
    N64,
    N128,
    N256,
    N512,
    N1024,
    N2048,
    N4096,
}

impl MatrixSize {
    pub open spec fn get_spec(self) -> usize {
        match self {
            MatrixSize::N4 => 4,
            MatrixSize::N8 => 8,
            MatrixSize::N16 => 16,
            MatrixSize::N32 => 32,
            MatrixSize::N64 => 64,
            MatrixSize::N128 => 128,
            MatrixSize::N256 => 256,
            MatrixSize::N512 => 512,
            MatrixSize::N1024 => 1024,
            MatrixSize::N2048 => 2048,
            MatrixSize::N4096 => 4096,
        }
    }

    /// The side length: the number the variant names.
    pub fn get(self) -> (r: usize)
        ensures
            r == self.get_spec(),
            match self {
                MatrixSize::N4 => r == 4,
                MatrixSize::N8 => r == 8,
                MatrixSize::N16 => r == 16,
                MatrixSize::N32 => r == 32,
                MatrixSize::N64 => r == 64,
                MatrixSize::N128 => r == 128,
                MatrixSize::N256 => r == 256,
                MatrixSize::N512 => r == 512,
                MatrixSize::N1024 => r == 1024,
                MatrixSize::N2048 => r == 2048,
                MatrixSize::N4096 => r == 4096,
            },
    {
        match self {
            MatrixSize::N4 => 4,
            MatrixSize::N8 => 8,
            MatrixSize::N16 => 16,
            MatrixSize::N32 => 32,
            MatrixSize::N64 => 64,
            MatrixSize::N128 => 128,
            MatrixSize::N256 => 256,
            MatrixSize::N512 => 512,
            MatrixSize::N1024 => 1024,
            MatrixSize::N2048 => 2048,
            MatrixSize::N4096 => 4096,
        }
    }
}

/// Every size is a power of two from 4 to 4096, and different sizes have different sides: the
/// sides are exactly 4, 8, 16, ..., 4096, one for each variant.
pub proof fn lemma_matrix_sizes_are_distinct_powers_of_two(a: MatrixSize, b: MatrixSize)
    ensures
        exists|e: nat| 2 <= e <= 12 && #[trigger] vstd::arithmetic::power2::pow2(e) == a.get_spec(),
        a != b ==> a.get_spec() != b.get_spec(),
{
    vstd::arithmetic::power2::lemma2_to64();
    let e: nat = match a {
        MatrixSize::N4 => 2,
        MatrixSize::N8 => 3,
        MatrixSize::N16 => 4,
        MatrixSize::N32 => 5,
        MatrixSize::N64 => 6,
        MatrixSize::N128 => 7,
        MatrixSize::N256 => 8,
        MatrixSize::N512 => 9,
        MatrixSize::N1024 => 10,
        MatrixSize::N2048 => 11,
        MatrixSize::N4096 => 12,
    };
    assert(vstd::arithmetic::power2::pow2(e) == a.get_spec());
}

/// Each size variant's side is the number in its name.
pub proof fn lemma_matrix_size_sides()
    ensures
        MatrixSize::N4.get_spec() == 4,
        MatrixSize::N8.get_spec() == 8,
        MatrixSize::N16.get_spec() == 16,
        MatrixSize::N32.get_spec() == 32,
        MatrixSize::N64.get_spec() == 64,
        MatrixSize::N128.get_spec() == 128,
        MatrixSize::N256.get_spec() == 256,
        MatrixSize::N512.get_spec() == 512,
        MatrixSize::N1024.get_spec() == 1024,
        MatrixSize::N2048.get_spec() == 2048,
        MatrixSize::N4096.get_spec() == 4096,
{
}

/// How the benchmark inputs are generated.
#[derive(Clone, Copy, Debug, PartialEq, Eq, Structural)]
pub enum GeneratorArgs {
    /// Generate reproducible inputs, optionally overriding the canonical seed.
    Deterministic { seed: Option<Seed> },
    /// Choose a random seed, which is printed so the run can be reproduced.
    NonDeterministic,
}

impl GeneratorArgs {
    /// The generator that the arguments ask for; none given means the canonical one.
    pub fn into_generator(args: Option<Self>) -> (r: Generator)
        ensures
            r == match args {
                None => Generator::Deterministic(None),
                Some(GeneratorArgs::Deterministic { seed }) => Generator::Deterministic(seed),
                Some(GeneratorArgs::NonDeterministic) => Generator::NonDeterministic,
            },
    {
        match args {
            None => Generator::default(),
            Some(GeneratorArgs::Deterministic { seed: None }) => Generator::default(),
            Some(GeneratorArgs::Deterministic { seed: Some(seed) }) => Generator::Deterministic(Some(seed)),
            Some(GeneratorArgs::NonDeterministic) => Generator::NonDeterministic,
        }
    }
}

} // verus!

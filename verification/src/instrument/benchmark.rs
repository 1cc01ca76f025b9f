//! What a benchmark run measures and reports, apart from the floating-point statistics.

use vstd::prelude::*;

use crate::instrument::operation::OperationMetrics;

verus! {

pub const ATTRIBUTE_OPERATION: &'static str = "operation";

pub const ATTRIBUTE_BACKEND: &'static str = "backend";

pub const ATTRIBUTE_CLOCK: &'static str = "clock";

pub const ATTRIBUTE_DTYPE: &'static str = "dtype";

pub const ATTRIBUTE_M: &'static str = "m";

pub const ATTRIBUTE_N: &'static str = "n";

pub const ATTRIBUTE_K: &'static str = "k";

/// The operation a benchmark runs.
#[derive(Clone, Copy, Debug, PartialEq, Eq, Structural)]
pub enum OperationKind {
    Add,
    Matmul,
}

/// Where a benchmark runs.
#[derive(Clone, Copy, Debug, PartialEq, Eq, Structural)]
pub enum BenchmarkTarget {
    Host,
    Device,
}

/// The element type a benchmark computes with.
#[derive(Clone, Copy, Debug, PartialEq, Eq, Structural)]
pub enum DataType {
    F32,
    F64,
}

/// How floating-point operations are counted.
#[derive(Clone, Copy, Debug, PartialEq, Eq, Structural)]
pub enum FlopsConvention {
    /// A multiply-add counts as two operations: `2 * M * N * K` for a product.
    MatmulMultiplyAddAsTwo,
}

/// The work one operation does: arithmetic, and the bytes it must at least move.
#[derive(Clone, Copy, Debug)]
pub struct OperationWork {
    floating_point_operations: u128,
    algorithmic_bytes: Option<u128>,
}

/// The arithmetic of an `m x k` by `k x n` product: a multiply and an add per term.
pub open spec fn matmul_flops(m: int, n: int, k: int) -> int {
    2 * m * n * k
}

/// The bytes of an `m x k` by `k x n` product: both operands read and the output written once.
pub open spec fn matmul_bytes(m: int, n: int, k: int, element_bytes: int) -> int {
    element_bytes * (m * k + k * n + m * n)
}

impl OperationWork {
    pub closed spec fn flops_spec(self) -> u128 {
        self.floating_point_operations
    }

    pub closed spec fn bytes_spec(self) -> Option<u128> {
        self.algorithmic_bytes
    }

    pub fn new(floating_point_operations: u128, algorithmic_bytes: Option<u128>) -> (r: Self)
        ensures
            r.flops_spec() == floating_point_operations,
            r.bytes_spec() == algorithmic_bytes,
    {
        OperationWork { floating_point_operations, algorithmic_bytes }
    }

    /// The work of an `m x k` by `k x n` product over elements of `element_bytes` bytes.
    pub fn matmul(m: usize, n: usize, k: usize, element_bytes: usize) -> (r: Self)
        requires
            2 * m * n <= u128::MAX,
            matmul_flops(m as int, n as int, k as int) <= u128::MAX,
            m * k + k * n + m * n <= u128::MAX,
            matmul_bytes(m as int, n as int, k as int, element_bytes as int) <= u128::MAX,
        ensures
            r.flops_spec() == matmul_flops(m as int, n as int, k as int),
            r.bytes_spec() == Some(matmul_bytes(m as int, n as int, k as int, element_bytes as int) as u128),
    {
        let m = m as u128;
        let n = n as u128;
        let k = k as u128;
        let element_bytes = element_bytes as u128;
        proof {
            assert(2 * m <= 2 * m * n || n == 0) by (nonlinear_arith)
                requires
                    m >= 0,
                    n >= 0,
            ;
            assert(2 * m <= u128::MAX) by (nonlinear_arith)
                requires
                    m <= 0xffff_ffff_ffff_ffff_ffff_ffff_ffff_ffffu128,
                    m == m as usize,
            ;
            assert(m * k <= m * k + k * n + m * n && k * n <= k * n + m * n) by (nonlinear_arith)
                requires
                    m >= 0,
                    n >= 0,
                    k >= 0,
            ;
        }
        let flops = 2 * m * n * k;
        let bytes = element_bytes * (m * k + k * n + m * n);
        OperationWork::new(flops, Some(bytes))
    }

    pub fn floating_point_operations(self) -> (r: u128)
        ensures
            r == self.flops_spec(),
    {
        self.floating_point_operations
    }

    pub fn algorithmic_bytes(self) -> (r: Option<u128>)
        ensures
            r == self.bytes_spec(),
    {
        self.algorithmic_bytes
    }
}

/// The dimensions of a benchmarked product: `m x k` times `k x n`.
#[derive(Clone, Copy, Debug, PartialEq, Eq)]
pub struct BenchmarkShape {
    pub m: usize,
    pub n: usize,
    pub k: usize,
}

/// The machine a benchmark ran on.
#[derive(Clone, Debug, PartialEq, Eq)]
pub struct HostMetadata {
    pub architecture: &'static str,
    pub cpu_model: Option<String>,
    pub hostname: Option<String>,
    pub logical_cpus: usize,
    pub operating_system: &'static str,
}

/// The source revision a benchmark ran from.
#[derive(Clone, Debug, PartialEq, Eq)]
pub struct GitMetadata {
    pub commit: Option<String>,
    pub dirty: Option<bool>,
}

/// Where and from what a benchmark ran.
#[derive(Clone, Debug, PartialEq, Eq)]
pub struct BenchmarkEnvironment {
    pub git: GitMetadata,
    pub host: HostMetadata,
}

/// The layout of benchmark reports.
#[derive(Clone, Copy, Debug, PartialEq, Eq, Structural)]
pub enum BenchmarkSchemaVersion {
    V1,
}

impl BenchmarkSchemaVersion {
    /// The number written for this version in reports.
    pub fn number(self) -> (r: u32)
        ensures
            self == BenchmarkSchemaVersion::V1 ==> r == 1,
    {
        match self {
            BenchmarkSchemaVersion::V1 => 1,
        }
    }
}

/// How a capture was run and how many of its operations were timed.
#[derive(Clone, Copy, Debug)]
pub struct CaptureReport {
    pub operation_count: usize,
    pub sample_count: usize,
    pub sample_every: usize,
    pub warmup_operations: usize,
}

impl CaptureReport {
    /// The capture settings and sample count of `metrics`.
    pub fn from_metrics<T, M>(metrics: &OperationMetrics<T, M>) -> (r: Self)
        ensures
            r.operation_count == metrics.config_spec().count_spec(),
            r.sample_count == metrics.samples().len(),
            r.sample_every == metrics.config_spec().every_spec(),
            r.warmup_operations == metrics.config_spec().warmup_spec(),
    {
        CaptureReport {
            operation_count: metrics.operation_count(),
            sample_count: metrics.sample_count(),
            sample_every: metrics.sample_every(),
            warmup_operations: metrics.warmup_operations(),
        }
    }
}

/// What can make a benchmark run fail before or after its operations.
#[derive(Debug)]
pub enum BenchmarkError {
    /// A dimension does not fit in an `i64` metric attribute.
    InvalidDimension { name: &'static str, value: usize },
    /// No operation was timed.
    MissingLatencySamples,
    /// No timed operation took a measurable time.
    MissingRateSamples,
}

/// Runs benchmarks.
pub struct Benchmark;

impl Benchmark {
    /// `value` as an `i64` metric attribute, or the error naming the dimension.
    pub fn metric_dimension(name: &'static str, value: usize) -> (r: Result<i64, BenchmarkError>)
        ensures
            r is Ok <==> value <= i64::MAX,
            r matches Ok(v) ==> v == value,
            r matches Err(e) ==> e == (BenchmarkError::InvalidDimension { name, value }),
    {
        if (value as u64) <= 9223372036854775807u64 {
            Ok(value as i64)
        } else {
            Err(BenchmarkError::InvalidDimension { name, value })
        }
    }

    /// The `m`, `n` and `k` attributes of a run, checked in that order.
    pub fn metric_dimensions(shape: BenchmarkShape) -> (r: Result<(i64, i64, i64), BenchmarkError>)
        ensures
            r is Ok <==> shape.m <= i64::MAX && shape.n <= i64::MAX && shape.k <= i64::MAX,
            r matches Ok(d) ==> d == (shape.m as i64, shape.n as i64, shape.k as i64),
            r matches Err(e) ==> if shape.m > i64::MAX {
                e == (BenchmarkError::InvalidDimension { name: ATTRIBUTE_M, value: shape.m })
            } else if shape.n > i64::MAX {
                e == (BenchmarkError::InvalidDimension { name: ATTRIBUTE_N, value: shape.n })
            } else {
                e == (BenchmarkError::InvalidDimension { name: ATTRIBUTE_K, value: shape.k })
            },
    {
        let m = Benchmark::metric_dimension(ATTRIBUTE_M, shape.m)?;
        let n = Benchmark::metric_dimension(ATTRIBUTE_N, shape.n)?;
        let k = Benchmark::metric_dimension(ATTRIBUTE_K, shape.k)?;
        Ok((m, n, k))
    }
}

} // verus!

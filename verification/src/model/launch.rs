//! Launch planning for the CUDA backend: grid sizes and the checks made before a launch.
//!
//! The launch itself happens on a device stream; everything decided before it stands here.

use vstd::prelude::*;

use crate::kernel::{missing_kernel, Kernel, KernelError};
use crate::model::host::is_shape_error;
use crate::model::ModelError;
use crate::tensor::shape::Shape;
use crate::tensor::traits::{check_add_shapes, check_matmul_target, matmul_compatible, matmul_output};

verus! {

/// Threads per block of an element-wise launch.
pub const DEFAULT_THREADS_PER_BLOCK: u32 = 256;

/// Threads per block along `x` (columns) of a matrix launch.
pub const DEFAULT_BLOCK_X: u32 = 16;

/// Threads per block along `y` (rows) of a matrix launch.
pub const DEFAULT_BLOCK_Y: u32 = 16;

/// The grid and block dimensions of one kernel launch.
#[derive(Clone, Copy, Debug, PartialEq, Eq)]
pub struct LaunchConfig {
    pub grid_dim: (u32, u32, u32),
    pub block_dim: (u32, u32, u32),
    pub shared_mem_bytes: u32,
}

/// The number of blocks of `per_block` threads needed for `n` threads.
pub open spec fn blocks_for(n: int, per_block: int) -> int {
    if n % per_block == 0 {
        n / per_block
    } else {
        n / per_block + 1
    }
}

/// `blocks` blocks of `per_block` threads reach every one of `n` items, and no block lies
/// wholly past the last item.
pub open spec fn covers_exactly(blocks: int, per_block: int, n: int) -> bool {
    &&& blocks * per_block >= n
    &&& n > 0 ==> (blocks - 1) * per_block < n
    &&& n == 0 ==> blocks == 0
}

/// `e` reports block dimensions with a zero in them.
pub open spec fn is_block_error(e: ModelError, x: u32, y: u32, z: u32) -> bool {
    e == (ModelError::InvalidCudaBlockDimensions { x, y, z })
}

/// `e` reports a dimension or a count too large for the device's 32-bit arguments.
pub open spec fn is_too_large(e: ModelError, elements: usize) -> bool {
    e == (ModelError::TensorTooLarge { elements })
}

/// Ceiling division, with the statement that the blocks cover `n` exactly.
fn div_ceil(n: u32, d: u32) -> (r: u32)
    requires
        d > 0,
    ensures
        r == blocks_for(n as int, d as int),
        covers_exactly(r as int, d as int, n as int),
{
    let q = n / d;
    let rem = n % d;
    proof {
        assert(n == d * q + rem) by (nonlinear_arith)
            requires
                d > 0,
                q == n / d,
                rem == n % d,
        ;
        assert(q * d <= n) by (nonlinear_arith)
            requires
                n == d * q + rem,
                rem >= 0,
        ;
    }
    if rem == 0 {
        proof {
            assert(q * d == n) by (nonlinear_arith)
                requires
                    n == d * q + rem,
                    rem == 0,
            ;
            assert(n > 0 ==> (q - 1) * d < n) by (nonlinear_arith)
                requires
                    q * d == n,
                    d > 0,
            ;
            assert(n == 0 ==> q == 0) by (nonlinear_arith)
                requires
                    q * d == n,
                    d > 0,
            ;
        }
        q
    } else {
        proof {
            assert((q + 1) * d >= n) by (nonlinear_arith)
                requires
                    n == d * q + rem,
                    rem < d,
            ;
            assert(q * d < n) by (nonlinear_arith)
                requires
                    n == d * q + rem,
                    rem > 0,
            ;
            assert(q < n) by (nonlinear_arith)
                requires
                    q * d < n,
                    d > 0,
                    q >= 0,
            ;
        }
        q + 1
    }
}

/// The one-dimensional launch for an element-wise kernel over `n` items, with
/// `THREADS_PER_BLOCK` threads per block: enough blocks for every item and no more.
pub fn elementwise_launch_config<const THREADS_PER_BLOCK: u32>(n: u32) -> (r: Result<LaunchConfig, ModelError>)
    ensures
        r is Err <==> THREADS_PER_BLOCK == 0,
        r matches Err(e) ==> is_block_error(e, 0, 1, 1),
        r matches Ok(config) ==> {
            &&& config.grid_dim == (blocks_for(n as int, THREADS_PER_BLOCK as int) as u32, 1u32, 1u32)
            &&& config.block_dim == (THREADS_PER_BLOCK, 1u32, 1u32)
            &&& config.shared_mem_bytes == 0
            &&& covers_exactly(config.grid_dim.0 as int, THREADS_PER_BLOCK as int, n as int)
        },
{
    if THREADS_PER_BLOCK == 0 {
        return Err(ModelError::InvalidCudaBlockDimensions { x: 0, y: 1, z: 1 });
    }
    Ok(LaunchConfig {
        grid_dim: (div_ceil(n, THREADS_PER_BLOCK), 1, 1),
        block_dim: (THREADS_PER_BLOCK, 1, 1),
        shared_mem_bytes: 0,
    })
}

/// The two-dimensional launch for an `m x n` output: columns go to `x` in blocks of
/// `BLOCK_X`, rows go to `y` in blocks of `BLOCK_Y`.
pub fn matmul_launch_config<const BLOCK_X: u32, const BLOCK_Y: u32>(m: u32, n: u32, shared_mem_bytes: u32) -> (r: Result<
    LaunchConfig,
    ModelError,
>)
    ensures
        r is Err <==> BLOCK_X == 0 || BLOCK_Y == 0,
        r matches Err(e) ==> is_block_error(e, BLOCK_X, BLOCK_Y, 1),
        r matches Ok(config) ==> {
            &&& config.grid_dim == (
                blocks_for(n as int, BLOCK_X as int) as u32,
                blocks_for(m as int, BLOCK_Y as int) as u32,
                1u32,
            )
            &&& config.block_dim == (BLOCK_X, BLOCK_Y, 1u32)
            &&& config.shared_mem_bytes == shared_mem_bytes
            &&& covers_exactly(config.grid_dim.0 as int, BLOCK_X as int, n as int)
            &&& covers_exactly(config.grid_dim.1 as int, BLOCK_Y as int, m as int)
        },
{
    if BLOCK_X == 0 || BLOCK_Y == 0 {
        return Err(ModelError::InvalidCudaBlockDimensions { x: BLOCK_X, y: BLOCK_Y, z: 1 });
    }
    Ok(LaunchConfig {
        grid_dim: (div_ceil(n, BLOCK_X), div_ceil(m, BLOCK_Y), 1),
        block_dim: (BLOCK_X, BLOCK_Y, 1),
        shared_mem_bytes,
    })
}

/// Converts a size to the device's 32-bit argument type, or reports it too large.
fn device_size(value: usize) -> (r: Result<u32, ModelError>)
    ensures
        r is Ok <==> value <= u32::MAX,
        r matches Ok(v) ==> v == value,
        r matches Err(e) ==> is_too_large(e, value),
{
    if value <= 4294967295usize {
        Ok(value as u32)
    } else {
        Err(ModelError::TensorTooLarge { elements: value })
    }
}

/// Finds `kernel` among the kernels that were loaded.
pub fn find_kernel(loaded: &[Kernel], kernel: Kernel) -> (r: Result<(), KernelError>)
    ensures
        r is Ok <==> loaded@.contains(kernel),
        r matches Err(e) ==> e == (KernelError::MissingKernel { kernel, module: kernel.module_spec() }),
{
    let mut i: usize = 0;
    while i < loaded.len()
        invariant
            i <= loaded@.len(),
            forall|p: int| 0 <= p < i ==> loaded@[p] != kernel,
        decreases loaded@.len() - i,
    {
        if loaded[i] == kernel {
            proof {
                assert(loaded@[i as int] == kernel);
            }
            return Ok(());
        }
        i = i + 1;
    }
    Err(missing_kernel(kernel))
}

/// Everything a device matrix multiplication is launched with.
#[derive(Clone, Copy, Debug, PartialEq, Eq)]
pub struct MatmulLaunch {
    pub config: LaunchConfig,
    /// Rows of the output.
    pub m: u32,
    /// Columns of the output.
    pub n: u32,
    /// The shared dimension.
    pub k: u32,
}

/// The checks a device addition makes before its launch, in order: the shapes agree, the
/// kernel was loaded, the element count fits the device's 32-bit count; then the launch
/// covering every element. `count` is the number of elements in `a`'s buffer.
pub fn plan_cuda_add(loaded: &[Kernel], a: &Shape<2>, b: &Shape<2>, target: &Shape<2>, count: usize) -> (r: Result<
    LaunchConfig,
    ModelError,
>)
    ensures
        r is Ok <==> {
            &&& a@ == b@
            &&& a@ == target@
            &&& loaded@.contains(Kernel::AddF32)
            &&& count <= u32::MAX
        },
        r matches Err(e) ==> if a@ != b@ {
            is_shape_error(e, a@, b@)
        } else if a@ != target@ {
            is_shape_error(e, a@, target@)
        } else if !loaded@.contains(Kernel::AddF32) {
            e == ModelError::KernelError(
                KernelError::MissingKernel { kernel: Kernel::AddF32, module: Kernel::AddF32.module_spec() },
            )
        } else {
            is_too_large(e, count)
        },
        r matches Ok(config) ==> {
            &&& config.grid_dim == (blocks_for(count as int, DEFAULT_THREADS_PER_BLOCK as int) as u32, 1u32, 1u32)
            &&& config.block_dim == (DEFAULT_THREADS_PER_BLOCK, 1u32, 1u32)
            &&& config.shared_mem_bytes == 0
            &&& covers_exactly(config.grid_dim.0 as int, DEFAULT_THREADS_PER_BLOCK as int, count as int)
        },
{
    match check_add_shapes(a, b) {
        Ok(()) => {},
        Err(e) => return Err(ModelError::ShapeMismatch(e)),
    }
    match check_add_shapes(a, target) {
        Ok(()) => {},
        Err(e) => return Err(ModelError::ShapeMismatch(e)),
    }
    match find_kernel(loaded, Kernel::AddF32) {
        Ok(()) => {},
        Err(e) => return Err(ModelError::KernelError(e)),
    }
    let count = device_size(count)?;
    elementwise_launch_config::<DEFAULT_THREADS_PER_BLOCK>(count)
}

/// The checks a device matrix multiplication makes before its launch, in order: the shapes
/// fit `a * b = target`, the kernel was loaded, and `a`'s rows, `b`'s columns and `a`'s
/// columns each fit the device's 32-bit arguments; then the launch over the output.
pub fn plan_cuda_matmul(loaded: &[Kernel], a: &Shape<2>, b: &Shape<2>, target: &Shape<2>) -> (r: Result<
    MatmulLaunch,
    ModelError,
>)
    ensures
        r is Ok <==> {
            &&& matmul_compatible(*a, *b)
            &&& target@ == matmul_output(*a, *b)
            &&& loaded@.contains(Kernel::NaiveMatmulF32)
            &&& a.rows_spec() <= u32::MAX
            &&& b.cols_spec() <= u32::MAX
            &&& a.cols_spec() <= u32::MAX
        },
        r matches Err(e) ==> if !matmul_compatible(*a, *b) {
            is_shape_error(e, a@, b@)
        } else if target@ != matmul_output(*a, *b) {
            is_shape_error(e, matmul_output(*a, *b), target@)
        } else if !loaded@.contains(Kernel::NaiveMatmulF32) {
            e == ModelError::KernelError(
                KernelError::MissingKernel {
                    kernel: Kernel::NaiveMatmulF32,
                    module: Kernel::NaiveMatmulF32.module_spec(),
                },
            )
        } else if a.rows_spec() > u32::MAX {
            is_too_large(e, a.rows_spec())
        } else if b.cols_spec() > u32::MAX {
            is_too_large(e, b.cols_spec())
        } else {
            is_too_large(e, a.cols_spec())
        },
        r matches Ok(plan) ==> {
            &&& plan.m == a.rows_spec()
            &&& plan.n == b.cols_spec()
            &&& plan.k == a.cols_spec()
            &&& plan.config.grid_dim == (
                blocks_for(plan.n as int, DEFAULT_BLOCK_X as int) as u32,
                blocks_for(plan.m as int, DEFAULT_BLOCK_Y as int) as u32,
                1u32,
            )
            &&& plan.config.block_dim == (DEFAULT_BLOCK_X, DEFAULT_BLOCK_Y, 1u32)
            &&& plan.config.shared_mem_bytes == 0
            &&& covers_exactly(plan.config.grid_dim.0 as int, DEFAULT_BLOCK_X as int, plan.n as int)
            &&& covers_exactly(plan.config.grid_dim.1 as int, DEFAULT_BLOCK_Y as int, plan.m as int)
        },
{
    match check_matmul_target(a, b, target) {
        Ok(()) => {},
        Err(e) => return Err(ModelError::ShapeMismatch(e)),
    }
    match find_kernel(loaded, Kernel::NaiveMatmulF32) {
        Ok(()) => {},
        Err(e) => return Err(ModelError::KernelError(e)),
    }
    let m = device_size(a.rows())?;
    let n = device_size(b.cols())?;
    let k = device_size(a.cols())?;
    let config = matmul_launch_config::<DEFAULT_BLOCK_X, DEFAULT_BLOCK_Y>(m, n, 0)?;
    Ok(MatmulLaunch { config, m, n, k })
}

} // verus!

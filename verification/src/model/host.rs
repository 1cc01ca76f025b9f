//! The host backend: tensors in host memory, tiled matrix multiplication with lane-parallel
//! inner kernels.

use vstd::prelude::*;
use vstd::slice::slice_subrange;

use crate::element::{dot, lemma_dot_prefix_extend, Element};
use crate::instrument::operation::{duration_between, instant_duration_since, instant_now, OperationTimer, TimingClock};
use crate::model::simd::{SimdDotProduct, ACCUMULATORS, LANES};
use crate::model::tile::{lemma_whole_tile_written, tile_dot, tile_written, tiles_agree, SimdMicroKernel, KK, KM, KN};
use crate::model::{ModelError, OutputMode};
use crate::tensor::error::MatrixError;
use crate::tensor::host::{lemma_entries_determine, HostTensor};
use crate::tensor::layout::{
    lemma_index_bounds, lemma_index_injective, lemma_row_bounds, matrix_column, matrix_row,
};
use crate::tensor::shape::{prefix_products_fit, Shape};
use crate::tensor::traits::{matmul_compatible, matmul_output, mismatch, MatrixTensor, Tensor};

verus! {

/// The backend that computes on the host.
pub struct HostModelBackend<F> {
    _phantom: core::marker::PhantomData<F>,
}

/// Tile buffers and the transposed right operand, prepared once per multiplication.
struct PreparedTiledMatmul<F> {
    /// The right operand transposed, so that its columns are contiguous rows.
    b_transposed: HostTensor<F, 2>,
    /// The buffer for tiles of the left operand.
    a_tile: HostTensor<F, 2>,
    /// The buffer for tiles of the transposed right operand.
    b_tile: HostTensor<F, 2>,
    /// The buffer for tiles of the output.
    c_tile: HostTensor<F, 2>,
}

/// A `rows x cols` tile evenly divides `matrix` in both directions.
pub open spec fn tile_fits(matrix: Shape<2>, rows: int, cols: int) -> bool {
    rows != 0 && cols != 0 && (matrix.rows_spec() as int) % rows == 0 && (matrix.cols_spec() as int) % cols == 0
}

/// The `tm x tk`, `tk x tn` and `tm x tn` tiles divide `a`, `b` and `c`.
pub open spec fn tiles_fit(a: Shape<2>, b: Shape<2>, c: Shape<2>, tm: int, tn: int, tk: int) -> bool {
    tile_fits(a, tm, tk) && tile_fits(b, tk, tn) && tile_fits(c, tm, tn)
}

/// The three tile buffers can be allocated.
pub open spec fn tile_buffers_fit(tm: int, tn: int, tk: int) -> bool {
    tm * tk <= usize::MAX && tk * tn <= usize::MAX && tm * tn <= usize::MAX
}

/// `e` reports that a `rows x cols` tile does not divide `matrix`.
pub open spec fn is_tile_error(e: ModelError, matrix: Shape<2>, rows: int, cols: int) -> bool {
    match e {
        ModelError::InvalidTileShape { matrix: m, tile: t } => m@ == matrix@ && t@ == seq![
            rows as usize,
            cols as usize,
        ],
        _ => false,
    }
}

/// `e` reports a shape mismatch between `lhs` and `rhs`.
pub open spec fn is_shape_error(e: ModelError, lhs: Seq<usize>, rhs: Seq<usize>) -> bool {
    match e {
        ModelError::ShapeMismatch(s) => mismatch(s, lhs, rhs),
        _ => false,
    }
}

/// A tiled multiplication of compatible shapes fails: a tile does not divide its matrix, or
/// the shared dimension is empty while the output is not.
pub open spec fn tiled_matmul_fails(a: Shape<2>, b: Shape<2>, c: Shape<2>, tm: int, tn: int, tk: int) -> bool {
    !tiles_fit(a, b, c, tm, tn, tk) || (a.cols_spec() == 0 && a.rows_spec() > 0 && b.cols_spec() > 0)
}

/// The error that a failing tiled multiplication of compatible shapes reports.
pub open spec fn tiled_matmul_error(e: ModelError, a: Shape<2>, b: Shape<2>, c: Shape<2>, tm: int, tn: int, tk: int) -> bool {
    if !tile_fits(a, tm, tk) {
        is_tile_error(e, a, tm, tk)
    } else if !tile_fits(b, tk, tn) {
        is_tile_error(e, b, tk, tn)
    } else if !tile_fits(c, tm, tn) {
        is_tile_error(e, c, tm, tn)
    } else {
        e == ModelError::MatrixError(MatrixError::OutOfBounds(a))
    }
}

/// Entry `(i, j)` of `a * b`: row `i` of `a` times column `j` of `b`.
pub open spec fn product_entry<F: Element>(a: HostTensor<F, 2>, b: HostTensor<F, 2>, i: int, j: int) -> F {
    dot(
        matrix_row(a@, a.cols_spec() as int, i),
        matrix_column(b@, b.rows_spec() as int, b.cols_spec() as int, j),
    )
}

/// Every entry of `c` is the corresponding entry of `a * b`.
pub open spec fn is_product<F: Element>(a: HostTensor<F, 2>, b: HostTensor<F, 2>, c: HostTensor<F, 2>) -> bool {
    forall|i: int, j: int|
        0 <= i < c.rows_spec() && 0 <= j < c.cols_spec() ==> #[trigger] c.entry(i, j) == product_entry(a, b, i, j)
}

/// `t` holds the transpose of `b`.
pub open spec fn is_transpose<F>(t: HostTensor<F, 2>, b: HostTensor<F, 2>) -> bool {
    &&& t.wf()
    &&& t.rows_spec() == b.cols_spec()
    &&& t.cols_spec() == b.rows_spec()
    &&& forall|i: int, j: int|
        0 <= i < b.rows_spec() && 0 <= j < b.cols_spec() ==> #[trigger] t.entry(j, i) == b.entry(i, j)
}

pub proof fn lemma_next_multiple(i: int, total: int, step: int)
    requires
        0 <= i < total,
        step > 0,
        i % step == 0,
        total % step == 0,
    ensures
        i + step <= total,
        (i + step) % step == 0,
{
    vstd::arithmetic::div_mod::lemma_fundamental_div_mod(i, step);
    vstd::arithmetic::div_mod::lemma_fundamental_div_mod(total, step);
    let a = i / step;
    let b = total / step;
    assert(a < b) by (nonlinear_arith)
        requires
            i == step * a,
            total == step * b,
            i < total,
            step > 0,
    ;
    assert(i + step <= total) by (nonlinear_arith)
        requires
            i == step * a,
            total == step * b,
            a < b,
            step > 0,
    ;
    vstd::arithmetic::div_mod::lemma_mod_add_multiples_vanish(i, step);
}

impl<F> OperationTimer for HostModelBackend<F> {
    type Error = ModelError;
    type Marker = std::time::Instant;

    open spec fn clock_spec() -> TimingClock {
        TimingClock::HostWall
    }

    fn clock(&self) -> TimingClock {
        TimingClock::HostWall
    }

    fn mark(&self) -> (r: Result<std::time::Instant, ModelError>)
        ensures
            r is Ok,
    {
        Ok(instant_now())
    }

    open spec fn elapsed_spec(&self, start: std::time::Instant, end: std::time::Instant) -> core::time::Duration {
        instant_duration_since(end, start)
    }

    fn elapsed(&self, start: std::time::Instant, end: std::time::Instant) -> (r: Result<core::time::Duration, ModelError>)
        ensures
            r == Ok::<core::time::Duration, ModelError>(instant_duration_since(end, start)),
    {
        Ok(duration_between(start, end))
    }

    fn synchronize(&self) -> (r: Result<(), ModelError>)
        ensures
            r is Ok,
    {
        Ok(())
    }
}

/// On the host backend, the time between two marks is the time the clock gives from the first
/// mark to the second, `end.duration_since(start)`: the later reading measured since the earlier
/// one, never the other way round.
pub proof fn lemma_host_elapsed_runs_from_start_to_end<F>(
    backend: HostModelBackend<F>,
    start: std::time::Instant,
    end: std::time::Instant,
)
    ensures
        backend.elapsed_spec(start, end) == instant_duration_since(end, start),
{
}

impl<F> Default for HostModelBackend<F> {
    fn default() -> Self {
        HostModelBackend::new()
    }
}

impl<F> HostModelBackend<F> {
    pub fn new() -> Self {
        HostModelBackend { _phantom: core::marker::PhantomData }
    }

    /// Checks that tiles of shapes `a`, `b` and `c` can be multiplied: `a * b` has the shape of `c`.
    pub fn validate_tile_shapes(a: &Shape<2>, b: &Shape<2>, c: &Shape<2>) -> (r: Result<(), ModelError>)
        ensures
            r is Ok <==> (a.cols_spec() == b.rows_spec() && a.rows_spec() == c.rows_spec()
                && b.cols_spec() == c.cols_spec()),
            r matches Err(e) ==> if a.cols_spec() != b.rows_spec() {
                is_shape_error(e, a@, b@)
            } else if a.rows_spec() != c.rows_spec() {
                is_shape_error(e, a@, c@)
            } else {
                is_shape_error(e, b@, c@)
            },
    {
        if a.cols() != b.rows() {
            return Err(ModelError::ShapeMismatch(crate::tensor::error::ShapeMismatch { lhs: a.to_vec(), rhs: b.to_vec() }));
        }
        if a.rows() != c.rows() {
            return Err(ModelError::ShapeMismatch(crate::tensor::error::ShapeMismatch { lhs: a.to_vec(), rhs: c.to_vec() }));
        }
        if b.cols() != c.cols() {
            return Err(ModelError::ShapeMismatch(crate::tensor::error::ShapeMismatch { lhs: b.to_vec(), rhs: c.to_vec() }));
        }
        Ok(())
    }

    /// Checks that the `tile` shape evenly divides the `matrix` shape, with no empty side.
    pub fn validate_tile_fits(matrix: &Shape<2>, tile: &Shape<2>) -> (r: Result<(), ModelError>)
        ensures
            r is Ok <==> tile_fits(*matrix, tile.rows_spec() as int, tile.cols_spec() as int),
            r matches Err(e) ==> is_tile_error(e, *matrix, tile.rows_spec() as int, tile.cols_spec() as int),
    {
        let tile_rows = tile.rows();
        let tile_columns = tile.cols();
        let fits = tile_rows != 0 && tile_columns != 0 && matrix.rows() % tile_rows == 0
            && matrix.cols() % tile_columns == 0;
        if fits {
            Ok(())
        } else {
            let t = tile.to_vec();
            proof {
                tile.lemma_rank();
                assert(t@ =~= seq![tile_rows, tile_columns]);
            }
            Err(ModelError::InvalidTileShape { matrix: matrix.to_vec(), tile: t })
        }
    }
}

impl<F: Copy> HostModelBackend<F> {
    /// Transposes `target` in place.
    pub fn transpose(target: &mut HostTensor<F, 2>) -> (r: Result<(), ModelError>)
        requires
            old(target).wf(),
        ensures
            r is Ok,
            is_transpose(*final(target), *old(target)),
    {
        match target.transpose() {
            Ok(()) => Ok(()),
            Err(e) => Err(ModelError::MatrixError(e)),
        }
    }
}

impl<F: Element> HostModelBackend<F> {
    /// A copy of `source`, as the host already holds it.
    pub fn upload<const R: usize>(&self, source: &HostTensor<F, R>) -> (r: Result<HostTensor<F, R>, ModelError>)
        ensures
            r matches Ok(t) && t@ == source@ && t.shape_spec() == source.shape_spec(),
    {
        Ok(source.clone())
    }

    /// A copy of `source`, as the host already holds it.
    pub fn download<const R: usize>(&self, source: &HostTensor<F, R>) -> (r: Result<HostTensor<F, R>, ModelError>)
        ensures
            r matches Ok(t) && t@ == source@ && t.shape_spec() == source.shape_spec(),
    {
        Ok(source.clone())
    }

    /// A zero tensor of `shape`.
    pub fn allocate<const R: usize>(&self, shape: Shape<R>) -> (r: Result<HostTensor<F, R>, ModelError>)
        requires
            prefix_products_fit(shape@),
        ensures
            r matches Ok(t) && t.wf() && t.shape_spec() == shape && (forall|i: int|
                0 <= i < t@.len() ==> #[trigger] t@[i] == F::zero_spec()),
    {
        Ok(HostTensor::zeros(shape))
    }

    /// Element-wise `target = a + b`, for three matrices of one shape.
    pub fn try_add(&self, a: &HostTensor<F, 2>, b: &HostTensor<F, 2>, target: &mut HostTensor<F, 2>) -> (r: Result<(), ModelError>)
        requires
            a.wf(),
            b.wf(),
            old(target).wf(),
        ensures
            r is Ok <==> (a.shape_spec()@ == b.shape_spec()@ && a.shape_spec()@ == old(target).shape_spec()@),
            r matches Err(e) ==> if a.shape_spec()@ != b.shape_spec()@ {
                is_shape_error(e, a.shape_spec()@, b.shape_spec()@)
            } else {
                is_shape_error(e, a.shape_spec()@, old(target).shape_spec()@)
            },
            r is Err ==> final(target)@ == old(target)@,
            final(target).shape_spec() == old(target).shape_spec(),
            r is Ok ==> final(target).wf() && final(target)@.len() == a@.len() && forall|i: int|
                0 <= i < a@.len() ==> #[trigger] final(target)@[i] == a@[i].plus_spec(b@[i]),
    {
        match a.validate_add_shape_with(b) {
            Ok(()) => {},
            Err(e) => return Err(ModelError::ShapeMismatch(e)),
        }
        match a.validate_add_shape_with(target) {
            Ok(()) => {},
            Err(e) => return Err(ModelError::ShapeMismatch(e)),
        }
        let ghost shape = target.shape_spec();
        let len = a.as_slice().len();
        let a_data = a.as_slice();
        let b_data = b.as_slice();
        let out = target.as_mut_slice();
        let mut i: usize = 0;
        while i < len
            invariant
                i <= len,
                a_data@ == a@,
                b_data@ == b@,
                len == a@.len(),
                a@.len() == b@.len(),
                out@.len() == len,
                forall|k: int| 0 <= k < i ==> #[trigger] out@[k] == a@[k].plus_spec(b@[k]),
            decreases len - i,
        {
            out[i] = a_data[i].plus(b_data[i]);
            i = i + 1;
        }
        Ok(())
    }

    /// Combines every entry `(i, j)` of `c_tile`, as `mode` says, with the lane-parallel dot
    /// product of row `i` of `a_tile` and row `j` of `b_transposed`.
    fn try_matmul_dot_product(
        mode: OutputMode,
        a_tile: &HostTensor<F, 2>,
        b_transposed: &HostTensor<F, 2>,
        c_tile: &mut HostTensor<F, 2>,
    ) -> (r: Result<(), ModelError>)
        requires
            tiles_agree(*a_tile, *b_transposed, *old(c_tile)),
        ensures
            r is Ok,
            tile_written(mode, *a_tile, *b_transposed, *old(c_tile), *final(c_tile)),
    {
        let m = a_tile.rows();
        let n = b_transposed.rows();
        let k = a_tile.columns();
        let a_data = a_tile.as_slice();
        let b_data = b_transposed.as_slice();
        proof {
            a_tile.lemma_wf_matrix();
            b_transposed.lemma_wf_matrix();
            c_tile.lemma_wf_matrix();
        }
        let ghost before = *c_tile;
        let mut i: usize = 0;
        while i < m
            invariant
                tiles_agree(*a_tile, *b_transposed, before),
                m == a_tile.rows_spec(),
                n == b_transposed.rows_spec(),
                k == a_tile.cols_spec(),
                a_data@ == a_tile@,
                b_data@ == b_transposed@,
                a_data@.len() == m * k,
                b_data@.len() == n * k,
                m * k <= usize::MAX,
                n * k <= usize::MAX,
                i <= m,
                c_tile.shape_spec() == before.shape_spec(),
                c_tile.wf(),
                forall|r: int, s: int|
                    0 <= r < m && 0 <= s < n ==> #[trigger] c_tile.entry(r, s) == if r < i {
                        mode.apply_spec(before.entry(r, s), tile_dot(*a_tile, *b_transposed, r, s))
                    } else {
                        before.entry(r, s)
                    },
            decreases m - i,
        {
            proof {
                lemma_row_bounds(i as int, m as int, k as int);
            }
            let a_row = slice_subrange(a_data, i * k, i * k + k);
            let mut j: usize = 0;
            while j < n
                invariant
                    tiles_agree(*a_tile, *b_transposed, before),
                    m == a_tile.rows_spec(),
                    n == b_transposed.rows_spec(),
                    k == a_tile.cols_spec(),
                    a_data@ == a_tile@,
                    b_data@ == b_transposed@,
                    a_data@.len() == m * k,
                    b_data@.len() == n * k,
                    m * k <= usize::MAX,
                    n * k <= usize::MAX,
                    i < m,
                    j <= n,
                    a_row@ == matrix_row(a_tile@, k as int, i as int),
                    a_row@.len() == k,
                    c_tile.shape_spec() == before.shape_spec(),
                    c_tile.wf(),
                    forall|r: int, s: int|
                        0 <= r < m && 0 <= s < n ==> #[trigger] c_tile.entry(r, s) == if r < i || (r
                            == i && s < j) {
                            mode.apply_spec(before.entry(r, s), tile_dot(*a_tile, *b_transposed, r, s))
                        } else {
                            before.entry(r, s)
                        },
                decreases n - j,
            {
                proof {
                    lemma_row_bounds(j as int, n as int, k as int);
                }
                let b_row = slice_subrange(b_data, j * k, j * k + k);
                let value = <F as SimdDotProduct<LANES, ACCUMULATORS>>::simd_dot_product(a_row, b_row);
                proof {
                    c_tile.lemma_offset_of_entry(i as int, j as int);
                    assert(b_row@ == matrix_row(b_transposed@, k as int, j as int));
                    assert(value == tile_dot(*a_tile, *b_transposed, i as int, j as int));
                }
                let ghost prev = *c_tile;
                let combine = |current: F| -> (out: F) ensures out == mode.apply_spec(current, value) { mode.apply(current, value) };
                let result = c_tile.with_mut(i, j, combine);
                if let Err(e) = result {
                    return Err(ModelError::MatrixError(e));
                }
                proof {
                    c_tile.lemma_wf_matrix();
                    assert forall|r: int, s: int|
                        0 <= r < m && 0 <= s < n implies #[trigger] c_tile.entry(r, s) == if r < i || (r
                            == i && s < j + 1) {
                            mode.apply_spec(before.entry(r, s), tile_dot(*a_tile, *b_transposed, r, s))
                        } else {
                            before.entry(r, s)
                        } by {
                        lemma_index_bounds(r, s, m as int, n as int);
                        if r == i && s == j {
                            assert(c_tile.entry(r, s) == mode.apply_spec(prev.entry(r, s), value));
                        } else if r * n + s == i * n + j {
                            lemma_index_injective(r, s, i as int, j as int, n as int);
                        } else {
                            assert(c_tile.entry(r, s) == prev.entry(r, s));
                        }
                    }
                }
                j = j + 1;
            }
            i = i + 1;
        }
        Ok(())
    }

    /// Checks the tile shapes against the operands, transposes `b` and allocates the tile buffers.
    fn prepare_tiled_matmul<const TM: usize, const TN: usize, const TK: usize>(
        &self,
        a: &HostTensor<F, 2>,
        b: &HostTensor<F, 2>,
        c: &HostTensor<F, 2>,
    ) -> (r: Result<PreparedTiledMatmul<F>, ModelError>)
        requires
            a.wf(),
            b.wf(),
            c.wf(),
            tiles_fit(a.shape_spec(), b.shape_spec(), c.shape_spec(), TM as int, TN as int, TK as int)
                ==> tile_buffers_fit(TM as int, TN as int, TK as int),
        ensures
            r is Ok <==> tiles_fit(a.shape_spec(), b.shape_spec(), c.shape_spec(), TM as int, TN as int, TK as int),
            r matches Err(e) ==> tiled_matmul_error(e, a.shape_spec(), b.shape_spec(), c.shape_spec(), TM as int, TN as int, TK as int),
            r matches Ok(p) ==> {
                &&& is_transpose(p.b_transposed, *b)
                &&& p.a_tile.wf() && p.a_tile.rows_spec() == TM && p.a_tile.cols_spec() == TK
                &&& p.b_tile.wf() && p.b_tile.rows_spec() == TN && p.b_tile.cols_spec() == TK
                &&& p.c_tile.wf() && p.c_tile.rows_spec() == TM && p.c_tile.cols_spec() == TN
            },
    {
        let a_tile_shape = Shape::new([TM, TK]);
        let b_tile_shape = Shape::new([TK, TN]);
        let c_tile_shape = Shape::new([TM, TN]);
        Self::validate_tile_shapes(&a_tile_shape, &b_tile_shape, &c_tile_shape)?;
        Self::validate_tile_fits(a.shape(), &a_tile_shape)?;
        Self::validate_tile_fits(b.shape(), &b_tile_shape)?;
        Self::validate_tile_fits(c.shape(), &c_tile_shape)?;
        let mut b_transposed = b.clone();
        match b_transposed.transpose() {
            Ok(()) => {},
            Err(e) => return Err(ModelError::MatrixError(e)),
        }
        let b_tile_shape = b_tile_shape.transposed();
        proof {
            assert(TN * TK == TK * TN) by (nonlinear_arith);
            a_tile_shape.lemma_matrix_numel();
            b_tile_shape.lemma_matrix_numel();
            c_tile_shape.lemma_matrix_numel();
        }
        let a_tile = self.allocate(a_tile_shape)?;
        let b_tile = self.allocate(b_tile_shape)?;
        let c_tile = self.allocate(c_tile_shape)?;
        Ok(PreparedTiledMatmul { b_transposed, a_tile, b_tile, c_tile })
    }

    /// `c = a * b`, computed tile by tile with `TM x TN` output tiles and a shared dimension
    /// walked `TK` at a time. Tile sizes that suit the microkernel use it; others use
    /// lane-parallel dot products. The target is overwritten, never accumulated into.
    pub fn try_matmul<const TM: usize, const TN: usize, const TK: usize>(
        &self,
        a: &HostTensor<F, 2>,
        b: &HostTensor<F, 2>,
        c: &mut HostTensor<F, 2>,
    ) -> (r: Result<(), ModelError>)
        requires
            a.wf(),
            b.wf(),
            old(c).wf(),
            matmul_compatible(a.shape_spec(), b.shape_spec()) && old(c).shape_spec()@ == matmul_output(
                a.shape_spec(),
                b.shape_spec(),
            ) && tiles_fit(a.shape_spec(), b.shape_spec(), old(c).shape_spec(), TM as int, TN as int, TK as int)
                ==> tile_buffers_fit(TM as int, TN as int, TK as int),
        ensures
            r is Ok <==> (matmul_compatible(a.shape_spec(), b.shape_spec()) && old(c).shape_spec()@
                == matmul_output(a.shape_spec(), b.shape_spec()) && !tiled_matmul_fails(
                a.shape_spec(),
                b.shape_spec(),
                old(c).shape_spec(),
                TM as int,
                TN as int,
                TK as int,
            )),
            r matches Err(e) ==> if !matmul_compatible(a.shape_spec(), b.shape_spec()) {
                is_shape_error(e, a.shape_spec()@, b.shape_spec()@)
            } else if old(c).shape_spec()@ != matmul_output(a.shape_spec(), b.shape_spec()) {
                is_shape_error(e, matmul_output(a.shape_spec(), b.shape_spec()), old(c).shape_spec()@)
            } else {
                tiled_matmul_error(e, a.shape_spec(), b.shape_spec(), old(c).shape_spec(), TM as int, TN as int, TK as int)
            },
            r is Err ==> final(c)@ == old(c)@,
            final(c).shape_spec() == old(c).shape_spec(),
            final(c).wf(),
            r is Ok ==> is_product(*a, *b, *final(c)),
    {
        match a.validate_matmul_target_with(b, c) {
            Ok(()) => {},
            Err(e) => return Err(ModelError::ShapeMismatch(e)),
        }
        if <F as SimdMicroKernel<LANES, ACCUMULATORS>>::validate_tile_sizes(TM, TN, TK).is_ok() {
            self.try_matmul_microkernel_tiled::<TM, TN, TK>(a, b, c)
        } else {
            self.try_matmul_dot_product_tiled::<TM, TN, TK>(a, b, c)
        }
    }

    /// Tiled matrix multiplication with the microkernel for each tile.
    fn try_matmul_microkernel_tiled<const TM: usize, const TN: usize, const TK: usize>(
        &self,
        a: &HostTensor<F, 2>,
        b: &HostTensor<F, 2>,
        c: &mut HostTensor<F, 2>,
    ) -> (r: Result<(), ModelError>)
        requires
            a.wf(),
            b.wf(),
            old(c).wf(),
            matmul_compatible(a.shape_spec(), b.shape_spec()),
            old(c).shape_spec()@ == matmul_output(a.shape_spec(), b.shape_spec()),
            tiles_fit(a.shape_spec(), b.shape_spec(), old(c).shape_spec(), TM as int, TN as int, TK as int)
                ==> tile_buffers_fit(TM as int, TN as int, TK as int),
            TM % KM == 0 && TN % KN == 0 && TK % KK == 0,
        ensures
            r is Ok <==> !tiled_matmul_fails(a.shape_spec(), b.shape_spec(), old(c).shape_spec(), TM as int, TN as int, TK as int),
            r matches Err(e) ==> tiled_matmul_error(e, a.shape_spec(), b.shape_spec(), old(c).shape_spec(), TM as int, TN as int, TK as int),
            r is Err ==> final(c)@ == old(c)@,
            final(c).shape_spec() == old(c).shape_spec(),
            final(c).wf(),
            r is Ok ==> is_product(*a, *b, *final(c)),
    {
        self.tiled_matmul::<TM, TN, TK>(a, b, c, true)
    }

    /// Tiled matrix multiplication with lane-parallel dot products for each tile.
    fn try_matmul_dot_product_tiled<const TM: usize, const TN: usize, const TK: usize>(
        &self,
        a: &HostTensor<F, 2>,
        b: &HostTensor<F, 2>,
        c: &mut HostTensor<F, 2>,
    ) -> (r: Result<(), ModelError>)
        requires
            a.wf(),
            b.wf(),
            old(c).wf(),
            matmul_compatible(a.shape_spec(), b.shape_spec()),
            old(c).shape_spec()@ == matmul_output(a.shape_spec(), b.shape_spec()),
            tiles_fit(a.shape_spec(), b.shape_spec(), old(c).shape_spec(), TM as int, TN as int, TK as int)
                ==> tile_buffers_fit(TM as int, TN as int, TK as int),
        ensures
            r is Ok <==> !tiled_matmul_fails(a.shape_spec(), b.shape_spec(), old(c).shape_spec(), TM as int, TN as int, TK as int),
            r matches Err(e) ==> tiled_matmul_error(e, a.shape_spec(), b.shape_spec(), old(c).shape_spec(), TM as int, TN as int, TK as int),
            r is Err ==> final(c)@ == old(c)@,
            final(c).shape_spec() == old(c).shape_spec(),
            final(c).wf(),
            r is Ok ==> is_product(*a, *b, *final(c)),
    {
        self.tiled_matmul::<TM, TN, TK>(a, b, c, false)
    }

    /// Runs the chosen tile kernel: the microkernel or the lane-parallel dot products.
    fn run_tile_kernel(
        microkernel: bool,
        mode: OutputMode,
        a_tile: &HostTensor<F, 2>,
        b_tile: &HostTensor<F, 2>,
        c_tile: &mut HostTensor<F, 2>,
    ) -> (r: Result<(), ModelError>)
        requires
            tiles_agree(*a_tile, *b_tile, *old(c_tile)),
            microkernel ==> (a_tile.rows_spec() % KM == 0 && b_tile.rows_spec() % KN == 0
                && a_tile.cols_spec() % KK == 0),
        ensures
            r is Ok,
            tile_written(mode, *a_tile, *b_tile, *old(c_tile), *final(c_tile)),
    {
        if microkernel {
            let ghost before = *c_tile;
            match <F as SimdMicroKernel<LANES, ACCUMULATORS>>::matmul_microkernel(mode, a_tile, b_tile, c_tile) {
                Ok(()) => {
                    proof {
                        lemma_whole_tile_written(mode, *a_tile, *b_tile, before, *c_tile);
                    }
                    Ok(())
                },
                Err(e) => Err(ModelError::MatrixError(e)),
            }
        } else {
            Self::try_matmul_dot_product(mode, a_tile, b_tile, c_tile)
        }
    }

    /// Multiplies tile by tile: for each output tile, walks the shared dimension `TK` at a
    /// time, combining tiles of `a` and of `b` transposed with the chosen kernel, and writes
    /// the finished output tile back.
    #[verifier::rlimit(50)]
    fn tiled_matmul<const TM: usize, const TN: usize, const TK: usize>(
        &self,
        a: &HostTensor<F, 2>,
        b: &HostTensor<F, 2>,
        c: &mut HostTensor<F, 2>,
        microkernel: bool,
    ) -> (r: Result<(), ModelError>)
        requires
            a.wf(),
            b.wf(),
            old(c).wf(),
            matmul_compatible(a.shape_spec(), b.shape_spec()),
            old(c).shape_spec()@ == matmul_output(a.shape_spec(), b.shape_spec()),
            tiles_fit(a.shape_spec(), b.shape_spec(), old(c).shape_spec(), TM as int, TN as int, TK as int)
                ==> tile_buffers_fit(TM as int, TN as int, TK as int),
            microkernel ==> (TM % KM == 0 && TN % KN == 0 && TK % KK == 0),
        ensures
            r is Ok <==> !tiled_matmul_fails(a.shape_spec(), b.shape_spec(), old(c).shape_spec(), TM as int, TN as int, TK as int),
            r matches Err(e) ==> tiled_matmul_error(e, a.shape_spec(), b.shape_spec(), old(c).shape_spec(), TM as int, TN as int, TK as int),
            r is Err ==> final(c)@ == old(c)@,
            final(c).shape_spec() == old(c).shape_spec(),
            final(c).wf(),
            r is Ok ==> is_product(*a, *b, *final(c)),
    {
        let prepared = self.prepare_tiled_matmul::<TM, TN, TK>(a, b, c)?;
        let PreparedTiledMatmul { b_transposed, mut a_tile, mut b_tile, mut c_tile } = prepared;
        let m = a.rows();
        let n = b_transposed.rows();
        let k = a.columns();
        proof {
            a.lemma_wf_matrix();
            b.lemma_wf_matrix();
            c.lemma_wf_matrix();
            b_transposed.lemma_wf_matrix();
            a.shape_spec().lemma_matrix_numel();
            c.shape_spec().lemma_rank();
        }
        let ghost before = *c;
        let mut i: usize = 0;
        while i < m
            invariant
                a.wf(),
                b.wf(),
                is_transpose(b_transposed, *b),
                m == a.rows_spec(),
                n == b.cols_spec(),
                k == a.cols_spec(),
                k == b.rows_spec(),
                m == before.rows_spec(),
                n == before.cols_spec(),
                a_tile.wf() && a_tile.rows_spec() == TM && a_tile.cols_spec() == TK,
                b_tile.wf() && b_tile.rows_spec() == TN && b_tile.cols_spec() == TK,
                c_tile.wf() && c_tile.rows_spec() == TM && c_tile.cols_spec() == TN,
                tiles_fit(a.shape_spec(), b.shape_spec(), before.shape_spec(), TM as int, TN as int, TK as int),
                microkernel ==> (TM % KM == 0 && TN % KN == 0 && TK % KK == 0),
                i <= m,
                i % TM == 0,
                k == 0 && n > 0 ==> i == 0,
                before == *old(c),
                a@.len() == m * k,
                b_transposed@.len() == n * k,
                c.shape_spec() == before.shape_spec(),
                c.wf(),
                k == 0 ==> c@ == before@,
                forall|r: int, s: int|
                    0 <= r < m && 0 <= s < n ==> #[trigger] c.entry(r, s) == if r < i {
                        product_entry(*a, *b, r, s)
                    } else {
                        before.entry(r, s)
                    },
            decreases m - i,
        {
            proof {
                lemma_next_multiple(i as int, m as int, TM as int);
            }
            let mut j: usize = 0;
            while j < n
                invariant
                    a.wf(),
                    b.wf(),
                    is_transpose(b_transposed, *b),
                    m == a.rows_spec(),
                    n == b.cols_spec(),
                    k == a.cols_spec(),
                    k == b.rows_spec(),
                    m == before.rows_spec(),
                    n == before.cols_spec(),
                    a_tile.wf() && a_tile.rows_spec() == TM && a_tile.cols_spec() == TK,
                    b_tile.wf() && b_tile.rows_spec() == TN && b_tile.cols_spec() == TK,
                    c_tile.wf() && c_tile.rows_spec() == TM && c_tile.cols_spec() == TN,
                    tiles_fit(a.shape_spec(), b.shape_spec(), before.shape_spec(), TM as int, TN as int, TK as int),
                    microkernel ==> (TM % KM == 0 && TN % KN == 0 && TK % KK == 0),
                    i < m,
                    i + TM <= m,
                    i % TM == 0,
                    j <= n,
                    j % TN == 0,
                    k == 0 && n > 0 ==> i == 0 && j == 0,
                    before == *old(c),
                    a@.len() == m * k,
                    b_transposed@.len() == n * k,
                    c.shape_spec() == before.shape_spec(),
                    c.wf(),
                    k == 0 ==> c@ == before@,
                    forall|r: int, s: int|
                        0 <= r < m && 0 <= s < n ==> #[trigger] c.entry(r, s) == if r < i || (r < i + TM && s < j) {
                            product_entry(*a, *b, r, s)
                        } else {
                            before.entry(r, s)
                        },
                decreases n - j,
            {
                proof {
                    lemma_next_multiple(j as int, n as int, TN as int);
                    if k > 0 {
                        lemma_next_multiple(0, k as int, TK as int);
                    }
                }
                if let Err(e) = a.copy_tile_into([i, 0], &mut a_tile) {
                    proof {
                        if k > 0 {
                            assert(TK <= k);
                        } else {
                            vstd::arithmetic::div_mod::lemma_small_mod(k as nat, TK as nat);
                        }
                        assert(k == 0) by {
                            if k > 0 {
                                assert(TK <= k);
                            }
                        }
                    }
                    return Err(ModelError::MatrixError(e));
                }
                if let Err(e) = b_transposed.copy_tile_into([j, 0], &mut b_tile) {
                    return Err(ModelError::MatrixError(e));
                }
                proof {
                    assert forall|p: int, q: int| 0 <= p < TM && 0 <= q < TN implies
                        tile_dot(a_tile, b_tile, p, q) == dot(
                            matrix_row(a@, k as int, i + p).subrange(0, TK as int),
                            matrix_row(b_transposed@, k as int, j + q).subrange(0, TK as int),
                        ) by {
                        lemma_tile_row(a_tile, *a, i as int, 0, p);
                        lemma_tile_row(b_tile, b_transposed, j as int, 0, q);
                    }
                }
                let ghost c_tile_before = c_tile;
                Self::run_tile_kernel(microkernel, OutputMode::Overwrite, &a_tile, &b_tile, &mut c_tile)?;
                let mut kk: usize = TK;
                while kk < k
                    invariant
                        a.wf(),
                        is_transpose(b_transposed, *b),
                        m == a.rows_spec(),
                        n == b.cols_spec(),
                        k == a.cols_spec(),
                        a_tile.wf() && a_tile.rows_spec() == TM && a_tile.cols_spec() == TK,
                        b_tile.wf() && b_tile.rows_spec() == TN && b_tile.cols_spec() == TK,
                        c_tile.wf() && c_tile.rows_spec() == TM && c_tile.cols_spec() == TN,
                        microkernel ==> (TM % KM == 0 && TN % KN == 0 && TK % KK == 0),
                        b.wf(),
                        k == b.rows_spec(),
                        a@.len() == m * k,
                        b_transposed@.len() == n * k,
                        TK > 0,
                        k % TK == 0,
                        i + TM <= m,
                        j + TN <= n,
                        TK <= kk <= k,
                        kk % TK == 0,
                        forall|p: int, q: int|
                            0 <= p < TM && 0 <= q < TN ==> #[trigger] c_tile.entry(p, q) == dot(
                                matrix_row(a@, k as int, i + p).subrange(0, kk as int),
                                matrix_row(b_transposed@, k as int, j + q).subrange(0, kk as int),
                            ),
                    decreases k - kk,
                {
                    proof {
                        lemma_next_multiple(kk as int, k as int, TK as int);
                    }
                    if let Err(e) = a.copy_tile_into([i, kk], &mut a_tile) {
                        return Err(ModelError::MatrixError(e));
                    }
                    if let Err(e) = b_transposed.copy_tile_into([j, kk], &mut b_tile) {
                        return Err(ModelError::MatrixError(e));
                    }
                    let ghost accumulated = c_tile;
                    Self::run_tile_kernel(microkernel, OutputMode::Accumulate, &a_tile, &b_tile, &mut c_tile)?;
                    proof {
                        assert forall|p: int, q: int|
                            0 <= p < TM && 0 <= q < TN implies #[trigger] c_tile.entry(p, q) == dot(
                                matrix_row(a@, k as int, i + p).subrange(0, kk + TK),
                                matrix_row(b_transposed@, k as int, j + q).subrange(0, kk + TK),
                            ) by {
                            lemma_tile_row(a_tile, *a, i as int, kk as int, p);
                            lemma_tile_row(b_tile, b_transposed, j as int, kk as int, q);
                            lemma_index_bounds(i + p, 0, m as int, k as int);
                            lemma_row_bounds(i + p, m as int, k as int);
                            lemma_row_bounds(j + q, n as int, k as int);
                            lemma_dot_prefix_extend(
                                matrix_row(a@, k as int, i + p),
                                matrix_row(b_transposed@, k as int, j + q),
                                kk as int,
                                TK as int,
                            );
                            assert(accumulated.entry(p, q) == dot(
                                matrix_row(a@, k as int, i + p).subrange(0, kk as int),
                                matrix_row(b_transposed@, k as int, j + q).subrange(0, kk as int),
                            ));
                        }
                    }
                    kk = kk + TK;
                }
                let ghost c_prev = *c;
                if let Err(e) = c.write_tile([i, j], &c_tile) {
                    return Err(ModelError::MatrixError(e));
                }
                proof {
                    assert forall|r: int, s: int|
                        0 <= r < m && 0 <= s < n implies #[trigger] c.entry(r, s) == if r < i || (r < i + TM && s < j + TN) {
                            product_entry(*a, *b, r, s)
                        } else {
                            before.entry(r, s)
                        } by {
                        if i <= r < i + TM && j <= s < j + TN {
                            let p = r - i;
                            let q = s - j;
                            lemma_row_bounds(r, m as int, k as int);
                            lemma_row_bounds(s, n as int, k as int);
                            assert(matrix_row(a@, k as int, r).subrange(0, k as int) =~= matrix_row(a@, k as int, r));
                            assert(matrix_row(b_transposed@, k as int, s).subrange(0, k as int) =~= matrix_row(b_transposed@, k as int, s));
                            lemma_transpose_row(b_transposed, *b, s);
                            assert(c_tile.entry(p, q) == c.entry(r, s));
                        } else {
                            assert(c.entry(r, s) == c_prev.entry(r, s));
                        }
                    }
                }
                j = j + TN;
            }
            i = i + TM;
        }
        Ok(())
    }
}

/// A row of a tile copied out of `src` at `(r0, c0)` is the matching stretch of a row of `src`.
pub proof fn lemma_tile_row<F>(tile: HostTensor<F, 2>, src: HostTensor<F, 2>, r0: int, c0: int, p: int)
    requires
        tile.wf(),
        src.wf(),
        0 <= p < tile.rows_spec(),
        0 <= r0,
        0 <= c0,
        r0 + tile.rows_spec() <= src.rows_spec(),
        c0 + tile.cols_spec() <= src.cols_spec(),
        forall|i: int, j: int|
            0 <= i < tile.rows_spec() && 0 <= j < tile.cols_spec() ==> #[trigger] tile.entry(i, j)
                == src.entry(r0 + i, c0 + j),
    ensures
        matrix_row(tile@, tile.cols_spec() as int, p) == matrix_row(src@, src.cols_spec() as int, r0 + p).subrange(
            c0,
            c0 + tile.cols_spec(),
        ),
{
    tile.lemma_wf_matrix();
    src.lemma_wf_matrix();
    lemma_row_bounds(p, tile.rows_spec() as int, tile.cols_spec() as int);
    lemma_row_bounds(r0 + p, src.rows_spec() as int, src.cols_spec() as int);
    assert forall|t: int| 0 <= t < tile.cols_spec() implies #[trigger] matrix_row(
        tile@,
        tile.cols_spec() as int,
        p,
    )[t] == matrix_row(src@, src.cols_spec() as int, r0 + p).subrange(c0, c0 + tile.cols_spec())[t] by {
        assert(tile.entry(p, t) == src.entry(r0 + p, c0 + t));
    }
    assert(matrix_row(tile@, tile.cols_spec() as int, p) =~= matrix_row(src@, src.cols_spec() as int, r0 + p).subrange(
        c0,
        c0 + tile.cols_spec(),
    ));
}

/// A row of the transpose is the matching column of the original.
pub proof fn lemma_transpose_row<F>(t: HostTensor<F, 2>, b: HostTensor<F, 2>, s: int)
    requires
        is_transpose(t, b),
        b.wf(),
        0 <= s < b.cols_spec(),
    ensures
        matrix_row(t@, t.cols_spec() as int, s) == matrix_column(b@, b.rows_spec() as int, b.cols_spec() as int, s),
{
    t.lemma_wf_matrix();
    lemma_row_bounds(s, t.rows_spec() as int, t.cols_spec() as int);
    assert forall|x: int| 0 <= x < b.rows_spec() implies #[trigger] matrix_row(t@, t.cols_spec() as int, s)[x]
        == matrix_column(b@, b.rows_spec() as int, b.cols_spec() as int, s)[x] by {
        assert(t.entry(s, x) == b.entry(x, s));
    }
    assert(matrix_row(t@, t.cols_spec() as int, s) =~= matrix_column(b@, b.rows_spec() as int, b.cols_spec() as int, s));
}

/// A product is determined by its operands: two well-formed outputs of one shape that both
/// hold `a * b` hold the same elements, whatever tiles produced them.
pub proof fn lemma_product_unique<F: Element>(a: HostTensor<F, 2>, b: HostTensor<F, 2>, c1: HostTensor<F, 2>, c2: HostTensor<F, 2>)
    requires
        c1.wf(),
        c2.wf(),
        c1.shape_spec()@ == c2.shape_spec()@,
        is_product(a, b, c1),
        is_product(a, b, c2),
    ensures
        c1@ == c2@,
{
    c1.shape_spec().lemma_rank();
    c2.shape_spec().lemma_rank();
    assert(c1.rows_spec() == c1.shape_spec()@[0]);
    assert(c2.rows_spec() == c2.shape_spec()@[0]);
    assert forall|i: int, j: int|
        0 <= i < c1.rows_spec() && 0 <= j < c1.cols_spec() implies #[trigger] c1.entry(i, j) == c2.entry(i, j) by {
        assert(c1.entry(i, j) == product_entry(a, b, i, j));
        assert(c2.entry(i, j) == product_entry(a, b, i, j));
    }
    lemma_entries_determine(c1, c2);
}

/// Uploading a tensor to the host backend and downloading it again gives the same elements
/// and shape.
pub proof fn lemma_host_round_trip<F, const R: usize>(source: HostTensor<F, R>, uploaded: HostTensor<F, R>, downloaded: HostTensor<F, R>)
    requires
        uploaded@ == source@,
        uploaded.shape_spec() == source.shape_spec(),
        downloaded@ == uploaded@,
        downloaded.shape_spec() == uploaded.shape_spec(),
    ensures
        downloaded@ == source@,
        downloaded.shape_spec() == source.shape_spec(),
{
}

} // verus!

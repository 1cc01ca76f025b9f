//! The register-blocked microkernel: a `KM x KN` block of outputs computed at once,
//! walking the shared dimension `KK` lanes at a time.

use vstd::prelude::*;

use crate::element::{dot, Element};
use crate::model::simd::{lemma_prefix_step, LaneVector, SimdVector, ACCUMULATORS, LANES};
use crate::model::OutputMode;
use crate::tensor::error::MatrixError;
use crate::tensor::host::HostTensor;
use crate::tensor::layout::{lemma_index_bounds, lemma_index_injective, lemma_row_bounds, matrix_row};
use vstd::slice::slice_subrange;

verus! {

/// Rows of the left operand handled per block.
pub const KM: usize = 2;

/// Rows of the (transposed) right operand handled per block.
pub const KN: usize = 4;

/// Elements of the shared dimension handled per step.
pub const KK: usize = LANES;

/// `a` is `m x k`, `b` holds the `n` columns of the right operand as rows of length `k`,
/// and `c` is `m x n`; all three are well formed.
pub open spec fn tiles_agree<F>(a: HostTensor<F, 2>, b: HostTensor<F, 2>, c: HostTensor<F, 2>) -> bool {
    &&& a.wf()
    &&& b.wf()
    &&& c.wf()
    &&& a.cols_spec() == b.cols_spec()
    &&& c.rows_spec() == a.rows_spec()
    &&& c.cols_spec() == b.rows_spec()
}

/// The operands of the microkernel: `a` is `m x k`, and `b`, read in runs of `k` entries,
/// holds the `n` columns of the right operand, so that when there is anything to compute its
/// rows are at least `k` long. Both are well formed.
pub open spec fn kernel_operands<F>(a: HostTensor<F, 2>, b: HostTensor<F, 2>) -> bool {
    &&& a.wf()
    &&& b.wf()
    &&& a.rows_spec() > 0 && b.rows_spec() > 0 ==> a.cols_spec() <= b.cols_spec()
}

/// The dot product of row `i` of `a` with the `j`-th run of `a`'s column count of entries of
/// `b`: row `j` of `b` when `b` has as many columns as `a`.
pub open spec fn tile_dot<F: Element>(a: HostTensor<F, 2>, b: HostTensor<F, 2>, i: int, j: int) -> F {
    dot(matrix_row(a@, a.cols_spec() as int, i), matrix_row(b@, a.cols_spec() as int, j))
}

/// `after` is `before` with every entry `(i, j)` combined, as `mode` says, with `tile_dot(a, b, i, j)`.
pub open spec fn tile_written<F: Element>(
    mode: OutputMode,
    a: HostTensor<F, 2>,
    b: HostTensor<F, 2>,
    before: HostTensor<F, 2>,
    after: HostTensor<F, 2>,
) -> bool {
    &&& after.shape_spec() == before.shape_spec()
    &&& after.wf()
    &&& forall|i: int, j: int|
        0 <= i < a.rows_spec() && 0 <= j < b.rows_spec() ==> #[trigger] after.entry(i, j)
            == mode.apply_spec(before.entry(i, j), tile_dot(a, b, i, j))
}

/// Entry `(r, s)` of the output is among the first `q` of block `(i, j)` or of an earlier block.
pub open spec fn block_done(r: int, s: int, i: int, j: int, q: int) -> bool {
    ||| r < i
    ||| (i <= r < i + KM && s < j)
    ||| (i <= r < i + KM && j <= s < j + KN && (r - i) * KN + (s - j) < q)
}

/// `(r, s)` is a position of the matrix `c`.
pub open spec fn in_matrix<F>(c: HostTensor<F, 2>, r: int, s: int) -> bool {
    0 <= r < c.rows_spec() && 0 <= s < c.cols_spec()
}

/// `after` is `before` with the product entries `(r, s)` written in blocks before
/// `(i, j, q)` combined, as `mode` says, with `tile_dot(a, b, r, s)`; every other entry,
/// inside or outside the `m x n` product, is as it was.
pub open spec fn kernel_written<F: Element>(
    mode: OutputMode,
    a: HostTensor<F, 2>,
    b: HostTensor<F, 2>,
    before: HostTensor<F, 2>,
    after: HostTensor<F, 2>,
    i: int,
    j: int,
    q: int,
) -> bool {
    &&& after.shape_spec() == before.shape_spec()
    &&& after.wf()
    &&& forall|r: int, s: int|
        in_matrix(before, r, s) ==> #[trigger] after.entry(r, s) == if r < a.rows_spec() && s < b.rows_spec()
            && block_done(r, s, i, j, q) {
            mode.apply_spec(before.entry(r, s), tile_dot(a, b, r, s))
        } else {
            before.entry(r, s)
        }
}

/// Every product entry written in blocks before `(i, j, q)` is a position of `c`.
pub open spec fn kernel_reached<F>(a: HostTensor<F, 2>, b: HostTensor<F, 2>, c: HostTensor<F, 2>, i: int, j: int, q: int) -> bool {
    forall|r: int, s: int|
        0 <= r < a.rows_spec() && 0 <= s < b.rows_spec() && #[trigger] block_done(r, s, i, j, q) ==> in_matrix(c, r, s)
}

/// The writes stop at entry `q` of block `(i, j)`: every product entry before it is a position
/// of `c`, and that one is not.
pub open spec fn kernel_stopped<F>(a: HostTensor<F, 2>, b: HostTensor<F, 2>, c: HostTensor<F, 2>, i: int, j: int, q: int) -> bool {
    &&& 0 <= i < a.rows_spec() && i % (KM as int) == 0
    &&& 0 <= j < b.rows_spec() && j % (KN as int) == 0
    &&& 0 <= q < KM * KN
    &&& !in_matrix(c, i + q / (KN as int), j + q % (KN as int))
    &&& kernel_reached(a, b, c, i, j, q)
}

/// Every entry of the product fits the output.
pub open spec fn kernel_fits<F>(a: HostTensor<F, 2>, b: HostTensor<F, 2>, c: HostTensor<F, 2>) -> bool {
    a.rows_spec() == 0 || b.rows_spec() == 0 || (c.rows_spec() >= a.rows_spec() && c.cols_spec() >= b.rows_spec())
}

/// With operands and output that agree, a kernel that wrote every block wrote the whole tile.
pub proof fn lemma_whole_tile_written<F: Element>(
    mode: OutputMode,
    a: HostTensor<F, 2>,
    b: HostTensor<F, 2>,
    before: HostTensor<F, 2>,
    after: HostTensor<F, 2>,
)
    requires
        tiles_agree(a, b, before),
        kernel_written(mode, a, b, before, after, a.rows_spec() as int, 0, 0),
    ensures
        tile_written(mode, a, b, before, after),
{
    assert forall|i: int, j: int| 0 <= i < a.rows_spec() && 0 <= j < b.rows_spec() implies #[trigger] after.entry(i, j)
        == mode.apply_spec(before.entry(i, j), tile_dot(a, b, i, j)) by {
        assert(in_matrix(before, i, j));
        assert(block_done(i, j, a.rows_spec() as int, 0, 0));
    }
}

/// Within a well-formed matrix, `(x, y)` has an offset exactly when it is a position.
proof fn lemma_offset_in_matrix<F>(c: HostTensor<F, 2>, x: int, y: int)
    requires
        c.wf(),
        0 <= x,
        0 <= y,
    ensures
        c.offset_of(x, y) is Some <==> in_matrix(c, x, y),
{
    c.lemma_wf_matrix();
    if in_matrix(c, x, y) {
        c.lemma_offset_of_entry(x, y);
    }
    if c.offset_of(x, y) is Some {
        let rows = c.rows_spec() as int;
        let cols = c.cols_spec() as int;
        assert(x < rows) by (nonlinear_arith)
            requires
                0 <= x,
                0 <= y < cols,
                x * cols + y < rows * cols,
        ;
    }
}

/// Tile matrix multiplication with a register-blocked microkernel.
pub trait SimdMicroKernel<const LANES: usize, const ACCUMULATORS: usize>: Element {
    /// Combines every product entry `(i, j)` of `c`, as `mode` says, with the dot product of
    /// row `i` of `a` and the `j`-th run of `a.columns()` entries of `b`, block by block of
    /// `KM x KN` entries, row by row within a block. Other entries of `c` are left as they
    /// are. Where an entry falls outside `c`, the writes stop there with `OutOfBounds`, and
    /// the entries written before it stay written.
    fn matmul_microkernel(
        mode: OutputMode,
        a: &HostTensor<Self, 2>,
        b: &HostTensor<Self, 2>,
        c: &mut HostTensor<Self, 2>,
    ) -> (r: Result<(), MatrixError>)
        requires
            kernel_operands(*a, *b),
            old(c).wf(),
            a.rows_spec() % KM == 0,
            b.rows_spec() % KN == 0,
            a.cols_spec() % KK == 0,
        ensures
            r is Ok <==> kernel_fits(*a, *b, *old(c)),
            r is Ok ==> kernel_written(mode, *a, *b, *old(c), *final(c), a.rows_spec() as int, 0, 0),
            r is Err ==> r == Err::<(), MatrixError>(MatrixError::OutOfBounds(old(c).shape_spec())) && exists|
                i: int,
                j: int,
                q: int,
            |
                #![trigger kernel_written(mode, *a, *b, *old(c), *final(c), i, j, q)]
                kernel_stopped(*a, *b, *old(c), i, j, q) && kernel_written(mode, *a, *b, *old(c), *final(c), i, j, q),
    ;

    /// Whether tiles of `m x k` and `k x n` suit the microkernel.
    fn validate_tile_sizes(m: usize, n: usize, k: usize) -> (r: Result<(), MatrixError>)
        ensures
            r is Ok <==> (m % KM == 0 && n % KN == 0 && k % KK == 0),
            r is Err ==> r == Err::<(), MatrixError>(
                MatrixError::InvalidTileSize((KM, KN, KK), (m, n, k)),
            ),
    ;
}

impl<F: Element> SimdMicroKernel<LANES, ACCUMULATORS> for F {
    fn matmul_microkernel(
        mode: OutputMode,
        a: &HostTensor<F, 2>,
        b: &HostTensor<F, 2>,
        c: &mut HostTensor<F, 2>,
    ) -> (r: Result<(), MatrixError>) {
        microkernel(mode, a, b, c)
    }

    fn validate_tile_sizes(m: usize, n: usize, k: usize) -> (r: Result<(), MatrixError>) {
        if m % KM == 0 && n % KN == 0 && k % KK == 0 {
            Ok(())
        } else {
            Err(MatrixError::InvalidTileSize((KM, KN, KK), (m, n, k)))
        }
    }
}

fn microkernel<F: Element>(
    mode: OutputMode,
    a: &HostTensor<F, 2>,
    b: &HostTensor<F, 2>,
    c: &mut HostTensor<F, 2>,
) -> (r: Result<(), MatrixError>)
    requires
        kernel_operands(*a, *b),
        old(c).wf(),
        a.rows_spec() % KM == 0,
        b.rows_spec() % KN == 0,
        a.cols_spec() % KK == 0,
    ensures
        r is Ok <==> kernel_fits(*a, *b, *old(c)),
        r is Ok ==> kernel_written(mode, *a, *b, *old(c), *final(c), a.rows_spec() as int, 0, 0),
        r is Err ==> r == Err::<(), MatrixError>(MatrixError::OutOfBounds(old(c).shape_spec())) && exists|
            i: int,
            j: int,
            q: int,
        |
            #![trigger kernel_written(mode, *a, *b, *old(c), *final(c), i, j, q)]
            kernel_stopped(*a, *b, *old(c), i, j, q) && kernel_written(mode, *a, *b, *old(c), *final(c), i, j, q),
{
    let m = a.rows();
    let n = b.rows();
    let k = a.columns();
    let a_data = a.as_slice();
    let b_data = b.as_slice();
    let chunks = k / KK;
    proof {
        a.lemma_wf_matrix();
        b.lemma_wf_matrix();
        c.lemma_wf_matrix();
        assert(chunks * KK == k) by (nonlinear_arith)
            requires
                chunks == k / KK,
                k % KK == 0,
                KK > 0,
        ;
        if m > 0 && n > 0 {
            let bc = b.cols_spec() as int;
            assert(n * k <= n * bc) by (nonlinear_arith)
                requires
                    k <= bc,
                    0 <= n,
            ;
        }
    }
    let ghost before = *c;
    let mut i: usize = 0;
    while i < m
        invariant
            kernel_operands(*a, *b),
            before == *old(c),
            before.wf(),
            m == a.rows_spec(),
            n == b.rows_spec(),
            k == a.cols_spec(),
            a_data@ == a@,
            b_data@ == b@,
            a@.len() == m * k,
            m * k <= usize::MAX,
            m > 0 && n > 0 ==> n * k <= b@.len(),
            b@.len() <= usize::MAX,
            chunks * KK == k,
            m % KM == 0,
            n % KN == 0,
            i % KM == 0,
            i <= m,
            c.shape_spec() == before.shape_spec(),
            c.wf(),
            kernel_written(mode, *a, *b, before, *c, i as int, 0, 0),
            kernel_reached(*a, *b, before, i as int, 0, 0),
        decreases m - i,
    {
        proof {
            assert(i + KM <= m) by (nonlinear_arith)
                requires
                    i < m,
                    i % KM == 0,
                    m % KM == 0,
                    KM == 2,
            ;
        }
        let mut j: usize = 0;
        while j < n
            invariant
                kernel_operands(*a, *b),
                before == *old(c),
                before.wf(),
                m == a.rows_spec(),
                n == b.rows_spec(),
                k == a.cols_spec(),
                a_data@ == a@,
                b_data@ == b@,
                a@.len() == m * k,
                m * k <= usize::MAX,
                m > 0 && n > 0 ==> n * k <= b@.len(),
                b@.len() <= usize::MAX,
                chunks * KK == k,
                m % KM == 0,
                n % KN == 0,
                i % KM == 0,
                i + KM <= m,
                j % KN == 0,
                j <= n,
                c.shape_spec() == before.shape_spec(),
                c.wf(),
                kernel_written(mode, *a, *b, before, *c, i as int, j as int, 0),
                kernel_reached(*a, *b, before, i as int, j as int, 0),
            decreases n - j,
        {
            proof {
                assert(j + KN <= n) by (nonlinear_arith)
                    requires
                        j < n,
                        j % KN == 0,
                        n % KN == 0,
                        KN == 4,
                ;
            }
            let mut accumulators: Vec<LaneVector<F, LANES>> = Vec::new();
            let mut q: usize = 0;
            while q < KM * KN
                invariant
                    q <= KM * KN,
                    accumulators@.len() == q,
                    forall|p: int|
                        0 <= p < q ==> #[trigger] accumulators@[p]@ == Seq::new(
                            LANES as nat,
                            |t: int| F::zero_spec(),
                        ),
                decreases KM * KN - q,
            {
                accumulators.push(LaneVector::splat(F::zero()));
                q = q + 1;
            }
            proof {
                assert forall|p: int| 0 <= p < KM * KN implies sum_is_prefix_dot(
                    #[trigger] accumulators@[p]@,
                    *a,
                    *b,
                    i + p / KN as int,
                    j + p % KN as int,
                    0,
                ) by {
                    crate::element::lemma_sum_zeros::<F>(LANES as nat);
                    let ra = matrix_row(a@, k as int, i + p / KN as int);
                    let rb = matrix_row(b@, k as int, j + p % KN as int);
                    assert(ra.subrange(0, 0) =~= Seq::<F>::empty());
                    assert(rb.subrange(0, 0) =~= Seq::<F>::empty());
                    assert(crate::element::products(ra.subrange(0, 0), rb.subrange(0, 0)) =~= Seq::<F>::empty());
                }
            }
            let mut chunk: usize = 0;
            while chunk < chunks
                invariant
                    m == a.rows_spec(),
                    n == b.rows_spec(),
                    k == a.cols_spec(),
                    a_data@ == a@,
                    b_data@ == b@,
                    a@.len() == m * k,
                    m * k <= usize::MAX,
                    n * k <= b@.len(),
                    b@.len() <= usize::MAX,
                    chunks * KK == k,
                    i + KM <= m,
                    j + KN <= n,
                    chunk <= chunks,
                    accumulators@.len() == KM * KN,
                    forall|p: int|
                        0 <= p < KM * KN ==> (#[trigger] accumulators@[p])@.len() == LANES
                            && sum_is_prefix_dot(
                            accumulators@[p]@,
                            *a,
                            *b,
                            i + p / KN as int,
                            j + p % KN as int,
                            chunk * LANES,
                        ),
                decreases chunks - chunk,
            {
                proof {
                    assert(chunk * LANES + LANES <= k) by (nonlinear_arith)
                        requires
                            chunk < chunks,
                            chunks * KK == k,
                            KK == LANES,
                    ;
                }
                let offset = chunk * LANES;
                let mut a_rows: Vec<LaneVector<F, LANES>> = Vec::new();
                let mut di: usize = 0;
                while di < KM
                    invariant
                        di <= KM,
                        i + KM <= m,
                        a_data@ == a@,
                        a@.len() == m * k,
                        m * k <= usize::MAX,
                        offset + LANES <= k,
                        a_rows@.len() == di,
                        forall|p: int| 0 <= p < di ==> (#[trigger] a_rows@[p])@.len() == LANES,
                        forall|p: int|
                            0 <= p < di ==> #[trigger] a_rows@[p]@ == matrix_row(
                                a@,
                                k as int,
                                i + p,
                            ).subrange(offset as int, offset + LANES),
                    decreases KM - di,
                {
                    proof {
                        lemma_index_bounds((i + di) as int, offset as int, m as int, k as int);
                        lemma_row_bounds((i + di) as int, m as int, k as int);
                    }
                    let row = LaneVector::<F, LANES>::load(a_data, (i + di) * k + offset);
                    proof {
                        assert(row@ =~= matrix_row(a@, k as int, (i + di) as int).subrange(
                            offset as int,
                            offset + LANES,
                        ));
                    }
                    a_rows.push(row);
                    di = di + 1;
                }
                let mut b_rows: Vec<LaneVector<F, LANES>> = Vec::new();
                let mut dj: usize = 0;
                while dj < KN
                    invariant
                        dj <= KN,
                        j + KN <= n,
                        b_data@ == b@,
                        n * k <= b@.len(),
                        b@.len() <= usize::MAX,
                        offset + LANES <= k,
                        b_rows@.len() == dj,
                        forall|p: int| 0 <= p < dj ==> (#[trigger] b_rows@[p])@.len() == LANES,
                        forall|p: int|
                            0 <= p < dj ==> #[trigger] b_rows@[p]@ == matrix_row(
                                b@,
                                k as int,
                                j + p,
                            ).subrange(offset as int, offset + LANES),
                    decreases KN - dj,
                {
                    proof {
                        lemma_index_bounds((j + dj) as int, offset as int, n as int, k as int);
                        lemma_row_bounds((j + dj) as int, n as int, k as int);
                    }
                    let row = LaneVector::<F, LANES>::load(b_data, (j + dj) * k + offset);
                    proof {
                        assert(row@ =~= matrix_row(b@, k as int, (j + dj) as int).subrange(
                            offset as int,
                            offset + LANES,
                        ));
                    }
                    b_rows.push(row);
                    dj = dj + 1;
                }
                let mut q: usize = 0;
                while q < KM * KN
                    invariant
                        m == a.rows_spec(),
                        n == b.rows_spec(),
                        k == a.cols_spec(),
                        a@.len() == m * k,
                        m * k <= usize::MAX,
                        n * k <= b@.len(),
                        b@.len() <= usize::MAX,
                        i + KM <= m,
                        j + KN <= n,
                        offset == chunk * LANES,
                        offset + LANES <= k,
                        q <= KM * KN,
                        a_rows@.len() == KM,
                        b_rows@.len() == KN,
                        forall|p: int| 0 <= p < KM ==> (#[trigger] a_rows@[p])@.len() == LANES,
                        forall|p: int| 0 <= p < KN ==> (#[trigger] b_rows@[p])@.len() == LANES,
                        forall|p: int|
                            0 <= p < KM ==> #[trigger] a_rows@[p]@ == matrix_row(
                                a@,
                                k as int,
                                i + p,
                            ).subrange(offset as int, offset + LANES),
                        forall|p: int|
                            0 <= p < KN ==> #[trigger] b_rows@[p]@ == matrix_row(
                                b@,
                                k as int,
                                j + p,
                            ).subrange(offset as int, offset + LANES),
                        accumulators@.len() == KM * KN,
                        forall|p: int|
                            0 <= p < KM * KN ==> (#[trigger] accumulators@[p])@.len() == LANES
                                && sum_is_prefix_dot(
                                accumulators@[p]@,
                                *a,
                                *b,
                                i + p / KN as int,
                                j + p % KN as int,
                                if p < q {
                                    offset + LANES
                                } else {
                                    offset as int
                                },
                            ),
                    decreases KM * KN - q,
                {
                    let updated = a_rows[q / KN].mul_add(&b_rows[q % KN], &accumulators[q]);
                    proof {
                        let ra = matrix_row(a@, k as int, (i + q / KN) as int);
                        let rb = matrix_row(b@, k as int, (j + q % KN) as int);
                        lemma_row_bounds((i + q / KN) as int, m as int, k as int);
                        lemma_row_bounds((j + q % KN) as int, n as int, k as int);
                        lemma_prefix_step(
                            ra,
                            rb,
                            offset as int,
                            LANES as int,
                            accumulators@[q as int]@,
                            updated@,
                        );
                    }
                    accumulators.set(q, updated);
                    q = q + 1;
                }
                chunk = chunk + 1;
            }
            let mut q: usize = 0;
            while q < KM * KN
                invariant
                    kernel_operands(*a, *b),
                    before == *old(c),
                    before.wf(),
                    m == a.rows_spec(),
                    n == b.rows_spec(),
                    k == a.cols_spec(),
                    a@.len() == m * k,
                    m * k <= usize::MAX,
                    n * k <= b@.len(),
                    b@.len() <= usize::MAX,
                    chunks * KK == k,
                    i + KM <= m,
                    i % KM == 0,
                    j + KN <= n,
                    j % KN == 0,
                    q <= KM * KN,
                    accumulators@.len() == KM * KN,
                    forall|p: int|
                        0 <= p < KM * KN ==> (#[trigger] accumulators@[p])@.len() == LANES
                            && sum_is_prefix_dot(
                            accumulators@[p]@,
                            *a,
                            *b,
                            i + p / KN as int,
                            j + p % KN as int,
                            chunks * LANES,
                        ),
                    c.shape_spec() == before.shape_spec(),
                    c.wf(),
                    kernel_written(mode, *a, *b, before, *c, i as int, j as int, q as int),
                    kernel_reached(*a, *b, before, i as int, j as int, q as int),
                decreases KM * KN - q,
            {
                let row = i + q / KN;
                let column = j + q % KN;
                let value = accumulators[q].sum();
                proof {
                    let ra = matrix_row(a@, k as int, row as int);
                    let rb = matrix_row(b@, k as int, column as int);
                    lemma_row_bounds(row as int, m as int, k as int);
                    lemma_row_bounds(column as int, n as int, k as int);
                    assert(ra.subrange(0, k as int) =~= ra);
                    assert(rb.subrange(0, k as int) =~= rb);
                    assert(value == tile_dot(*a, *b, row as int, column as int));
                    assert(row < m && column < n && (row - i) * KN + (column - j) == q) by (nonlinear_arith)
                        requires
                            row == i + q / KN,
                            column == j + q % KN,
                            q < KM * KN,
                            i + KM <= m,
                            j + KN <= n,
                            KN == 4,
                            KM == 2,
                    ;
                    lemma_offset_in_matrix(*c, row as int, column as int);
                }
                let ghost prev = *c;
                let combine = |current: F| -> (out: F) ensures out == mode.apply_spec(current, value) { mode.apply(current, value) };
                let result = c.with_mut(row, column, combine);
                if result.is_err() {
                    proof {
                        assert forall|r: int, s: int| in_matrix(before, r, s) implies #[trigger] c.entry(r, s)
                            == prev.entry(r, s) by {}
                        assert(!in_matrix(before, row as int, column as int));
                        assert(!kernel_fits(*a, *b, before));
                        assert(kernel_stopped(*a, *b, before, i as int, j as int, q as int));
                        assert(kernel_written(mode, *a, *b, before, *c, i as int, j as int, q as int));
                    }
                    return result;
                }
                proof {
                    let cc = before.cols_spec() as int;
                    let cr = before.rows_spec() as int;
                    c.lemma_wf_matrix();
                    assert(!block_done(row as int, column as int, i as int, j as int, q as int));
                    assert forall|r: int, s: int| in_matrix(before, r, s) implies #[trigger] c.entry(r, s) == if r
                        < m && s < n && block_done(r, s, i as int, j as int, q + 1) {
                        mode.apply_spec(before.entry(r, s), tile_dot(*a, *b, r, s))
                    } else {
                        before.entry(r, s)
                    } by {
                        lemma_index_bounds(r, s, cr, cc);
                        if r == row && s == column {
                            assert(c.entry(r, s) == mode.apply_spec(prev.entry(r, s), value));
                        } else if r * cc + s == row * cc + column {
                            lemma_index_injective(r, s, row as int, column as int, cc);
                        } else {
                            assert(c.entry(r, s) == prev.entry(r, s));
                            if i <= r < i + KM && j <= s < j + KN && (r - i) * KN + (s - j) == q {
                                assert(r == row && s == column) by (nonlinear_arith)
                                    requires
                                        i <= r < i + KM,
                                        j <= s < j + KN,
                                        (r - i) * KN + (s - j) == q,
                                        row == i + q / KN,
                                        column == j + q % KN,
                                        KN == 4,
                                ;
                            }
                        }
                    }
                    assert forall|r: int, s: int|
                        0 <= r < m && 0 <= s < n && #[trigger] block_done(r, s, i as int, j as int, q + 1) implies in_matrix(
                        before,
                        r,
                        s,
                    ) by {
                        if !block_done(r, s, i as int, j as int, q as int) {
                            assert(r == row && s == column) by (nonlinear_arith)
                                requires
                                    i <= r < i + KM,
                                    j <= s < j + KN,
                                    (r - i) * KN + (s - j) == q,
                                    row == i + q / KN,
                                    column == j + q % KN,
                                    KN == 4,
                            ;
                        }
                    }
                }
                q = q + 1;
            }
            proof {
                assert forall|r: int, s: int|
                    #![trigger block_done(r, s, i as int, j as int, (KM * KN) as int)]
                    #![trigger block_done(r, s, i as int, (j + KN) as int, 0)]
                    0 <= r < m && 0 <= s < n implies block_done(r, s, i as int, j as int, (KM * KN) as int)
                        == block_done(r, s, i as int, (j + KN) as int, 0) by {
                    if i <= r < i + KM && j <= s < j + KN {
                        assert((r - i) * KN + (s - j) < KM * KN) by (nonlinear_arith)
                            requires
                                i <= r < i + KM,
                                j <= s < j + KN,
                                KN == 4,
                                KM == 2,
                        ;
                    }
                }
            }
            j = j + KN;
        }
        proof {
            assert forall|r: int, s: int|
                #![trigger block_done(r, s, i as int, n as int, 0)]
                #![trigger block_done(r, s, (i + KM) as int, 0, 0)]
                0 <= r < m && 0 <= s < n implies block_done(r, s, i as int, n as int, 0)
                    == block_done(r, s, (i + KM) as int, 0, 0) by {
            }
        }
        i = i + KM;
    }
    proof {
        if m > 0 && n > 0 {
            assert(block_done((m - 1) as int, (n - 1) as int, m as int, 0, 0));
        }
    }
    Ok(())
}

/// `lanes` sum to the dot product of the first `len` entries of row `i` of `a` and of the
/// `j`-th run of `a`'s column count of entries of `b`.
pub open spec fn sum_is_prefix_dot<F: Element>(
    lanes: Seq<F>,
    a: HostTensor<F, 2>,
    b: HostTensor<F, 2>,
    i: int,
    j: int,
    len: int,
) -> bool {
    crate::element::sum(lanes) == dot(
        matrix_row(a@, a.cols_spec() as int, i).subrange(0, len),
        matrix_row(b@, a.cols_spec() as int, j).subrange(0, len),
    )
}

} // verus!

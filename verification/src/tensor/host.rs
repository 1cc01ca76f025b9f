//! Host-resident tensors stored as one flat row-major buffer.

use vstd::prelude::*;

use crate::element::Element;
use crate::tensor::error::{ElementCountMismatch, MatrixError};
use crate::tensor::layout::{
    count_false, lemma_count_false_mark, lemma_index_bounds, lemma_index_decompose,
    lemma_index_injective, lemma_row_bounds, lemma_transposed_offset, lemma_transposed_source,
    lemma_div_mod_of_index, tile_in_bounds, transposed_offset, transposed_source,
};
use crate::tensor::shape::{prefix_products_fit, Shape};
use crate::tensor::traits::Tensor;

verus! {

/// Marked offsets form whole cycles of the transposition of a `rows x cols` matrix.
pub open spec fn cycles_closed(visited: Seq<bool>, rows: int, cols: int) -> bool {
    forall|k: int|
        0 <= k < rows * cols && #[trigger] visited[k] ==> visited[transposed_offset(k, rows, cols)]
            && visited[transposed_source(k, rows, cols)]
}

/// Every marked offset already holds the element that the transpose puts there.
pub open spec fn cycles_placed<F>(data: Seq<F>, original: Seq<F>, visited: Seq<bool>, rows: int, cols: int) -> bool {
    forall|k: int|
        0 <= k < rows * cols && #[trigger] visited[k] ==> data[k] == original[transposed_source(k, rows, cols)]
}

/// Every unmarked offset still holds its original element.
pub open spec fn rest_untouched<F>(data: Seq<F>, original: Seq<F>, visited: Seq<bool>) -> bool {
    forall|k: int| 0 <= k < visited.len() && !#[trigger] visited[k] ==> data[k] == original[k]
}

/// A tensor whose elements live in host memory, in row-major order.
pub struct HostTensor<F, const R: usize> {
    inner: Vec<F>,
    shape: Shape<R>,
}

/// `r` is what building a tensor of `shape` from the elements `inner` gives: the tensor
/// holding them when there is exactly one per position, else the count mismatch.
pub open spec fn built_from<F, const R: usize>(r: Result<HostTensor<F, R>, ElementCountMismatch>, inner: Seq<F>, shape: Shape<R>) -> bool {
    match r {
        Ok(t) => inner.len() == shape.numel_spec() && t@ == inner && t.shape_spec() == shape && t.wf(),
        Err(e) => inner.len() != shape.numel_spec() && e == (ElementCountMismatch {
            expected: shape.numel_spec() as usize,
            actual: inner.len() as usize,
        }),
    }
}

impl<F, const R: usize> View for HostTensor<F, R> {
    type V = Seq<F>;

    closed spec fn view(&self) -> Seq<F> {
        self.inner@
    }
}

impl<F, const R: usize> HostTensor<F, R> {
    pub open spec fn shape_spec(&self) -> Shape<R> {
        self.shape_view()
    }

    /// The buffer holds exactly as many elements as the shape asks for.
    pub open spec fn wf(&self) -> bool {
        &&& self@.len() == self.shape_spec().numel_spec()
        &&& self.shape_spec().numel_spec() <= usize::MAX
    }

    /// Wraps `inner` as a tensor of `shape`, provided it holds exactly the right number of elements.
    pub fn from_vec(inner: Vec<F>, shape: Shape<R>) -> (r: Result<Self, ElementCountMismatch>)
        requires
            prefix_products_fit(shape@),
        ensures
            built_from(r, inner@, shape),
    {
        let expected = shape.numel();
        let actual = inner.len();
        if actual != expected {
            return Err(ElementCountMismatch { expected, actual });
        }
        Ok(HostTensor { inner, shape })
    }

    pub fn as_slice(&self) -> (r: &[F])
        ensures
            r@ == self@,
    {
        self.inner.as_slice()
    }

    pub fn as_mut_slice(&mut self) -> (r: &mut [F])
        ensures
            r@ == old(self)@,
            final(self)@ == final(r)@,
            final(self).shape_spec() == old(self).shape_spec(),
    {
        self.inner.as_mut_slice()
    }
}

impl<F: Element, const R: usize> HostTensor<F, R> {
    /// A tensor of `shape` whose every element is zero.
    pub fn zeros(shape: Shape<R>) -> (t: Self)
        requires
            prefix_products_fit(shape@),
        ensures
            t.wf(),
            t.shape_spec() == shape,
            forall|i: int| 0 <= i < t@.len() ==> #[trigger] t@[i] == F::zero_spec(),
    {
        let n = shape.numel();
        let mut inner: Vec<F> = Vec::new();
        let mut i: usize = 0;
        while i < n
            invariant
                i <= n,
                inner@.len() == i,
                forall|k: int| 0 <= k < i ==> #[trigger] inner@[k] == F::zero_spec(),
            decreases n - i,
        {
            inner.push(F::zero());
            i = i + 1;
        }
        HostTensor { inner, shape }
    }
}

impl<F: Copy, const R: usize> Clone for HostTensor<F, R> {
    fn clone(&self) -> (r: Self)
        ensures
            r@ == self@,
            r.shape_spec() == self.shape_spec(),
    {
        let mut inner: Vec<F> = Vec::new();
        let mut i: usize = 0;
        while i < self.inner.len()
            invariant
                i <= self@.len(),
                inner@ == self@.subrange(0, i as int),
            decreases self@.len() - i,
        {
            inner.push(self.inner[i]);
            i = i + 1;
            assert(inner@ =~= self@.subrange(0, i as int));
        }
        assert(inner@ =~= self@);
        HostTensor { inner, shape: self.shape }
    }
}

impl<F, const R: usize> Tensor<F, R> for HostTensor<F, R> {
    closed spec fn shape_view(&self) -> Shape<R> {
        self.shape
    }

    fn shape(&self) -> (s: &Shape<R>) {
        &self.shape
    }
}

impl<F> HostTensor<F, 2> {
    pub open spec fn rows_spec(&self) -> usize {
        self.shape_spec().rows_spec()
    }

    pub open spec fn cols_spec(&self) -> usize {
        self.shape_spec().cols_spec()
    }

    /// The element in row `r` and column `c`.
    pub open spec fn entry(&self, r: int, c: int) -> F {
        self@[r * self.cols_spec() + c]
    }

    /// The flat offset of `(x, y)`, when `y` is a column and the offset is within the buffer.
    pub open spec fn offset_of(&self, x: int, y: int) -> Option<int> {
        if y < self.cols_spec() && x * self.cols_spec() + y < self@.len() {
            Some(x * self.cols_spec() + y)
        } else {
            None
        }
    }

    pub proof fn lemma_wf_matrix(&self)
        requires
            self.wf(),
        ensures
            self@.len() == self.rows_spec() * self.cols_spec(),
            self.rows_spec() * self.cols_spec() <= usize::MAX,
    {
        self.shape_spec().lemma_matrix_numel();
    }

    /// Whether `self.wf()` holds, every position inside the matrix has an offset.
    pub proof fn lemma_offset_of_entry(&self, x: int, y: int)
        requires
            self.wf(),
            0 <= x < self.rows_spec(),
            0 <= y < self.cols_spec(),
        ensures
            self.offset_of(x, y) == Some(x * self.cols_spec() + y),
    {
        self.lemma_wf_matrix();
        lemma_index_bounds(x, y, self.rows_spec() as int, self.cols_spec() as int);
    }

    pub fn rows(&self) -> (r: usize)
        ensures
            r == self.rows_spec(),
    {
        self.shape.rows()
    }

    pub fn columns(&self) -> (r: usize)
        ensures
            r == self.cols_spec(),
    {
        self.shape.cols()
    }

    fn checked_offset(&self, x: usize, y: usize) -> (r: Option<usize>)
        ensures
            match r {
                Some(k) => self.offset_of(x as int, y as int) == Some(k as int),
                None => self.offset_of(x as int, y as int) is None,
            },
    {
        let cols = self.shape.cols();
        let len = self.inner.len();
        match x.checked_mul(cols) {
            Some(offset) => match offset.checked_add(y) {
                Some(index) => {
                    if y < cols && index < len {
                        Some(index)
                    } else {
                        None
                    }
                },
                None => None,
            },
            None => {
                assert(x * cols + y > usize::MAX) by (nonlinear_arith)
                    requires
                        x * cols > usize::MAX,
                        y >= 0,
                ;
                None
            },
        }
    }

    /// Overwrites the element at `(x, y)`.
    pub fn set(&mut self, x: usize, y: usize, new_value: F) -> (r: Result<(), MatrixError>)
        ensures
            final(self).shape_spec() == old(self).shape_spec(),
            match old(self).offset_of(x as int, y as int) {
                Some(i) => r is Ok && final(self)@ == old(self)@.update(i, new_value),
                None => r == Err::<(), MatrixError>(MatrixError::OutOfBounds(old(self).shape_spec()))
                    && final(self)@ == old(self)@,
            },
    {
        match self.checked_offset(x, y) {
            Some(index) => {
                self.inner[index] = new_value;
                Ok(())
            },
            None => Err(MatrixError::OutOfBounds(self.shape)),
        }
    }

}

impl<F: Copy> HostTensor<F, 2> {
    /// Calls `f` on the element at `(x, y)` and stores what it returns there.
    pub fn with_mut(&mut self, x: usize, y: usize, f: impl FnOnce(F) -> F) -> (r: Result<
        (),
        MatrixError,
    >)
        requires
            forall|v: F| call_requires(f, (v,)),
        ensures
            final(self).shape_spec() == old(self).shape_spec(),
            final(self)@.len() == old(self)@.len(),
            match old(self).offset_of(x as int, y as int) {
                Some(i) => r is Ok && (forall|k: int|
                    0 <= k < old(self)@.len() && k != i ==> final(self)@[k] == old(self)@[k])
                    && call_ensures(f, (old(self)@[i],), final(self)@[i]),
                None => r == Err::<(), MatrixError>(MatrixError::OutOfBounds(old(self).shape_spec()))
                    && final(self)@ == old(self)@,
            },
    {
        match self.checked_offset(x, y) {
            Some(index) => {
                let current = self.inner[index];
                let updated = f(current);
                self.inner[index] = updated;
                Ok(())
            },
            None => Err(MatrixError::OutOfBounds(self.shape)),
        }
    }

    /// Exchanges the elements at `(x1, y1)` and `(x2, y2)`.
    pub fn swap(&mut self, x1: usize, y1: usize, x2: usize, y2: usize) -> (r: Result<
        (),
        MatrixError,
    >)
        ensures
            final(self).shape_spec() == old(self).shape_spec(),
            match (old(self).offset_of(x1 as int, y1 as int), old(self).offset_of(x2 as int, y2 as int)) {
                (Some(i), Some(j)) => r is Ok && final(self)@ == old(self)@.update(i, old(self)@[j]).update(
                    j,
                    old(self)@[i],
                ),
                _ => r == Err::<(), MatrixError>(MatrixError::OutOfBounds(old(self).shape_spec()))
                    && final(self)@ == old(self)@,
            },
    {
        let index1 = match self.checked_offset(x1, y1) {
            Some(i) => i,
            None => return Err(MatrixError::OutOfBounds(self.shape)),
        };
        let index2 = match self.checked_offset(x2, y2) {
            Some(i) => i,
            None => return Err(MatrixError::OutOfBounds(self.shape)),
        };
        let first = self.inner[index1];
        let second = self.inner[index2];
        self.inner[index1] = second;
        self.inner[index2] = first;
        Ok(())
    }

    /// Transposes this row-major matrix in place by following the cycles of the
    /// transposition permutation, swapping each element into its final position.
    pub fn transpose(&mut self) -> (r: Result<(), MatrixError>)
        requires
            old(self).wf(),
        ensures
            r is Ok,
            final(self).wf(),
            final(self).rows_spec() == old(self).cols_spec(),
            final(self).cols_spec() == old(self).rows_spec(),
            forall|i: int, j: int|
                0 <= i < old(self).rows_spec() && 0 <= j < old(self).cols_spec() ==> #[trigger] final(self).entry(j, i) == old(self).entry(i, j),
    {
        let rows = self.rows();
        let cols = self.columns();
        let n = self.inner.len();
        proof {
            self.lemma_wf_matrix();
        }
        let ghost original = self.inner@;
        let mut visited: Vec<bool> = Vec::new();
        while visited.len() < n
            invariant
                visited@.len() <= n,
                forall|k: int| 0 <= k < visited@.len() ==> !#[trigger] visited@[k],
            decreases n - visited@.len(),
        {
            visited.push(false);
        }
        let mut start: usize = 0;
        while start < n
            invariant
                n == rows * cols,
                n == original.len(),
                self.inner@.len() == n,
                self.shape == old(self).shape,
                rows == self.shape.rows_spec(),
                cols == self.shape.cols_spec(),
                visited@.len() == n,
                start <= n,
                forall|k: int| 0 <= k < start ==> #[trigger] visited@[k],
                cycles_closed(visited@, rows as int, cols as int),
                cycles_placed(self.inner@, original, visited@, rows as int, cols as int),
                rest_untouched(self.inner@, original, visited@),
            decreases n - start,
        {
            if !visited[start] {
                proof {
                    assert(rows > 0 && cols > 0) by (nonlinear_arith)
                        requires
                            start < n,
                            n == rows * cols,
                    ;
                }
                let ghost before = visited@;
                let rotated = self.rotate_cycle(&mut visited, start, rows, cols, Ghost(original));
                if rotated.is_err() {
                    return rotated;
                }
                assert forall|k: int| 0 <= k < start + 1 implies #[trigger] visited@[k] by {
                    if k < start {
                        assert(before[k]);
                    }
                }
            }
            start = start + 1;
        }
        self.shape = Shape::new([cols, rows]);
        proof {
            assert forall|i: int, j: int|
                0 <= i < rows && 0 <= j < cols implies #[trigger] self.entry(j, i) == old(self).entry(i, j) by {
                lemma_index_bounds(i, j, rows as int, cols as int);
                lemma_index_bounds(j, i, cols as int, rows as int);
                assert(cols * rows == rows * cols) by (nonlinear_arith);
                let src = i * cols + j;
                let dst = j * rows + i;
                lemma_div_mod_of_index(j, i, rows as int);
                assert(visited@[dst]);
                assert(transposed_source(dst, rows as int, cols as int) == src);
            }
            self.shape.lemma_matrix_numel();
        }
        Ok(())
    }

    /// Moves every element of the transposition cycle through `start` to its final place.
    fn rotate_cycle(
        &mut self,
        visited: &mut Vec<bool>,
        start: usize,
        rows: usize,
        cols: usize,
        original: Ghost<Seq<F>>,
    ) -> (r: Result<(), MatrixError>)
        requires
            rows > 0,
            cols > 0,
            old(self).inner@.len() == rows * cols,
            original@.len() == rows * cols,
            rows == old(self).shape.rows_spec(),
            cols == old(self).shape.cols_spec(),
            old(visited)@.len() == rows * cols,
            start < rows * cols,
            !old(visited)@[start as int],
            cycles_closed(old(visited)@, rows as int, cols as int),
            cycles_placed(old(self).inner@, original@, old(visited)@, rows as int, cols as int),
            rest_untouched(old(self).inner@, original@, old(visited)@),
        ensures
            r is Ok,
            final(self).inner@.len() == rows * cols,
            final(self).shape == old(self).shape,
            final(visited)@.len() == rows * cols,
            final(visited)@[start as int],
            forall|k: int| 0 <= k < rows * cols && old(visited)@[k] ==> #[trigger] final(visited)@[k],
            cycles_closed(final(visited)@, rows as int, cols as int),
            cycles_placed(final(self).inner@, original@, final(visited)@, rows as int, cols as int),
            rest_untouched(final(self).inner@, original@, final(visited)@),
    {
        let n = self.inner.len();
        let ghost before = visited@;
        let ghost rr = rows as int;
        let ghost cc = cols as int;
        let mut current: usize = start;
        loop
            invariant_except_break
                0 <= current < n,
                !visited@[current as int],
                !before[current as int],
                current != start ==> visited@[transposed_source(current as int, rr, cc)],
                current != start ==> self.inner@[current as int] == original@[transposed_source(
                    current as int,
                    rr,
                    cc,
                )],
                forall|k: int|
                    0 <= k < n && #[trigger] visited@[k] && !before[k] && transposed_offset(k, rr, cc)
                        != current ==> visited@[transposed_offset(k, rr, cc)],
                self.inner@[start as int] == original@[current as int],
                forall|k: int|
                    0 <= k < n && !#[trigger] visited@[k] && k != current ==> self.inner@[k] == original@[k],
            invariant
                rr == rows,
                cc == cols,
                rows > 0,
                cols > 0,
                n == rows * cols,
                n == original@.len(),
                self.inner@.len() == n,
                self.shape == old(self).shape,
                rows == self.shape.rows_spec(),
                cols == self.shape.cols_spec(),
                visited@.len() == n,
                before.len() == n,
                before == old(visited)@,
                start < n,
                !before[start as int],
                current != start ==> visited@[start as int],
                forall|k: int| 0 <= k < n && #[trigger] before[k] ==> visited@[k],
                cycles_closed(before, rr, cc),
                forall|k: int|
                    0 <= k < n && #[trigger] visited@[k] && !before[k] && k != start ==> visited@[transposed_source(k, rr, cc)],
                forall|k: int|
                    0 <= k < n && #[trigger] visited@[k] && k != start ==> self.inner@[k]
                        == original@[transposed_source(k, rr, cc)],
            ensures
                visited@.len() == n,
                self.inner@.len() == n,
                self.shape == old(self).shape,
                visited@[start as int],
                forall|k: int| 0 <= k < n && #[trigger] before[k] ==> visited@[k],
                cycles_closed(visited@, rr, cc),
                cycles_placed(self.inner@, original@, visited@, rr, cc),
                rest_untouched(self.inner@, original@, visited@),
            decreases count_false(visited@),
        {
            proof {
                lemma_count_false_mark(visited@, current as int);
                lemma_transposed_offset(current as int, rr, cc);
                lemma_index_decompose(current as int, rr, cc);
            }
            let ghost head = visited@;
            visited.set(current, true);
            let row = current / cols;
            let column = current % cols;
            proof {
                lemma_index_bounds(column as int, row as int, cc, rr);
                assert(cc * rr == rr * cc) by (nonlinear_arith);
            }
            let next = column * rows + row;
            assert(next == transposed_offset(current as int, rr, cc));
            if next == start {
                proof {
                    assert forall|k: int| 0 <= k < n implies (#[trigger] visited@[k] ==> visited@[transposed_offset(k, rr, cc)]
                        && visited@[transposed_source(k, rr, cc)]) by {
                        if visited@[k] {
                            lemma_transposed_offset(k, rr, cc);
                            lemma_transposed_source(k, rr, cc);
                            if before[k] {
                            } else if k == current {
                            } else {
                                if transposed_offset(k, rr, cc) == current as int {
                                } else {
                                    assert(head[k]);
                                }
                            }
                        }
                    }
                    assert forall|k: int| 0 <= k < n implies (#[trigger] visited@[k] ==> self.inner@[k]
                        == original@[transposed_source(k, rr, cc)]) by {
                        if visited@[k] && k == start {
                            lemma_transposed_offset(current as int, rr, cc);
                        }
                    }
                }
                break;
            }
            proof {
                lemma_transposed_source(next as int, rr, cc);
                lemma_index_decompose(start as int, rr, cc);
                lemma_index_decompose(next as int, rr, cc);
                if head[next as int] {
                    if before[next as int] {
                        assert(before[transposed_source(next as int, rr, cc)]);
                    } else if next != start {
                        assert(head[transposed_source(next as int, rr, cc)]);
                    }
                }
                assert(!head[next as int]);
                assert(next != current);
                assert(!before[next as int]);
            }
            let ghost prev = self.inner@;
            let swapped = self.swap(start / cols, start % cols, next / cols, next % cols);
            if swapped.is_err() {
                return swapped;
            }
            proof {
                assert(self.inner@ == prev.update(start as int, prev[next as int]).update(
                    next as int,
                    prev[start as int],
                ));
                assert forall|k: int|
                    0 <= k < n && #[trigger] visited@[k] && !before[k] && transposed_offset(k, rr, cc)
                        != next implies visited@[transposed_offset(k, rr, cc)] by {
                    lemma_transposed_offset(k, rr, cc);
                    if k != current && transposed_offset(k, rr, cc) != current {
                        assert(head[k]);
                        assert(head[transposed_offset(k, rr, cc)]);
                        assert(visited@ == head.update(current as int, true));
                    }
                }
                assert forall|k: int|
                    0 <= k < n && #[trigger] visited@[k] && !before[k] && k != start implies visited@[transposed_source(k, rr, cc)] by {
                    assert(visited@ == head.update(current as int, true));
                    lemma_transposed_source(k, rr, cc);
                    if k != current {
                        assert(head[k]);
                        assert(head[transposed_source(k, rr, cc)]);
                    }
                }
            }
            current = next;
        }
        Ok(())
    }

    /// The element at `(x, y)`.
    pub fn get(&self, x: usize, y: usize) -> (r: Result<F, MatrixError>)
        ensures
            match self.offset_of(x as int, y as int) {
                Some(i) => r == Ok::<F, MatrixError>(self@[i]),
                None => r == Err::<F, MatrixError>(MatrixError::OutOfBounds(self.shape_spec())),
            },
    {
        match self.checked_offset(x, y) {
            Some(index) => Ok(self.inner[index]),
            None => Err(MatrixError::OutOfBounds(self.shape)),
        }
    }

    /// A copy of the `shape` tile whose top-left corner is at `origin`.
    pub fn copy_tile(&self, origin: [usize; 2], shape: Shape<2>) -> (r: Result<Self, MatrixError>)
        requires
            self.wf(),
        ensures
            match r {
                Ok(tile) => tile_in_bounds(
                    origin[0] as int,
                    origin[1] as int,
                    shape.rows_spec() as int,
                    shape.cols_spec() as int,
                    self.rows_spec() as int,
                    self.cols_spec() as int,
                ) && tile.wf() && tile.shape_spec() == shape && (forall|i: int, j: int|
                    0 <= i < shape.rows_spec() && 0 <= j < shape.cols_spec() ==> #[trigger] tile.entry(
                        i,
                        j,
                    ) == self.entry(origin[0] + i, origin[1] + j)),
                Err(e) => !tile_in_bounds(
                    origin[0] as int,
                    origin[1] as int,
                    shape.rows_spec() as int,
                    shape.cols_spec() as int,
                    self.rows_spec() as int,
                    self.cols_spec() as int,
                ) && e == MatrixError::OutOfBounds(self.shape_spec()),
            },
    {
        let row_start = origin[0];
        let column_start = origin[1];
        let rows = shape.rows();
        let columns = shape.cols();
        let total_rows = self.rows();
        let total_columns = self.columns();
        match row_start.checked_add(rows) {
            Some(row_end) => {
                if row_end > total_rows {
                    return Err(MatrixError::OutOfBounds(self.shape));
                }
            },
            None => return Err(MatrixError::OutOfBounds(self.shape)),
        }
        match column_start.checked_add(columns) {
            Some(column_end) => {
                if column_end > total_columns {
                    return Err(MatrixError::OutOfBounds(self.shape));
                }
            },
            None => return Err(MatrixError::OutOfBounds(self.shape)),
        }
        proof {
            self.lemma_wf_matrix();
            shape.lemma_matrix_numel();
            assert(rows * columns <= total_rows * total_columns) by (nonlinear_arith)
                requires
                    rows <= total_rows,
                    columns <= total_columns,
            ;
        }
        let mut inner: Vec<F> = Vec::new();
        let mut tile_row: usize = 0;
        while tile_row < rows
            invariant
                self.wf(),
                self@.len() == total_rows * total_columns,
                total_rows == self.rows_spec(),
                total_columns == self.cols_spec(),
                row_start + rows <= total_rows,
                column_start + columns <= total_columns,
                tile_row <= rows,
                inner@.len() == tile_row * columns,
                forall|i: int, j: int|
                    0 <= i < tile_row && 0 <= j < columns ==> #[trigger] inner@[i * columns + j]
                        == self.entry(row_start + i, column_start + j),
            decreases rows - tile_row,
        {
            proof {
                lemma_row_bounds((row_start + tile_row) as int, total_rows as int, total_columns as int);
            }
            let source_start = (row_start + tile_row) * total_columns + column_start;
            let mut column: usize = 0;
            while column < columns
                invariant
                    self.wf(),
                    self@.len() == total_rows * total_columns,
                    total_rows == self.rows_spec(),
                    total_columns == self.cols_spec(),
                    row_start + rows <= total_rows,
                    column_start + columns <= total_columns,
                    tile_row < rows,
                    source_start == (row_start + tile_row) * total_columns + column_start,
                    column <= columns,
                    inner@.len() == tile_row * columns + column,
                    forall|i: int, j: int|
                        0 <= i < tile_row && 0 <= j < columns ==> #[trigger] inner@[i * columns + j]
                            == self.entry(row_start + i, column_start + j),
                    forall|j: int|
                        0 <= j < column ==> #[trigger] inner@[tile_row * columns + j] == self.entry(
                            row_start + tile_row,
                            column_start + j,
                        ),
                decreases columns - column,
            {
                proof {
                    lemma_index_bounds(
                        (row_start + tile_row) as int,
                        (column_start + column) as int,
                        total_rows as int,
                        total_columns as int,
                    );
                }
                inner.push(self.inner[source_start + column]);
                proof {
                    assert forall|i: int, j: int|
                        0 <= i < tile_row && 0 <= j < columns implies #[trigger] inner@[i * columns
                            + j] == self.entry(row_start + i, column_start + j) by {
                        lemma_index_bounds(i, j, tile_row as int, columns as int);
                    }
                }
                column = column + 1;
            }
            proof {
                assert forall|i: int, j: int|
                    0 <= i < tile_row + 1 && 0 <= j < columns implies #[trigger] inner@[i * columns
                        + j] == self.entry(row_start + i, column_start + j) by {
                    if i == tile_row {
                    }
                }
                assert((tile_row + 1) * columns == tile_row * columns + columns) by (nonlinear_arith);
            }
            tile_row = tile_row + 1;
        }
        let tile = HostTensor { inner, shape };
        proof {
            assert forall|i: int, j: int|
                0 <= i < shape.rows_spec() && 0 <= j < shape.cols_spec() implies #[trigger] tile.entry(
                i,
                j,
            ) == self.entry(origin[0] + i, origin[1] + j) by {
            }
        }
        Ok(tile)
    }

    /// Fills `tile` with the tile of this matrix whose top-left corner is at `origin`;
    /// the tile's own shape says how much to copy.
    pub fn copy_tile_into(&self, origin: [usize; 2], tile: &mut Self) -> (r: Result<(), MatrixError>)
        requires
            self.wf(),
            old(tile).wf(),
        ensures
            final(tile).shape_spec() == old(tile).shape_spec(),
            final(tile).wf(),
            tile_in_bounds(
                origin[0] as int,
                origin[1] as int,
                old(tile).rows_spec() as int,
                old(tile).cols_spec() as int,
                self.rows_spec() as int,
                self.cols_spec() as int,
            ) ==> r is Ok && (forall|i: int, j: int|
                0 <= i < old(tile).rows_spec() && 0 <= j < old(tile).cols_spec() ==> #[trigger] final(tile).entry(i, j)
                    == self.entry(origin[0] + i, origin[1] + j)),
            !tile_in_bounds(
                origin[0] as int,
                origin[1] as int,
                old(tile).rows_spec() as int,
                old(tile).cols_spec() as int,
                self.rows_spec() as int,
                self.cols_spec() as int,
            ) ==> r == Err::<(), MatrixError>(MatrixError::OutOfBounds(self.shape_spec()))
                && final(tile)@ == old(tile)@,
    {
        let row_start = origin[0];
        let column_start = origin[1];
        let rows = tile.rows();
        let columns = tile.columns();
        let total_rows = self.rows();
        let total_columns = self.columns();
        match row_start.checked_add(rows) {
            Some(row_end) => {
                if row_end > total_rows {
                    return Err(MatrixError::OutOfBounds(self.shape));
                }
            },
            None => return Err(MatrixError::OutOfBounds(self.shape)),
        }
        match column_start.checked_add(columns) {
            Some(column_end) => {
                if column_end > total_columns {
                    return Err(MatrixError::OutOfBounds(self.shape));
                }
            },
            None => return Err(MatrixError::OutOfBounds(self.shape)),
        }
        proof {
            self.lemma_wf_matrix();
            tile.lemma_wf_matrix();
        }
        let ghost tile_shape = tile.shape;
        let mut tile_row: usize = 0;
        while tile_row < rows
            invariant
                self.wf(),
                self@.len() == total_rows * total_columns,
                total_rows * total_columns <= usize::MAX,
                total_rows == self.rows_spec(),
                total_columns == self.cols_spec(),
                tile.shape == tile_shape,
                tile@.len() == rows * columns,
                rows * columns <= usize::MAX,
                rows == tile.rows_spec(),
                columns == tile.cols_spec(),
                row_start + rows <= total_rows,
                column_start + columns <= total_columns,
                tile_row <= rows,
                forall|i: int, j: int|
                    0 <= i < tile_row && 0 <= j < columns ==> #[trigger] tile.entry(i, j)
                        == self.entry(row_start + i, column_start + j),
            decreases rows - tile_row,
        {
            proof {
                lemma_row_bounds((row_start + tile_row) as int, total_rows as int, total_columns as int);
                lemma_row_bounds(tile_row as int, rows as int, columns as int);
            }
            let source_start = (row_start + tile_row) * total_columns + column_start;
            let target_start = tile_row * columns;
            let mut column: usize = 0;
            while column < columns
                invariant
                    self.wf(),
                    self@.len() == total_rows * total_columns,
                    total_rows * total_columns <= usize::MAX,
                    total_rows == self.rows_spec(),
                    total_columns == self.cols_spec(),
                    tile.shape == tile_shape,
                    tile@.len() == rows * columns,
                    rows * columns <= usize::MAX,
                    rows == tile.rows_spec(),
                    columns == tile.cols_spec(),
                    row_start + rows <= total_rows,
                    column_start + columns <= total_columns,
                    tile_row < rows,
                    source_start == (row_start + tile_row) * total_columns + column_start,
                    target_start == tile_row * columns,
                    column <= columns,
                    forall|i: int, j: int|
                        0 <= i < rows && 0 <= j < columns && (i < tile_row || (i == tile_row && j < column))
                            ==> #[trigger] tile.entry(i, j) == self.entry(row_start + i, column_start + j),
                decreases columns - column,
            {
                proof {
                    lemma_index_bounds(
                        (row_start + tile_row) as int,
                        (column_start + column) as int,
                        total_rows as int,
                        total_columns as int,
                    );
                    lemma_index_bounds(tile_row as int, column as int, rows as int, columns as int);
                }
                let value = self.inner[source_start + column];
                let ghost prev = *tile;
                tile.inner[target_start + column] = value;
                proof {
                    assert forall|i: int, j: int|
                        0 <= i < rows && 0 <= j < columns && (i < tile_row || (i == tile_row && j < column + 1))
                            implies #[trigger] tile.entry(i, j) == self.entry(row_start + i, column_start + j) by {
                        lemma_index_bounds(i, j, rows as int, columns as int);
                        if i * columns + j == tile_row * columns + column {
                            lemma_index_injective(i, j, tile_row as int, column as int, columns as int);
                        } else {
                            assert(tile.entry(i, j) == prev.entry(i, j));
                        }
                    }
                }
                column = column + 1;
            }
            tile_row = tile_row + 1;
        }
        Ok(())
    }

    /// Copies `tile` into this matrix with its top-left corner at `origin`.
    pub fn write_tile(&mut self, origin: [usize; 2], tile: &Self) -> (r: Result<(), MatrixError>)
        requires
            old(self).wf(),
            tile.wf(),
        ensures
            final(self).shape_spec() == old(self).shape_spec(),
            final(self).wf(),
            tile_in_bounds(
                origin[0] as int,
                origin[1] as int,
                tile.rows_spec() as int,
                tile.cols_spec() as int,
                old(self).rows_spec() as int,
                old(self).cols_spec() as int,
            ) ==> r is Ok && (forall|i: int, j: int|
                0 <= i < old(self).rows_spec() && 0 <= j < old(self).cols_spec() ==> #[trigger] final(self).entry(i, j) == if origin[0] <= i < origin[0] + tile.rows_spec() && origin[1] <= j
                    < origin[1] + tile.cols_spec() {
                    tile.entry(i - origin[0], j - origin[1])
                } else {
                    old(self).entry(i, j)
                }),
            !tile_in_bounds(
                origin[0] as int,
                origin[1] as int,
                tile.rows_spec() as int,
                tile.cols_spec() as int,
                old(self).rows_spec() as int,
                old(self).cols_spec() as int,
            ) ==> r == Err::<(), MatrixError>(MatrixError::OutOfBounds(old(self).shape_spec()))
                && final(self)@ == old(self)@,
    {
        let row_start = origin[0];
        let column_start = origin[1];
        let rows = tile.rows();
        let columns = tile.columns();
        let total_rows = self.rows();
        let total_columns = self.columns();
        match row_start.checked_add(rows) {
            Some(row_end) => {
                if row_end > total_rows {
                    return Err(MatrixError::OutOfBounds(self.shape));
                }
            },
            None => return Err(MatrixError::OutOfBounds(self.shape)),
        }
        match column_start.checked_add(columns) {
            Some(column_end) => {
                if column_end > total_columns {
                    return Err(MatrixError::OutOfBounds(self.shape));
                }
            },
            None => return Err(MatrixError::OutOfBounds(self.shape)),
        }
        proof {
            self.lemma_wf_matrix();
            tile.lemma_wf_matrix();
        }
        let ghost before = *self;
        let mut tile_row: usize = 0;
        while tile_row < rows
            invariant
                tile.wf(),
                tile@.len() == rows * columns,
                rows == tile.rows_spec(),
                columns == tile.cols_spec(),
                self.shape_spec() == before.shape_spec(),
                self@.len() == before@.len(),
                before@.len() == total_rows * total_columns,
                total_rows * total_columns <= usize::MAX,
                total_rows == before.rows_spec(),
                total_columns == before.cols_spec(),
                row_start + rows <= total_rows,
                column_start + columns <= total_columns,
                tile_row <= rows,
                forall|i: int, j: int|
                    0 <= i < total_rows && 0 <= j < total_columns ==> #[trigger] self.entry(i, j)
                        == if row_start <= i < row_start + tile_row && column_start <= j
                        < column_start + columns {
                        tile.entry(i - row_start, j - column_start)
                    } else {
                        before.entry(i, j)
                    },
            decreases rows - tile_row,
        {
            proof {
                lemma_row_bounds((row_start + tile_row) as int, total_rows as int, total_columns as int);
                lemma_row_bounds(tile_row as int, rows as int, columns as int);
            }
            let source_start = tile_row * columns;
            let target_start = (row_start + tile_row) * total_columns + column_start;
            let mut column: usize = 0;
            while column < columns
                invariant
                    tile.wf(),
                    tile@.len() == rows * columns,
                    rows == tile.rows_spec(),
                    columns == tile.cols_spec(),
                    self.shape_spec() == before.shape_spec(),
                    self@.len() == before@.len(),
                    before@.len() == total_rows * total_columns,
                    total_rows * total_columns <= usize::MAX,
                total_rows * total_columns <= usize::MAX,
                    total_rows == before.rows_spec(),
                    total_columns == before.cols_spec(),
                    row_start + rows <= total_rows,
                    column_start + columns <= total_columns,
                    tile_row < rows,
                    source_start == tile_row * columns,
                    target_start == (row_start + tile_row) * total_columns + column_start,
                    column <= columns,
                    forall|i: int, j: int|
                        0 <= i < total_rows && 0 <= j < total_columns ==> #[trigger] self.entry(i, j)
                            == if (row_start <= i < row_start + tile_row && column_start <= j
                            < column_start + columns) || (i == row_start + tile_row && column_start
                            <= j < column_start + column) {
                            tile.entry(i - row_start, j - column_start)
                        } else {
                            before.entry(i, j)
                        },
                decreases columns - column,
            {
                proof {
                    lemma_index_bounds(
                        (row_start + tile_row) as int,
                        (column_start + column) as int,
                        total_rows as int,
                        total_columns as int,
                    );
                    lemma_index_bounds(tile_row as int, column as int, rows as int, columns as int);
                }
                let value = tile.inner[source_start + column];
                let ghost prev = *self;
                self.inner[target_start + column] = value;
                proof {
                    let ti = (row_start + tile_row) as int;
                    let tj = (column_start + column) as int;
                    assert forall|i: int, j: int|
                        0 <= i < total_rows && 0 <= j < total_columns implies #[trigger] self.entry(
                        i,
                        j,
                    ) == if (row_start <= i < row_start + tile_row && column_start <= j
                        < column_start + columns) || (i == row_start + tile_row && column_start <= j
                        < column_start + column + 1) {
                        tile.entry(i - row_start, j - column_start)
                    } else {
                        before.entry(i, j)
                    } by {
                        lemma_index_bounds(i, j, total_rows as int, total_columns as int);
                        if i * total_columns + j == ti * total_columns + tj {
                            lemma_index_injective(i, j, ti, tj, total_columns as int);
                        } else {
                            assert(self.entry(i, j) == prev.entry(i, j));
                        }
                    }
                }
                column = column + 1;
            }
            tile_row = tile_row + 1;
        }
        Ok(())
    }
}

impl<F: Element> HostTensor<F, 2> {
    /// Adds `value` to the element at `(x, y)`.
    pub fn assign_add(&mut self, x: usize, y: usize, value: F) -> (r: Result<(), MatrixError>)
        ensures
            final(self).shape_spec() == old(self).shape_spec(),
            match old(self).offset_of(x as int, y as int) {
                Some(i) => r is Ok && final(self)@ == old(self)@.update(i, old(self)@[i].plus_spec(value)),
                None => r == Err::<(), MatrixError>(MatrixError::OutOfBounds(old(self).shape_spec()))
                    && final(self)@ == old(self)@,
            },
    {
        let r = self.with_mut(x, y, |current: F| -> (out: F) ensures out == current.plus_spec(value) { current.plus(value) });
        proof {
            if let Some(i) = old(self).offset_of(x as int, y as int) {
                assert(final(self)@ =~= old(self)@.update(i, old(self)@[i].plus_spec(value)));
            }
        }
        r
    }
}

/// Two well-formed matrices of the same dimensions whose entries agree hold the same
/// elements.
pub proof fn lemma_entries_determine<F>(s: HostTensor<F, 2>, t: HostTensor<F, 2>)
    requires
        s.wf(),
        t.wf(),
        s.rows_spec() == t.rows_spec(),
        s.cols_spec() == t.cols_spec(),
        forall|i: int, j: int|
            0 <= i < s.rows_spec() && 0 <= j < s.cols_spec() ==> #[trigger] s.entry(i, j) == t.entry(i, j),
    ensures
        s@ == t@,
{
    s.lemma_wf_matrix();
    t.lemma_wf_matrix();
    let rows = s.rows_spec() as int;
    let cols = s.cols_spec() as int;
    assert forall|k: int| 0 <= k < s@.len() implies s@[k] == t@[k] by {
        lemma_index_decompose(k, rows, cols);
        let i = k / cols;
        let j = k % cols;
        assert(s.entry(i, j) == t.entry(i, j));
    }
    assert(s@ =~= t@);
}

/// Reading back: after `set` or `assign_add` replaces the element at offset `i` of `before`,
/// `get` at a position with that offset reads the new value, and `get` at any position with
/// another offset reads what it read before.
pub proof fn lemma_read_after_write<F>(before: HostTensor<F, 2>, after: HostTensor<F, 2>, i: int, value: F, x: int, y: int)
    requires
        after.shape_spec() == before.shape_spec(),
        0 <= i < before@.len(),
        0 <= x,
        0 <= y,
        after@ == before@.update(i, value),
    ensures
        after.offset_of(x, y) == before.offset_of(x, y),
        before.offset_of(x, y) == Some(i) ==> after@[i] == value,
        forall|o: int| before.offset_of(x, y) == Some(o) && o != i ==> after@[o] == before@[o],
{
}

/// Transposing twice gives back the matrix that was transposed.
pub proof fn lemma_transpose_twice<F>(original: HostTensor<F, 2>, once: HostTensor<F, 2>, twice: HostTensor<F, 2>)
    requires
        original.wf(),
        once.wf(),
        twice.wf(),
        once.rows_spec() == original.cols_spec(),
        once.cols_spec() == original.rows_spec(),
        forall|i: int, j: int|
            0 <= i < original.rows_spec() && 0 <= j < original.cols_spec() ==> #[trigger] once.entry(j, i)
                == original.entry(i, j),
        twice.rows_spec() == once.cols_spec(),
        twice.cols_spec() == once.rows_spec(),
        forall|i: int, j: int|
            0 <= i < once.rows_spec() && 0 <= j < once.cols_spec() ==> #[trigger] twice.entry(j, i) == once.entry(i, j),
    ensures
        twice.rows_spec() == original.rows_spec(),
        twice.cols_spec() == original.cols_spec(),
        twice@ == original@,
{
    assert forall|i: int, j: int|
        0 <= i < twice.rows_spec() && 0 <= j < twice.cols_spec() implies #[trigger] twice.entry(i, j)
            == original.entry(i, j) by {
        assert(once.entry(j, i) == original.entry(i, j));
        assert(twice.entry(i, j) == once.entry(j, i));
    }
    lemma_entries_determine(twice, original);
}

/// Writing back a tile that was copied out of a matrix, at the corner it was copied from,
/// leaves the matrix as it was.
pub proof fn lemma_write_back_copied_tile<F>(
    matrix: HostTensor<F, 2>,
    origin: [usize; 2],
    tile: HostTensor<F, 2>,
    written: HostTensor<F, 2>,
)
    requires
        matrix.wf(),
        written.wf(),
        written.shape_spec() == matrix.shape_spec(),
        forall|i: int, j: int|
            0 <= i < tile.rows_spec() && 0 <= j < tile.cols_spec() ==> #[trigger] tile.entry(i, j) == matrix.entry(
                origin[0] + i,
                origin[1] + j,
            ),
        forall|i: int, j: int|
            0 <= i < matrix.rows_spec() && 0 <= j < matrix.cols_spec() ==> #[trigger] written.entry(i, j) == if origin[0]
                <= i < origin[0] + tile.rows_spec() && origin[1] <= j < origin[1] + tile.cols_spec() {
                tile.entry(i - origin[0], j - origin[1])
            } else {
                matrix.entry(i, j)
            },
    ensures
        written@ == matrix@,
{
    assert forall|i: int, j: int|
        0 <= i < written.rows_spec() && 0 <= j < written.cols_spec() implies #[trigger] written.entry(i, j)
            == matrix.entry(i, j) by {
        if origin[0] <= i < origin[0] + tile.rows_spec() && origin[1] <= j < origin[1] + tile.cols_spec() {
            assert(tile.entry(i - origin[0], j - origin[1]) == matrix.entry(
                origin[0] + (i - origin[0]),
                origin[1] + (j - origin[1]),
            ));
        }
    }
    lemma_entries_determine(written, matrix);
}

/// The row-major layout survives every change that keeps the shape and the number of
/// elements, as `set`, `assign_add`, `swap`, `with_mut`, `write_tile` and `copy_tile_into` do:
/// the tensor stays well formed, holds one element per position, and position `(x, y)` of
/// the matrix is element `x * columns + y`.
pub proof fn lemma_layout_kept<F>(before: HostTensor<F, 2>, after: HostTensor<F, 2>)
    requires
        before.wf(),
        after.shape_spec() == before.shape_spec(),
        after@.len() == before@.len(),
    ensures
        after.wf(),
        after@.len() == after.rows_spec() * after.cols_spec(),
        forall|x: int, y: int|
            0 <= x < after.rows_spec() && 0 <= y < after.cols_spec() ==> #[trigger] after.offset_of(x, y) == Some(
                x * after.cols_spec() + y,
            ),
{
    after.lemma_wf_matrix();
    assert forall|x: int, y: int|
        0 <= x < after.rows_spec() && 0 <= y < after.cols_spec() implies #[trigger] after.offset_of(x, y) == Some(
            x * after.cols_spec() + y,
        ) by {
        after.lemma_offset_of_entry(x, y);
    }
}

} // verus!

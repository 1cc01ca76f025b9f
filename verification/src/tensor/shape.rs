//! Tensor shapes.

use vstd::prelude::*;

verus! {

/// The product of a sequence of dimensions.
pub open spec fn product(dims: Seq<usize>) -> int
    decreases dims.len(),
{
    if dims.len() == 0 {
        1
    } else {
        product(dims.drop_last()) * dims.last()
    }
}

/// Every running product of the dimensions, taken left to right, fits in a `usize`.
pub open spec fn prefix_products_fit(dims: Seq<usize>) -> bool {
    forall|i: int| 0 <= i <= dims.len() ==> #[trigger] product(dims.subrange(0, i)) <= usize::MAX
}

pub proof fn lemma_product_two(dims: Seq<usize>)
    requires
        dims.len() == 2,
    ensures
        product(dims) == dims[0] * dims[1],
        product(dims.subrange(0, 0)) == 1,
        product(dims.subrange(0, 1)) == dims[0],
        product(dims.subrange(0, 2)) == dims[0] * dims[1],
{
    assert(dims.drop_last().drop_last() =~= Seq::<usize>::empty());
    assert(dims.subrange(0, 0) =~= Seq::<usize>::empty());
    assert(dims.subrange(0, 1).drop_last() =~= Seq::<usize>::empty());
    assert(dims.subrange(0, 2) =~= dims);
    assert(product(dims.drop_last().drop_last()) == 1);
    assert(product(dims.drop_last()) == dims[0]) by {
        assert(dims.drop_last().last() == dims[0]);
        assert(product(dims.drop_last()) == product(dims.drop_last().drop_last()) * dims.drop_last().last());
    }
    assert(product(dims.subrange(0, 1)) == product(dims.subrange(0, 1).drop_last()) * dims[0]);
}

/// The extents of a tensor of rank `R`, outermost first.
#[derive(Clone, Copy, Debug, PartialEq, Eq)]
pub struct Shape<const R: usize> {
    dims: [usize; R],
}

impl<const R: usize> View for Shape<R> {
    type V = Seq<usize>;

    closed spec fn view(&self) -> Seq<usize> {
        self.dims@
    }
}

impl<const R: usize> Shape<R> {
    /// The number of elements of a tensor of this shape.
    pub open spec fn numel_spec(&self) -> int {
        product(self@)
    }

    pub proof fn lemma_rank(&self)
        ensures
            self@.len() == R,
    {
    }

    pub fn new(dims: [usize; R]) -> (s: Self)
        ensures
            s@ == dims@,
    {
        Shape { dims }
    }

    pub fn dims(&self) -> (r: &[usize; R])
        ensures
            r@ == self@,
    {
        &self.dims
    }

    /// The dimensions as a vector.
    pub fn to_vec(&self) -> (v: Vec<usize>)
        ensures
            v@ == self@,
    {
        let mut v: Vec<usize> = Vec::new();
        let mut i: usize = 0;
        while i < R
            invariant
                i <= R,
                self.dims@.len() == R,
                v@ == self.dims@.subrange(0, i as int),
            decreases R - i,
        {
            v.push(self.dims[i]);
            i = i + 1;
        }
        assert(self.dims@.subrange(0, R as int) =~= self.dims@);
        v
    }

    /// Checks that a buffer of `actual` elements holds exactly one element per position of
    /// this shape.
    pub fn check_element_count(&self, actual: usize) -> (r: Result<(), crate::tensor::error::ElementCountMismatch>)
        requires
            prefix_products_fit(self@),
        ensures
            r is Ok <==> actual == self.numel_spec(),
            r matches Err(e) ==> e == (crate::tensor::error::ElementCountMismatch {
                expected: self.numel_spec() as usize,
                actual,
            }),
    {
        let expected = self.numel();
        if actual != expected {
            Err(crate::tensor::error::ElementCountMismatch { expected, actual })
        } else {
            Ok(())
        }
    }

    /// Whether both shapes have the same dimensions.
    pub fn same_dims(&self, other: &Self) -> (r: bool)
        ensures
            r == (self@ == other@),
    {
        let mut i: usize = 0;
        while i < R
            invariant
                i <= R,
                self.dims@.len() == R,
                other.dims@.len() == R,
                forall|k: int| 0 <= k < i ==> self.dims@[k] == other.dims@[k],
            decreases R - i,
        {
            if self.dims[i] != other.dims[i] {
                return false;
            }
            i = i + 1;
        }
        assert(self.dims@ =~= other.dims@);
        true
    }

    /// The number of elements, multiplied out left to right.
    pub fn numel(&self) -> (n: usize)
        requires
            prefix_products_fit(self@),
        ensures
            n == self.numel_spec(),
    {
        let mut acc: usize = 1;
        let mut i: usize = 0;
        assert(self.dims@.subrange(0, 0) =~= Seq::<usize>::empty());
        while i < R
            invariant
                0 <= i <= R,
                self.dims@.len() == R,
                acc == product(self.dims@.subrange(0, i as int)),
                prefix_products_fit(self.dims@),
            decreases R - i,
        {
            assert(self.dims@.subrange(0, i + 1).drop_last() =~= self.dims@.subrange(0, i as int));
            assert(product(self.dims@.subrange(0, i + 1)) <= usize::MAX);
            acc = acc * self.dims[i];
            i = i + 1;
        }
        assert(self.dims@.subrange(0, R as int) =~= self.dims@);
        acc
    }
}

impl Shape<2> {
    pub open spec fn rows_spec(&self) -> usize {
        self@[0]
    }

    pub open spec fn cols_spec(&self) -> usize {
        self@[1]
    }

    pub proof fn lemma_matrix_numel(&self)
        ensures
            self@.len() == 2,
            self.numel_spec() == self.rows_spec() * self.cols_spec(),
            self.numel_spec() <= usize::MAX ==> prefix_products_fit(self@),
    {
        lemma_product_two(self@);
        if self.numel_spec() <= usize::MAX {
            assert forall|i: int| 0 <= i <= self@.len() implies #[trigger] product(
                self@.subrange(0, i),
            ) <= usize::MAX by {
                if i == 1 && self.cols_spec() > 0 {
                    assert(self.rows_spec() <= self.rows_spec() * self.cols_spec()) by (nonlinear_arith)
                        requires
                            self.cols_spec() > 0,
                    ;
                }
            }
        }
    }

    pub fn rows(&self) -> (r: usize)
        ensures
            r == self.rows_spec(),
    {
        self.dims[0]
    }

    pub fn cols(&self) -> (r: usize)
        ensures
            r == self.cols_spec(),
    {
        self.dims[1]
    }

    /// The shape with rows and columns exchanged.
    pub fn transposed(&self) -> (s: Self)
        ensures
            s.rows_spec() == self.cols_spec(),
            s.cols_spec() == self.rows_spec(),
    {
        Shape { dims: [self.dims[1], self.dims[0]] }
    }
}

impl<const R: usize> From<[usize; R]> for Shape<R> {
    fn from(dims: [usize; R]) -> (s: Shape<R>)
        ensures
            s@ == dims@,
    {
        Shape { dims }
    }
}

impl<const R: usize> vstd::std_specs::convert::FromSpecImpl<[usize; R]> for Shape<R> {
    open spec fn obeys_from_spec() -> bool {
        true
    }

    closed spec fn from_spec(dims: [usize; R]) -> Shape<R> {
        Shape { dims }
    }
}

} // verus!

//! Tensors for the reference backend: the same storage as host tensors, kept separate.

use vstd::prelude::*;

use crate::element::Element;
use crate::tensor::error::ElementCountMismatch;
use crate::tensor::host::{built_from, HostTensor};
use crate::tensor::shape::{prefix_products_fit, Shape};
use crate::tensor::traits::Tensor;

verus! {

/// A tensor for the reference backend, stored flat in row-major order.
pub struct NaiveTensor<F, const R: usize> {
    inner: Vec<F>,
    shape: Shape<R>,
}

/// `r` is what building a tensor of `shape` from the elements `inner` gives: the tensor
/// holding them when there is exactly one per position, else the count mismatch.
pub open spec fn naive_built_from<F, const R: usize>(r: Result<NaiveTensor<F, R>, ElementCountMismatch>, inner: Seq<F>, shape: Shape<R>) -> bool {
    match r {
        Ok(t) => inner.len() == shape.numel_spec() && t@ == inner && t.shape_spec() == shape && t.wf(),
        Err(e) => inner.len() != shape.numel_spec() && e == (ElementCountMismatch {
            expected: shape.numel_spec() as usize,
            actual: inner.len() as usize,
        }),
    }
}

impl<F, const R: usize> View for NaiveTensor<F, R> {
    type V = Seq<F>;

    closed spec fn view(&self) -> Seq<F> {
        self.inner@
    }
}

impl<F, const R: usize> NaiveTensor<F, R> {
    pub open spec fn shape_spec(&self) -> Shape<R> {
        self.shape_view()
    }

    /// The buffer holds exactly as many elements as the shape asks for.
    pub open spec fn wf(&self) -> bool {
        &&& self@.len() == self.shape_spec().numel_spec()
        &&& self.shape_spec().numel_spec() <= usize::MAX
    }

    /// Wraps `inner` as a tensor of `shape`, provided it holds exactly the right number of elements.
    pub fn from_vec(inner: Vec<F>, shape: Shape<R>) -> (r: Result<Self, ElementCountMismatch>)
        requires
            prefix_products_fit(shape@),
        ensures
            naive_built_from(r, inner@, shape),
    {
        let expected = shape.numel();
        let actual = inner.len();
        if actual != expected {
            return Err(ElementCountMismatch { expected, actual });
        }
        Ok(NaiveTensor { inner, shape })
    }

    pub fn as_slice(&self) -> (r: &[F])
        ensures
            r@ == self@,
    {
        self.inner.as_slice()
    }

    pub fn as_mut_slice(&mut self) -> (r: &mut [F])
        ensures
            r@ == old(self)@,
            final(self)@ == final(r)@,
            final(self).shape_spec() == old(self).shape_spec(),
    {
        self.inner.as_mut_slice()
    }

    /// Replaces the element at flat offset `index`.
    pub fn set_flat(&mut self, index: usize, value: F)
        requires
            index < old(self)@.len(),
        ensures
            final(self)@ == old(self)@.update(index as int, value),
            final(self).shape_spec() == old(self).shape_spec(),
    {
        self.inner[index] = value;
    }
}

impl<F: Element, const R: usize> NaiveTensor<F, R> {
    /// A tensor of `shape` whose every element is zero.
    pub fn zeros(shape: Shape<R>) -> (t: Self)
        requires
            prefix_products_fit(shape@),
        ensures
            t.wf(),
            t.shape_spec() == shape,
            forall|i: int| 0 <= i < t@.len() ==> #[trigger] t@[i] == F::zero_spec(),
    {
        let n = shape.numel();
        let mut inner: Vec<F> = Vec::new();
        let mut i: usize = 0;
        while i < n
            invariant
                i <= n,
                inner@.len() == i,
                forall|k: int| 0 <= k < i ==> #[trigger] inner@[k] == F::zero_spec(),
            decreases n - i,
        {
            inner.push(F::zero());
            i = i + 1;
        }
        NaiveTensor { inner, shape }
    }

    /// The element at flat offset `index`.
    pub fn get_flat(&self, index: usize) -> (r: F)
        requires
            index < self@.len(),
        ensures
            r == self@[index as int],
    {
        self.inner[index]
    }
}

impl<F, const R: usize> Tensor<F, R> for NaiveTensor<F, R> {
    closed spec fn shape_view(&self) -> Shape<R> {
        self.shape
    }

    fn shape(&self) -> (s: &Shape<R>) {
        &self.shape
    }
}

impl<F: Copy, const R: usize> Clone for NaiveTensor<F, R> {
    fn clone(&self) -> (r: Self)
        ensures
            r@ == self@,
            r.shape_spec() == self.shape_spec(),
    {
        let mut inner: Vec<F> = Vec::new();
        let mut i: usize = 0;
        while i < self.inner.len()
            invariant
                i <= self@.len(),
                inner@ == self@.subrange(0, i as int),
            decreases self@.len() - i,
        {
            inner.push(self.inner[i]);
            i = i + 1;
            assert(inner@ =~= self@.subrange(0, i as int));
        }
        assert(inner@ =~= self@);
        NaiveTensor { inner, shape: self.shape }
    }
}

/// Building a reference tensor and a host tensor from the same elements and shape gives the
/// same outcome: both succeed with the same elements and shape, or both report the same
/// mismatch.
pub proof fn lemma_from_vec_alike<F, const R: usize>(
    inner: Seq<F>,
    shape: Shape<R>,
    host: Result<HostTensor<F, R>, ElementCountMismatch>,
    naive: Result<NaiveTensor<F, R>, ElementCountMismatch>,
)
    requires
        built_from(host, inner, shape),
        naive_built_from(naive, inner, shape),
    ensures
        host is Ok <==> naive is Ok,
        host matches Ok(h) ==> (naive matches Ok(n) && h@ == n@ && h.shape_spec() == n.shape_spec()),
        host matches Err(e) ==> naive == Err::<NaiveTensor<F, R>, ElementCountMismatch>(e),
{
}

} // verus!

//! The reference backend: plain loops over flat buffers, used to check the others.

use vstd::prelude::*;

use crate::element::Element;
use crate::model::host::is_shape_error;
use crate::model::ModelError;
use crate::tensor::host::HostTensor;
use crate::tensor::naive::NaiveTensor;
use crate::tensor::shape::{prefix_products_fit, Shape};
use crate::tensor::traits::MatrixTensor;

verus! {

/// A backend that keeps its tensors in host memory and computes element by element.
pub struct NaiveModelBackend<F> {
    _phantom: core::marker::PhantomData<F>,
}

impl<F> Default for NaiveModelBackend<F> {
    fn default() -> Self {
        NaiveModelBackend::new()
    }
}

impl<F> NaiveModelBackend<F> {
    pub fn new() -> Self {
        NaiveModelBackend { _phantom: core::marker::PhantomData }
    }
}

impl<F: Element> NaiveModelBackend<F> {
    /// Hands a tensor to the backend: its tensors already live on the host, so this copies.
    pub fn upload_htod<const R: usize>(&self, source: &NaiveTensor<F, R>) -> (r: Result<NaiveTensor<F, R>, ModelError>)
        ensures
            r matches Ok(t) && t@ == source@ && t.shape_spec() == source.shape_spec(),
    {
        Ok(source.clone())
    }

    /// Takes a tensor back from the backend, as a copy.
    pub fn download_dtoh<const R: usize>(&self, source: &NaiveTensor<F, R>) -> (r: Result<NaiveTensor<F, R>, ModelError>)
        ensures
            r matches Ok(t) && t@ == source@ && t.shape_spec() == source.shape_spec(),
    {
        Ok(source.clone())
    }

    /// A zeroed tensor of `shape`.
    pub fn allocate<const R: usize>(&self, shape: Shape<R>) -> (r: Result<NaiveTensor<F, R>, ModelError>)
        requires
            prefix_products_fit(shape@),
        ensures
            r matches Ok(t) && t.wf() && t.shape_spec() == shape && forall|i: int|
                0 <= i < t@.len() ==> #[trigger] t@[i] == F::zero_spec(),
    {
        Ok(NaiveTensor::zeros(shape))
    }

    /// Writes `a + b` into `target`, element by element, once all three shapes agree.
    pub fn try_add<const THREADS_PER_BLOCK: u32>(
        &self,
        a: &NaiveTensor<F, 2>,
        b: &NaiveTensor<F, 2>,
        target: &mut NaiveTensor<F, 2>,
    ) -> (r: Result<(), ModelError>)
        requires
            a.wf(),
            b.wf(),
            old(target).wf(),
        ensures
            r is Ok <==> (a.shape_spec()@ == b.shape_spec()@ && a.shape_spec()@ == old(target).shape_spec()@),
            r matches Err(e) ==> if a.shape_spec()@ != b.shape_spec()@ {
                is_shape_error(e, a.shape_spec()@, b.shape_spec()@)
            } else {
                is_shape_error(e, a.shape_spec()@, old(target).shape_spec()@)
            },
            r is Err ==> final(target)@ == old(target)@,
            final(target).shape_spec() == old(target).shape_spec(),
            r is Ok ==> final(target).wf() && final(target)@.len() == a@.len() && forall|i: int|
                0 <= i < a@.len() ==> #[trigger] final(target)@[i] == a@[i].plus_spec(b@[i]),
    {
        match a.validate_add_shape_with(b) {
            Ok(()) => {},
            Err(e) => return Err(ModelError::ShapeMismatch(e)),
        }
        match a.validate_add_shape_with(target) {
            Ok(()) => {},
            Err(e) => return Err(ModelError::ShapeMismatch(e)),
        }
        let len = a.as_slice().len();
        let a_data = a.as_slice();
        let b_data = b.as_slice();
        let out = target.as_mut_slice();
        let mut i: usize = 0;
        while i < len
            invariant
                i <= len,
                a_data@ == a@,
                b_data@ == b@,
                len == a@.len(),
                a@.len() == b@.len(),
                out@.len() == len,
                forall|k: int| 0 <= k < i ==> #[trigger] out@[k] == a@[k].plus_spec(b@[k]),
            decreases len - i,
        {
            out[i] = a_data[i].plus(b_data[i]);
            i = i + 1;
        }
        Ok(())
    }
}

/// The reference backend and the host backend add alike: from operands with the same
/// elements, the sums they write hold the same elements.
pub proof fn lemma_backends_add_alike<F: Element>(
    host_a: HostTensor<F, 2>,
    host_b: HostTensor<F, 2>,
    host_sum: HostTensor<F, 2>,
    naive_a: NaiveTensor<F, 2>,
    naive_b: NaiveTensor<F, 2>,
    naive_sum: NaiveTensor<F, 2>,
)
    requires
        host_a@ == naive_a@,
        host_b@ == naive_b@,
        host_sum@.len() == host_a@.len(),
        forall|i: int| 0 <= i < host_a@.len() ==> #[trigger] host_sum@[i] == host_a@[i].plus_spec(host_b@[i]),
        naive_sum@.len() == naive_a@.len(),
        forall|i: int| 0 <= i < naive_a@.len() ==> #[trigger] naive_sum@[i] == naive_a@[i].plus_spec(naive_b@[i]),
    ensures
        host_sum@ == naive_sum@,
{
    assert forall|i: int| 0 <= i < host_sum@.len() implies host_sum@[i] == naive_sum@[i] by {
        assert(host_sum@[i] == host_a@[i].plus_spec(host_b@[i]));
        assert(naive_sum@[i] == naive_a@[i].plus_spec(naive_b@[i]));
    }
    assert(host_sum@ =~= naive_sum@);
}

/// Handing a tensor to the reference backend and taking it back gives the same elements and
/// shape.
pub proof fn lemma_naive_round_trip<F, const R: usize>(source: NaiveTensor<F, R>, uploaded: NaiveTensor<F, R>, downloaded: NaiveTensor<F, R>)
    requires
        uploaded@ == source@,
        uploaded.shape_spec() == source.shape_spec(),
        downloaded@ == uploaded@,
        downloaded.shape_spec() == uploaded.shape_spec(),
    ensures
        downloaded@ == source@,
        downloaded.shape_spec() == source.shape_spec(),
{
}

} // verus!

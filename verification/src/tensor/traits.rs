//! The tensor interface and shape validation for matrix operations.

use vstd::prelude::*;

use crate::tensor::error::ShapeMismatch;
use crate::tensor::shape::Shape;

verus! {

/// Anything with a shape of rank `R` over elements `F`.
pub trait Tensor<F, const R: usize> {
    spec fn shape_view(&self) -> Shape<R>;

    fn shape(&self) -> (s: &Shape<R>)
        ensures
            *s == self.shape_view(),
    ;
}

/// `lhs * rhs` is defined: the columns of `lhs` match the rows of `rhs`.
pub open spec fn matmul_compatible(lhs: Shape<2>, rhs: Shape<2>) -> bool {
    lhs.cols_spec() == rhs.rows_spec()
}

/// The shape of `lhs * rhs`.
pub open spec fn matmul_output(lhs: Shape<2>, rhs: Shape<2>) -> Seq<usize> {
    seq![lhs.rows_spec(), rhs.cols_spec()]
}

/// The error reported for two shapes that should agree.
pub open spec fn mismatch(e: ShapeMismatch, lhs: Seq<usize>, rhs: Seq<usize>) -> bool {
    e.lhs@ == lhs && e.rhs@ == rhs
}

/// Checks that `lhs * rhs` is defined.
pub fn check_matmul_shapes(lhs: &Shape<2>, rhs: &Shape<2>) -> (r: Result<(), ShapeMismatch>)
    ensures
        r is Ok <==> matmul_compatible(*lhs, *rhs),
        r matches Err(e) ==> mismatch(e, lhs@, rhs@),
{
    if lhs.cols() == rhs.rows() {
        Ok(())
    } else {
        Err(ShapeMismatch { lhs: lhs.to_vec(), rhs: rhs.to_vec() })
    }
}

/// Checks that `lhs * rhs` is defined and that `target` has its shape.
pub fn check_matmul_target(lhs: &Shape<2>, rhs: &Shape<2>, target: &Shape<2>) -> (r: Result<
    (),
    ShapeMismatch,
>)
    ensures
        r is Ok <==> matmul_compatible(*lhs, *rhs) && target@ == matmul_output(*lhs, *rhs),
        r matches Err(e) ==> if !matmul_compatible(*lhs, *rhs) {
            mismatch(e, lhs@, rhs@)
        } else {
            mismatch(e, matmul_output(*lhs, *rhs), target@)
        },
{
    check_matmul_shapes(lhs, rhs)?;
    let expected = Shape::new([lhs.rows(), rhs.cols()]);
    proof {
        lhs.lemma_rank();
        target.lemma_rank();
        assert(expected@ =~= matmul_output(*lhs, *rhs));
    }
    if target.same_dims(&expected) {
        Ok(())
    } else {
        Err(ShapeMismatch { lhs: expected.to_vec(), rhs: target.to_vec() })
    }
}

/// Checks that `lhs + rhs` is defined: both shapes are the same.
pub fn check_add_shapes(lhs: &Shape<2>, rhs: &Shape<2>) -> (r: Result<(), ShapeMismatch>)
    ensures
        r is Ok <==> lhs@ == rhs@,
        r matches Err(e) ==> mismatch(e, lhs@, rhs@),
{
    if lhs.same_dims(rhs) {
        Ok(())
    } else {
        Err(ShapeMismatch { lhs: lhs.to_vec(), rhs: rhs.to_vec() })
    }
}

/// Shape validation for rank-2 tensors, available on every matrix.
pub trait MatrixTensor<F>: Tensor<F, 2> {
    fn validate_matmul_shape_with<T: Tensor<F, 2>>(&self, rhs: &T) -> (r: Result<(), ShapeMismatch>)
        ensures
            r is Ok <==> matmul_compatible(self.shape_view(), rhs.shape_view()),
            r matches Err(e) ==> mismatch(e, self.shape_view()@, rhs.shape_view()@),
    ;

    fn validate_matmul_target_with<Rhs: Tensor<F, 2>, Target: Tensor<F, 2>>(
        &self,
        rhs: &Rhs,
        target: &Target,
    ) -> (r: Result<(), ShapeMismatch>)
        ensures
            r is Ok <==> matmul_compatible(self.shape_view(), rhs.shape_view())
                && target.shape_view()@ == matmul_output(self.shape_view(), rhs.shape_view()),
            r matches Err(e) ==> if !matmul_compatible(self.shape_view(), rhs.shape_view()) {
                mismatch(e, self.shape_view()@, rhs.shape_view()@)
            } else {
                mismatch(e, matmul_output(self.shape_view(), rhs.shape_view()), target.shape_view()@)
            },
    ;

    fn validate_add_shape_with<T: Tensor<F, 2>>(&self, rhs: &T) -> (r: Result<(), ShapeMismatch>)
        ensures
            r is Ok <==> self.shape_view()@ == rhs.shape_view()@,
            r matches Err(e) ==> mismatch(e, self.shape_view()@, rhs.shape_view()@),
    ;
}

impl<F, M: Tensor<F, 2>> MatrixTensor<F> for M {
    fn validate_matmul_shape_with<T: Tensor<F, 2>>(&self, rhs: &T) -> (r: Result<(), ShapeMismatch>) {
        check_matmul_shapes(self.shape(), rhs.shape())
    }

    fn validate_matmul_target_with<Rhs: Tensor<F, 2>, Target: Tensor<F, 2>>(
        &self,
        rhs: &Rhs,
        target: &Target,
    ) -> (r: Result<(), ShapeMismatch>) {
        check_matmul_target(self.shape(), rhs.shape(), target.shape())
    }

    fn validate_add_shape_with<T: Tensor<F, 2>>(&self, rhs: &T) -> (r: Result<(), ShapeMismatch>) {
        check_add_shapes(self.shape(), rhs.shape())
    }
}

} // verus!

use vstd::prelude::*;
use crate::tensor::nz_product;
use crate::tensor::shape_product;

verus! {

/// Dense multi-dimensional storage provided by the ndarray crate. The array is
/// held in a private field that the verifier does not look into; everything the
/// engine knows about it is said through `arr_shape` and `arr_elems`.
#[verifier::external_body]
pub struct DenseArray {
    inner: ndarray::ArrayD<i64>,
}

/// The elements of the held array, in row-major order.
pub uninterp spec fn arr_elems(a: DenseArray) -> Seq<i64>;

/// The axis lengths of the held array.
pub uninterp spec fn arr_shape(a: DenseArray) -> Seq<usize>;

impl DenseArray {
    /// Relies on ndarray::ArrayBase::shape: the axis lengths of the array. For
    /// an owned dense array the element count equals the product of the axis
    /// lengths, and the product of the non-zero axis lengths was checked
    /// against `isize::MAX` when the array was built.
    #[verifier::external_body]
    pub fn shape_vec(&self) -> (r: Vec<usize>)
        ensures
            r@ == arr_shape(*self),
            arr_elems(*self).len() == shape_product(r@),
            nz_product(r@) <= isize::MAX as int,
    {
        self.inner.shape().to_vec()
    }

    /// Relies on ndarray::ArrayBase::iter: yields the array's elements in
    /// logical (row-major) order.
    #[verifier::external_body]
    pub fn elems_vec(&self) -> (r: Vec<i64>)
        ensures
            r@ == arr_elems(*self),
    {
        self.inner.iter().copied().collect()
    }

    /// Relies on ndarray::ArrayBase::from_shape_vec with a dynamic shape: it
    /// builds the array whose axis lengths and row-major elements are exactly
    /// the ones given. It succeeds whenever the element count matches the
    /// shape and the product of the non-zero axis lengths stays within
    /// `isize::MAX`, the library's size check; partial products of factors at
    /// least one never exceed the full product, so that check cannot overflow
    /// either.
    #[verifier::external_body]
    pub fn from_parts(shape: &Vec<usize>, elems: Vec<i64>) -> (r: DenseArray)
        requires
            elems@.len() == shape_product(shape@),
            nz_product(shape@) <= isize::MAX as int,
        ensures
            arr_shape(r) == shape@,
            arr_elems(r) == elems@,
    {
        DenseArray {
            inner: ndarray::ArrayD::from_shape_vec(ndarray::IxDyn(shape.as_slice()), elems)
                .unwrap(),
        }
    }
}

} // verus!

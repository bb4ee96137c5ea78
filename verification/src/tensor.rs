//! N-dimensional tensors over [`Dual`] components, stored flat in
//! row-major order, together with the product-of-dimensions reasoning that
//! ties a shape to the length of the flat data.

use vstd::prelude::*;

use crate::dual::Dual;
use crate::error::Error;

verus! {

/// Largest number of components a tensor handed to the quantizer may have.
/// Together with [`COMPONENT_BOUND`](crate::dual::COMPONENT_BOUND) it keeps
/// every loss accumulator inside `i64`.
pub const ELEMENT_BOUND: usize = 1_000_000;

/// The product of a sequence of dimensions; the number of elements of a
/// tensor of that shape. The empty product is 1.
pub open spec fn dim_product(dims: Seq<usize>) -> int
    decreases dims.len(),
{
    if dims.len() == 0 {
        1
    } else {
        dim_product(dims.drop_last()) * dims.last()
    }
}

pub proof fn lemma_dim_product_nonneg(dims: Seq<usize>)
    ensures
        dim_product(dims) >= 0,
    decreases dims.len(),
{
    if dims.len() > 0 {
        lemma_dim_product_nonneg(dims.drop_last());
        assert(dim_product(dims.drop_last()) * dims.last() >= 0) by (nonlinear_arith)
            requires
                dim_product(dims.drop_last()) >= 0,
                dims.last() >= 0;
    }
}

/// Extending a prefix of the dimensions by one multiplies its product by the
/// new dimension.
pub proof fn lemma_dim_product_take_succ(dims: Seq<usize>, i: int)
    requires
        0 <= i < dims.len(),
    ensures
        dim_product(dims.take(i + 1)) == dim_product(dims.take(i)) * dims[i],
{
    assert(dims.take(i + 1).drop_last() =~= dims.take(i));
    assert(dims.take(i + 1).last() == dims[i]);
}

/// A zero dimension anywhere makes the whole product zero.
pub proof fn lemma_dim_product_with_zero(dims: Seq<usize>, i: int)
    requires
        0 <= i < dims.len(),
        dims[i] == 0,
    ensures
        dim_product(dims) == 0,
    decreases dims.len(),
{
    if i == dims.len() - 1 {
        assert(dims.last() == 0);
    } else {
        assert(dims.drop_last()[i] == dims[i]);
        lemma_dim_product_with_zero(dims.drop_last(), i);
    }
}

/// With every dimension positive, each prefix product is at least 1.
pub proof fn lemma_dim_product_take_pos(dims: Seq<usize>, i: int)
    requires
        0 <= i <= dims.len(),
        forall|j: int| 0 <= j < dims.len() ==> dims[j] >= 1,
    ensures
        dim_product(dims.take(i)) >= 1,
    decreases i,
{
    if i == 0 {
        assert(dims.take(0) =~= Seq::<usize>::empty());
    } else {
        lemma_dim_product_take_pos(dims, i - 1);
        lemma_dim_product_take_succ(dims, i - 1);
        assert(dim_product(dims.take(i - 1)) * dims[i - 1] >= 1) by (nonlinear_arith)
            requires
                dim_product(dims.take(i - 1)) >= 1,
                dims[i - 1] >= 1;
    }
}

/// With every dimension positive, the full product dominates each prefix
/// product.
pub proof fn lemma_dim_product_take_bound(dims: Seq<usize>, i: int)
    requires
        0 <= i <= dims.len(),
        forall|j: int| 0 <= j < dims.len() ==> dims[j] >= 1,
    ensures
        dim_product(dims) >= dim_product(dims.take(i)),
    decreases dims.len() - i,
{
    if i == dims.len() {
        assert(dims.take(i) =~= dims);
    } else {
        lemma_dim_product_take_pos(dims, i);
        lemma_dim_product_take_succ(dims, i);
        assert(dim_product(dims.take(i)) * dims[i] >= dim_product(dims.take(i))) by (nonlinear_arith)
            requires
                dim_product(dims.take(i)) >= 1,
                dims[i] >= 1;
        lemma_dim_product_take_bound(dims, i + 1);
    }
}

/// A batch of latent vectors: an n-dimensional tensor whose trailing axis
/// holds the components of one vector and whose leading axes are jointly a
/// batch. The data is flat, row-major.
#[derive(Clone, Debug)]
pub struct Tensor {
    pub shape: Vec<usize>,
    pub data: Vec<Dual>,
}

impl Tensor {
    /// The shape has at least one axis and accounts exactly for the flat
    /// data.
    pub open spec fn wf(self) -> bool {
        &&& self.shape@.len() >= 1
        &&& self.data@.len() == dim_product(self.shape@)
    }

    /// Every component is small enough for the quantizer's exact
    /// arithmetic.
    pub open spec fn in_range(self) -> bool {
        forall|i: int| 0 <= i < self.data@.len() ==> (#[trigger] self.data@[i]).in_range()
    }

    /// The size of the trailing axis: the length of one latent vector.
    pub open spec fn trailing_dim(self) -> int {
        self.shape@.last() as int
    }

    /// The number of latent vectors: the product of all leading axes.
    pub open spec fn vector_count(self) -> int {
        dim_product(self.shape@.drop_last())
    }

    /// Builds a tensor after checking that the shape is non-empty and
    /// accounts exactly for the data; rejects any other pair.
    pub fn new(shape: Vec<usize>, data: Vec<Dual>) -> (r: Result<Tensor, Error>)
        ensures
            r matches Ok(t) ==> t.shape == shape && t.data == data && t.wf(),
            r is Ok <==> shape@.len() >= 1 && data@.len() == dim_product(shape@),
    {
        if shape.len() == 0 {
            return Err(Error::generic("tensor shape must have at least one axis"));
        }
        let mut i: usize = 0;
        let mut zero_at: Option<usize> = None;
        while i < shape.len()
            invariant
                i <= shape@.len(),
                match zero_at {
                    Some(j) => j < shape@.len() && shape@[j as int] == 0,
                    None => forall|j: int| 0 <= j < i ==> shape@[j] >= 1,
                },
            decreases shape@.len() - i,
        {
            if shape[i] == 0 {
                zero_at = Some(i);
            }
            i = i + 1;
        }
        if let Some(j) = zero_at {
            proof {
                lemma_dim_product_with_zero(shape@, j as int);
            }
            if data.len() == 0 {
                return Ok(Tensor { shape, data });
            }
            return Err(Error::generic("tensor data length does not match its shape"));
        }
        let data_len: usize = data.len();
        let mut k: usize = 0;
        let mut count: usize = 1;
        proof {
            assert(shape@.take(0) =~= Seq::<usize>::empty());
        }
        while k < shape.len()
            invariant
                k <= shape@.len(),
                data_len == data@.len(),
                forall|j: int| 0 <= j < shape@.len() ==> shape@[j] >= 1,
                count == dim_product(shape@.take(k as int)),
            decreases shape@.len() - k,
        {
            proof {
                lemma_dim_product_take_succ(shape@, k as int);
            }
            count = match count.checked_mul(shape[k]) {
                Some(c) => c,
                None => {
                    proof {
                        lemma_dim_product_take_bound(shape@, k as int + 1);
                    }
                    return Err(Error::generic("tensor data length does not match its shape"));
                },
            };
            k = k + 1;
        }
        proof {
            assert(shape@.take(shape@.len() as int) =~= shape@);
        }
        if data.len() == count {
            Ok(Tensor { shape, data })
        } else {
            Err(Error::generic("tensor data length does not match its shape"))
        }
    }
}

/// The codeword indices chosen for a batch: a tensor of positions into the
/// codebook, stored flat, with the same shape discipline as [`Tensor`].
#[derive(Clone, Debug)]
pub struct IndexTensor {
    pub shape: Vec<usize>,
    pub data: Vec<usize>,
}

impl IndexTensor {
    /// The shape has at least one axis and accounts exactly for the flat
    /// data.
    pub open spec fn wf(self) -> bool {
        &&& self.shape@.len() >= 1
        &&& self.data@.len() == dim_product(self.shape@)
    }
}

} // verus!

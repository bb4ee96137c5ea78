//! Forward-mode scalars: each component of a tensor carries its forward
//! value together with the derivative of that value with respect to one
//! chosen seed variable. Arithmetic on `Dual` values is what gives the
//! quantizer's straight-through estimator and loss gradients an exact,
//! checkable meaning without an autodiff engine.

use vstd::prelude::*;

verus! {

/// Largest magnitude a component's value or gradient may have on entry to
/// the quantizer. The bound keeps every intermediate sum of squared
/// differences, taken over at most [`ELEMENT_BOUND`](crate::tensor::ELEMENT_BOUND)
/// elements, inside `i64`.
pub const COMPONENT_BOUND: i64 = 1_000_000;

/// A fixed-point scalar with a forward value and a forward-mode gradient.
///
/// `grad` is the derivative of `val` with respect to a single seed variable
/// chosen by the caller: seeding one input component with gradient 1 and
/// every other component (and every codeword) with gradient 0 makes the
/// quantizer's output gradients the partial derivatives with respect to
/// that component.
#[derive(Clone, Copy, Debug, PartialEq, Eq, Structural)]
pub struct Dual {
    pub val: i64,
    pub grad: i64,
}

impl Dual {
    /// Both the value and the gradient are small enough for the quantizer's
    /// exact arithmetic.
    pub open spec fn in_range(self) -> bool {
        &&& -COMPONENT_BOUND <= self.val <= COMPONENT_BOUND
        &&& -COMPONENT_BOUND <= self.grad <= COMPONENT_BOUND
    }

    pub fn new(val: i64, grad: i64) -> (d: Dual)
        ensures
            d == (Dual { val, grad }),
    {
        Dual { val, grad }
    }

    /// A constant: a value that does not depend on the seed variable.
    pub fn constant(val: i64) -> (d: Dual)
        ensures
            d == (Dual { val, grad: 0 }),
    {
        Dual { val, grad: 0 }
    }
}

} // verus!

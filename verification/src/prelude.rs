//! Convenience items re-exported for callers: the crate's error type and a
//! lightweight newtype wrapper.

use vstd::prelude::*;

pub use crate::error::Error;

verus! {

/// Lightweight newtype wrapper used to leverage `Deref`/`DerefMut` while
/// keeping the wrapped value strongly typed.
pub struct W<T>(pub T);

impl<T> core::ops::Deref for W<T> {
    type Target = T;

    fn deref(&self) -> (r: &T)
        ensures
            r == &self.0,
    {
        &self.0
    }
}

impl<T> core::ops::DerefMut for W<T> {
    fn deref_mut(&mut self) -> (r: &mut T)
        ensures
            *r == old(self).0,
            final(self).0 == *final(r),
    {
        &mut self.0
    }
}

} // verus!

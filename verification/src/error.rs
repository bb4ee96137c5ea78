//! The crate's error type: a closed enumeration of the ways a caller can
//! misconfigure the quantizer, plus a generic catch-all variant.

use vstd::prelude::*;

verus! {

/// Error raised by the quantizer's constructors and by `forward`.
#[derive(Debug)]
pub enum Error {
    /// A generic catch-all error when no specific variant exists yet.
    Generic(String),
    /// The trailing axis of an input tensor does not match the codebook's
    /// latent dimension, or a construction-time size was not positive.
    ShapeMismatch { expected: usize, found: usize },
}

impl Error {
    /// Builds the catch-all variant from a message.
    pub fn generic(value: &str) -> (e: Error)
        ensures
            e matches Error::Generic(m) && m@ == value@,
    {
        Error::Generic(value.to_owned())
    }

    /// The human-readable message carried by this error.
    pub fn message(&self) -> (m: String)
        ensures
            self matches Error::Generic(s) ==> m@ == s@,
            self matches Error::ShapeMismatch { .. } ==> m@ == "shape mismatch"@,
    {
        match self {
            Error::Generic(s) => s.clone(),
            Error::ShapeMismatch { .. } => "shape mismatch".to_owned(),
        }
    }
}

impl From<&str> for Error {
    fn from(value: &str) -> (e: Error)
        ensures
            e matches Error::Generic(m) && m@ == value@,
    {
        Error::Generic(value.to_owned())
    }
}

impl vstd::std_specs::convert::FromSpecImpl<&str> for Error {
    open spec fn obeys_from_spec() -> bool {
        false
    }

    open spec fn from_spec(v: &str) -> Error {
        Error::Generic(choose|s: String| s@ == v@)
    }
}

} // verus!

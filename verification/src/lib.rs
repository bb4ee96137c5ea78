//! Vector-quantization layer in the VQ-VAE style: a learnable codebook of
//! codewords, nearest-neighbor assignment of latent vectors to codewords,
//! the two training losses, and a straight-through gradient path.
//!
//! All arithmetic is exact: tensor components are fixed-point integers, each
//! carrying a forward value and a forward-mode gradient ([`dual::Dual`]), and
//! the two losses are exact rationals. This makes every numeric claim of the
//! quantizer a theorem rather than a floating-point approximation; a caller
//! that works in floating point chooses a scale and converts at the boundary.

pub mod codebook;
pub mod dual;
pub mod error;
pub mod prelude;
pub mod quantizer;
pub mod tensor;

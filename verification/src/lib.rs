//! The integer core of a BlurHash-style image codec.
//!
//! An image is condensed into a short ASCII string over a fixed
//! 83-character alphabet: one size-flag character, one dynamic-range
//! character, four characters for the average colour (the DC term) and two
//! characters for every remaining frequency component (the AC terms).
//! This crate holds the exact parts of that scheme: the base-83 codec, the
//! bit- and radix-packing of quantised terms, the hash layout with its
//! length law, and the validation on both the encode and the decode path.
//! The perceptual colour conversion and the cosine transforms work on
//! floating-point samples and live with the caller; they hand this crate
//! plain integers and take plain integers back.
use vstd::prelude::*;

pub mod base83;
pub mod pipeline;
pub mod quantize;

verus! {

/// The failures the codec reports.
#[derive(Clone, Copy, Debug, PartialEq, Eq, Structural)]
pub enum BlurHashError {
    /// A component count outside `[1, 9]`, rejected before any transform
    /// work starts.
    InvalidComponentRange,
    /// A parallel encode worker did not complete normally; the whole
    /// encode is abandoned.
    ThreadFailure,
    /// A hash string of the wrong length, or with a character outside the
    /// 83-character alphabet, rejected before any decode arithmetic.
    MalformedHash,
}

} // verus!

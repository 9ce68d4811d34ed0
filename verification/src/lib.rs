//! Match recognition and phase dataset handling for recorded game videos.
//!
//! The library holds the decisions: which videos and frames are looked at,
//! how phase names, labels and regions are normalised, how the labelled
//! dataset is rebalanced and corrected, how model outputs are read, and the
//! command lines of the external tools. Image processing and everything that
//! computes on floating-point values stay with the caller, which hands in
//! plain values: `f32` coordinates as bit patterns, and confidences or
//! similarities as order keys.
use vstd::prelude::*;

pub mod text;
pub mod phase;
pub mod preview;
pub mod format;
pub mod names;
pub mod digest;
pub mod binary64;
pub mod sampling;
pub mod rank;
pub mod dataset;
pub mod detection;
pub mod paths;
pub mod recognition;
pub mod training;
pub mod commands;

verus! {

} // verus!

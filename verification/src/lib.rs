//! Silence trimming for mono 16-bit PCM audio.
//!
//! The core algorithm locates the first and last windows of a sample
//! sequence whose energy (root-mean-square) exceeds a threshold and
//! returns the enclosed sub-sequence.  All energy comparisons are done
//! in exact integer arithmetic: a window is "loud" when its sum of
//! squared samples, scaled by 2^32, strictly exceeds the squared linear
//! RMS threshold (a Q32.32 fixed-point value) times the window length.

pub mod energy;
pub mod format;
pub mod trim;

use vstd::prelude::*;

verus! {

/// Number of samples per analysis window: 50 ms at 16 kHz.
pub const WINDOW_SIZE: usize = 800;

} // verus!

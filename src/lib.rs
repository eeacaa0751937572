//! Global alignment of two character sequences by the Needleman-Wunsch
//! recurrence, with a fixed scheme: +1 for a match, -1 for a mismatch and
//! -1 for a gap.
pub mod align;
pub mod backtrace;
pub mod laws;
pub mod scoring;

//! Buddhabrot rendering core: a saturating 16-bit histogram of escape-path
//! hits, the accumulation rule for diverging orbits, work partitioning, and
//! the grayscale rescale step.
//!
//! Floating-point sampling, the complex-number recurrence itself, and PNG
//! output live outside the verified core; they hand pixel coordinates and
//! path lengths in, and take the finished 8-bit grid out.

pub mod histogram;
pub mod render;

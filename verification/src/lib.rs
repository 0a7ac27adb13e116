//! A single-dimension linear recursive state estimator (scalar Kalman
//! filter) over exact rational arithmetic.
//!
//! The estimator converts a stream of noisy scalar measurements into a
//! stream of refined state estimates with tracked uncertainty.  Scalars
//! are exact rationals (`ratio::Ratio`), so every contract pins the
//! produced values down to the mathematical result of the Kalman
//! recursion, and the classic properties of the filter (gain bounds,
//! variance contraction, the zero- and infinite-noise limits) are proved
//! rather than sampled.

pub mod kalman;
pub mod ratio;

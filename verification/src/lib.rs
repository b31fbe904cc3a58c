//! Weighted lottery ticket generation.
//!
//! The crate draws PowerBall-style tickets (five distinct main numbers in
//! `[1, 69]` plus one special number in `[1, 26]`) under three strategies:
//! a uniform draw, a statically weighted "hot/cold" draw, and a
//! criteria-filtered draw that rejects tickets until aggregate sum and
//! spread constraints are met.
//!
//! Weights are positive fixed-point values expressed in tenths, so that the
//! weight-proportional selection arithmetic is exact.

mod rng;
pub mod vecs;
pub mod weights;
pub mod sampler;
pub mod ticket;
pub mod criteria;
pub mod draw;

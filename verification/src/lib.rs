//! Verified core of a pulse-oximetry monitor.
//!
//! * [`circ`]: the rolling window of readings that the acquisition task
//!   writes and the analysis loop reads.
//! * [`model`]: one reading of the two channels, how it comes out of the
//!   sensor's queue, and how a window is copied out per channel.
//! * [`linreg`]: the sums over sample positions that a least-squares line
//!   through a window needs, and why its denominator is never 0.
//! * [`signal`]: the heartbeat detector, which runs over the signs of a
//!   window's first derivative.
//! * [`estimator`]: what a cycle keeps of the heartbeats it accepts, and the
//!   distance between them that stands for the inter-beat interval.
//! * [`display`]: where a position on the rotated screen lies on the panel.
//! * [`fixed`]: the fixed-capacity collections the estimator is built on.
//!
//! Amplitudes are single-precision numbers and never enter this crate.
//! Callers keep them, hand over what they decided from them (the sign of a
//! step, whether a heartbeat passes) and get positions and counts back.

pub mod circ;
pub mod display;
pub mod estimator;
pub mod fixed;
pub mod linreg;
pub mod model;
pub mod signal;

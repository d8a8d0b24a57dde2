//! Descriptive statistics — minimum, maximum, arithmetic mean, sample
//! variance and standard deviation — over finite sequences of IEEE 754
//! measurements, carried as raw bit patterns.  NaN entries stand for
//! missing measurements and are skipped by every statistic; the NaN
//! pattern is also the result wherever a statistic is undefined.
//!
//! The two precisions live in sibling modules with identical surfaces:
//! [`double`] for 64-bit samples and [`single`] for 32-bit samples.

pub mod all;
pub mod double;
pub mod single;


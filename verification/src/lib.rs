//! Monte Carlo estimation of the expected minimum and maximum of two
//! independent uniform random variables on [0,1).
//!
//! Samples are modelled in fixed point: each draw is a 53-bit numerator
//! `f` standing for the real value `f / 2^53`, exactly the fraction a
//! 64-bit generator word yields after discarding its low 11 bits. All
//! accumulation is exact integer arithmetic; only the final division
//! into a floating-point estimate is left to the caller.

pub mod aggregate;
pub mod args;
pub mod partition;
pub mod rng;
pub mod sampler;

pub use aggregate::ConfigError;
pub use sampler::PartialResult;

//! Benchmarking harness for approximations of the reciprocal square root
//! function 1/sqrt(x).
//!
//! The measurement core is scalar-agnostic: the scalar arithmetic itself
//! (IEEE-754 single precision in practice) is supplied by the host program
//! through the [`Scalar`] and [`QRSqrt`] traits, while everything the harness
//! itself does — building the paired reference/exact dataset, running a
//! strategy over every element, computing the per-element error buffer, and
//! reducing the errors to maximum and percentile statistics — is verified
//! here over the traits' specifications.

use vstd::prelude::*;

mod buffer;
mod dataset;
mod q_rsqrt;
mod scalar;

pub mod asm_avx512_rsqrt;
pub mod avx512_rsqrt;
pub mod basic_rsqrt;
pub mod exact_rsqrt;
pub mod operation_tester;
pub mod quake_rsqrt;
pub mod sse_rsqrt;
pub mod stats;

pub use buffer::FillBuffer;
pub use dataset::generate;
pub use dataset::exact_seq;
pub use dataset::reference_seq;
pub use q_rsqrt::QRSqrt;
pub use scalar::Scalar;

//! Benchmark kernels, file digests and watermark placement, with their
//! behaviour stated as contracts.
use vstd::prelude::*;

pub mod benchmark;
pub mod boundary;
pub mod hash;
pub mod watermark;

//! Client side of a shared drive: reassembling ranged reads out of content-addressed chunks, and
//! keeping a local replica of a remote drive in step with its change feed.

pub mod convergence;
pub mod mirror;
pub mod plan;
pub mod readplan;
pub mod reassembly;
pub mod snapshot;

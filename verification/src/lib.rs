//! Chunked tree reduction of unsigned 64-bit integers: the planning, the
//! per-pass arithmetic and the convergence loop of a GPU-style sum, with the
//! device kept outside.

pub mod buffer;
pub mod config;
pub mod convergence;
pub mod engine;
pub mod host;
pub mod kernel;
pub mod partition;
pub mod pass;
pub mod reducer;
pub mod sum;

//! Verified decision core of a Monte-Carlo path tracer.
//!
//! The renderer's bookkeeping is what this library proves correct: the
//! per-worker pixel work lists with their double-buffered pass discipline,
//! the stagnation-based convergence statistics, the stratified jitter
//! pattern, and the progress accounting. The floating-point shading and
//! intersection arithmetic around this core is deliberately unverified and
//! lives with the embedding application.

pub mod materials;
pub mod sampling;
pub mod stats;
pub mod worklist;

//! Integer core of a Monte-Carlo path tracer: the closest-hit rule of a
//! scene, the decisions of the bounce recursion, the single-writer pixel
//! grid and the batching of per-pixel work over a thread pool.

pub mod pixel;
pub mod frame;
pub mod path;
pub mod scene;
pub mod schedule;
pub mod settings;

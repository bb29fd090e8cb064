//! Verified decision logic of a shape renderer: which shapes of a shape tree
//! are drawn and in which order, when the cached surface image can be reused
//! while navigating, and how fills, strokes and stroke caps are dispatched.
//! The drawing itself (GPU surfaces, floating-point geometry) is performed by
//! the caller, step by step, as the plans returned here prescribe.

pub mod ids;
pub mod tree;
pub mod state;
pub mod paint;

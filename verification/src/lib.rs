//! Navigation and job planning for an incremental Mandelbrot explorer.
//!
//! The crate holds the parts of the explorer that are decided over integers:
//! which pixels a compute job visits and in what order, how a stream of
//! per-step observations turns into an escape outcome, the history of views
//! and the pointer-gesture state machine that edits it, and what the display
//! shows for a result. Coordinates of the complex plane are carried as IEEE 754
//! binary32 encodings; rounding arithmetic on them is left to the caller.

pub mod binary32;
pub mod display;
pub mod escape;
pub mod grid;
pub mod navigation;
pub mod view;

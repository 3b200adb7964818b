//! Core of a manual 2-D data-set editor: a point collection with labels,
//! an undo/redo event log with a bounded history, and a memoized
//! bounding-box query, together with the small helpers around them.
//!
//! Coordinates are fixed-point numbers: an `i64` counts units of
//! 10^-10, so the value `1.23` is stored as `12_300_000_000`.

pub mod data_conversion;
pub mod data_definition;
pub mod dequeue;
pub mod fib;
pub mod stack;
pub mod status_msg;
pub mod undo_manager;

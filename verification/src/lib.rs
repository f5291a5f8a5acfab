//! Core of a live, auto-scaling line chart: turning text lines from a sensor
//! into timestamped samples, keeping them in an append-only buffer, and
//! deriving for each frame the window of recent samples, the vertical targets
//! the axis is pulled toward, and the times shown along the time axis.
//!
//! Everything here works on integers; drawing and the smoothing of the axis
//! bounds in floating point are left to the program around this library.

pub mod buffer;
pub mod frame;
pub mod ingest;
pub mod line;
pub mod source;

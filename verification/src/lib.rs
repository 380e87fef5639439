//! Motion-control core of a differential-drive competition robot: the
//! command model, the textual path format, the path compiler, the
//! per-command execution plan with its settling rule, and the path
//! rasteriser.
//!
//! Everything here works on integers, text and opaque scalar values; the
//! trigonometry and the control arithmetic are supplied by the caller.

pub mod raster;
pub mod text;
pub mod number;
pub mod command;
pub mod parse;
pub mod path;
pub mod compile;
pub mod reverse;
pub mod settle;
pub mod execute;
pub mod subsystems;

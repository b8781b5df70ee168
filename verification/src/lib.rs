//! An invisible, selectable text layer for vector-rendered pages.
//!
//! A shaped text run is grouped into lines by its cross-axis coordinate, every
//! character of a line gets an offset along the advance axis, and the run is
//! turned into the sequence of markup writes that a streaming sink receives.

pub mod scalar;
pub mod family;
pub mod escape;
pub mod line;
pub mod offsets;
pub mod markup;

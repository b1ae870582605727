//! A pixel-sorting image effect.
//!
//! For each row of an image, a threshold rule selects contiguous runs of
//! pixels, the runs are widened and merged according to the settings, and the
//! pixels inside each surviving run are reordered by a sort key.  A scheduler
//! re-runs the whole pipeline over the image whenever the settings change.

pub mod pixel;
pub mod settings;
pub mod runs;
pub mod ordering;
pub mod image;

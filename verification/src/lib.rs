//! Verified core of the manokeso tile simulation: saturating arithmetic,
//! double-buffered cell grids, board slicing and frame timers.

pub mod util;
pub mod world;
pub mod timer;
pub mod render;

//! A toroidal Life automaton whose per-cell live-neighbour counts are kept
//! up to date incrementally, together with a dirty-block rasteriser that
//! paints the grid into an upscaled ARGB framebuffer.

pub mod cell;
pub mod entropy;
pub mod error;
pub mod raster;
pub mod seed;
pub mod step;
pub mod torus;
pub mod universe;

pub use cell::Cell;
pub use error::{ConstructionError, EntropySourceError};
pub use universe::Universe;

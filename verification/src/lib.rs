//! A depth-first maze carver whose whole state lives in the colours of the
//! raster it draws into.

pub mod palette;
pub mod geometry;
pub mod raster;
pub mod render;
pub mod decode;
pub mod stepper;
pub mod laws;
pub mod progress;
pub mod tree;
pub mod completion;
pub mod linking;

pub use crate::decode::{cell_type, find_head};
pub use crate::geometry::Pos;
pub use crate::palette::{CellType, Color};
pub use crate::stepper::{frame, shuffle, Direction};

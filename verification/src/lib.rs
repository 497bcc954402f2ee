//! MAXRECTS rectangle packing.
//!
//! A `RectPacker` tracks the unoccupied area of a 2D canvas as a set of free
//! rectangles and places axis-aligned items into it with the best-short-side-fit
//! heuristic, splitting every intersected free rectangle into up to four
//! residual rectangles after each placement.

pub mod geom;
pub mod laws;
pub mod model;
pub mod packer;

pub use geom::Rectangle;
pub use geom::bssf;
pub use packer::FailedPacking;
pub use packer::InvalidRegion;
pub use packer::RectPacker;

//! Fills the color of fully transparent pixels from their opaque neighbours,
//! so that tools which blend colors while ignoring alpha see no dark fringe.

pub mod pixel;
pub mod grid;
pub mod fixer;
pub mod discovery;
pub mod laws;

pub use pixel::Pixel;
pub use grid::Grid;
pub use fixer::{fix_transparent_pixels, interpolate_nearby_non_transparent_pixels};
pub use discovery::is_png_extension;



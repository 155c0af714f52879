//! Content-aware image narrowing by seam carving.
//!
//! A vertical seam is an 8-connected path of pixels, one per row, whose total
//! gradient energy is minimal. Removing it narrows the image by one column
//! while keeping the visually busy parts of the picture intact.

pub mod carve;
pub mod draw;
pub mod energy;
pub mod gradient;
pub mod raster;
pub mod seam;

pub use carve::{remove_vertical_seam, shrink_width};
pub use draw::draw_vertical_seams;
pub use energy::{accumulate, PathEnergies};
pub use gradient::sobel_gradient_map;
pub use raster::{EnergyGrid, GrayImage, Grid, Raster, Rgb, RgbImage};
pub use seam::{find_seam_in_energy, find_vertical_seam, SeamError, VerticalSeam};

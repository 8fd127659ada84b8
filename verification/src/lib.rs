//! Verified core of a Mandelbrot / Julia set explorer: the integer, text and
//! configuration logic of the explorer, with the floating-point rendering kept
//! outside the library.

pub mod combinatorics;
pub mod text;
pub mod screen;
pub mod render;
pub mod layers;
pub mod orbit_trap;
pub mod palettes;
pub mod menu;
pub mod video;
pub mod lines;
pub mod saves;
pub mod names;
pub mod sorting;
pub mod numerals;

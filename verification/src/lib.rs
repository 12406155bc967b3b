//! A small prefix-notation scripting language that drives a raster-image
//! compositing pipeline, with every function of the library verified.

pub mod ast;
pub mod eval;
pub mod grid;
pub mod image;
pub mod number;
pub mod pixel;

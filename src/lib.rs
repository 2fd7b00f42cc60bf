//! A software rasterizer: a logical grid of colors that accumulates pixels, lines and
//! triangles, and turns itself into the RGBA byte frame that a presentation surface shows.

pub mod canvas;
pub mod color;


//! The draw buffer and the scan conversion of lines and triangles.

pub mod canvas;
pub mod canvas_error;
pub mod helpers;
pub mod math;
pub mod pixel;
pub mod point;

pub use canvas::Canvas;

use vstd::prelude::*;



verus! {

/// A drawable point `(x, y)` of the screen.
pub type Point = (u32, u32);

} // verus!

//! Colors to draw on the canvas with.

pub mod color;
pub mod color_builder;
pub mod color_error;
pub mod palette;

pub use color::Color;
pub use color_builder::ColorBuilder;
pub use color_error::ColorError;

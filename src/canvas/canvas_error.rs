//! Errors of the canvas API.

use vstd::prelude::*;

verus! {

/// Errors that can occur using a canvas.
#[derive(Clone, Copy, Debug, PartialEq, Eq, Structural)]
pub enum CanvasError {
    /// No GPU adapter was found to run the pixel buffer.
    AdapterNotFound,
    /// The presentation of a frame failed.
    Rendering,
}

impl CanvasError {
    /// Text that tells what went wrong.
    pub fn message(&self) -> (r: &'static str)
        ensures
            *self == CanvasError::AdapterNotFound ==> r@ == "GPU adapter not found"@,
            *self == CanvasError::Rendering ==> r@ == "Rendering has failed"@,
    {
        match self {
            CanvasError::AdapterNotFound => "GPU adapter not found",
            CanvasError::Rendering => "Rendering has failed",
        }
    }
}

} // verus!

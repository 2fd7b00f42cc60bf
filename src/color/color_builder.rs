//! A builder that sets the channels of a color one by one.

use vstd::prelude::*;
use crate::color::Color;

verus! {

/// Builder of a [`Color`], channel by channel. A channel that is not set is 255, so that
/// `ColorBuilder::new().build()` is opaque white.
pub struct ColorBuilder {
    r: u8,
    g: u8,
    b: u8,
    a: u8,
}

/// The value of a channel that was not set.
pub const DEFAULT_VALUE: u8 = 255;

impl View for ColorBuilder {
    type V = Color;

    /// The color that [`ColorBuilder::build`] gives.
    closed spec fn view(&self) -> Color {
        Color { r: self.r, g: self.g, b: self.b, a: self.a }
    }
}

impl ColorBuilder {
    /// A builder with every channel at 255.
    pub fn new() -> (r: ColorBuilder)
        ensures
            r@ == (Color { r: DEFAULT_VALUE, g: DEFAULT_VALUE, b: DEFAULT_VALUE, a: DEFAULT_VALUE }),
    {
        ColorBuilder { r: DEFAULT_VALUE, g: DEFAULT_VALUE, b: DEFAULT_VALUE, a: DEFAULT_VALUE }
    }

    /// Sets the red channel.
    pub fn with_red(self, r: u8) -> (res: ColorBuilder)
        ensures
            res@ == (Color { r, ..self@ }),
    {
        ColorBuilder { r, ..self }
    }

    /// Sets the blue channel.
    pub fn with_blue(self, b: u8) -> (res: ColorBuilder)
        ensures
            res@ == (Color { b, ..self@ }),
    {
        ColorBuilder { b, ..self }
    }

    /// Sets the green channel.
    pub fn with_green(self, g: u8) -> (res: ColorBuilder)
        ensures
            res@ == (Color { g, ..self@ }),
    {
        ColorBuilder { g, ..self }
    }

    /// Sets the alpha channel.
    pub fn with_alpha(self, a: u8) -> (res: ColorBuilder)
        ensures
            res@ == (Color { a, ..self@ }),
    {
        ColorBuilder { a, ..self }
    }

    /// The color with the channels set so far.
    pub fn build(&self) -> (c: Color)
        ensures
            c == self@,
    {
        Color { r: self.r, g: self.g, b: self.b, a: self.a }
    }
}

} // verus!

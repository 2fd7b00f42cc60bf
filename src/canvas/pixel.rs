//! Two-state pixels: background or foreground.

use vstd::prelude::*;

verus! {

/// A pixel that is either blank or drawn.
#[derive(Clone, Copy, Debug, PartialEq, Eq, Structural)]
pub enum Pixel {
    Background,
    Foreground,
}

impl Pixel {
    /// The RGBA bytes of the pixel: transparent black for the background, opaque white for
    /// the foreground.
    pub fn color(&self) -> (r: &'static [u8])
        ensures
            *self == Pixel::Background ==> r@ == seq![0x00u8, 0x00, 0x00, 0x00],
            *self == Pixel::Foreground ==> r@ == seq![0xffu8, 0xff, 0xff, 0xff],
    {
        match self {
            Pixel::Background => &[0x00, 0x00, 0x00, 0x00],
            Pixel::Foreground => &[0xff, 0xff, 0xff, 0xff],
        }
    }
}

} // verus!

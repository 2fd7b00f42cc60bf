//! RGBA colors and their hexadecimal form.

use vstd::prelude::*;
use crate::color::color_error::ColorError;

verus! {

/// An RGBA color to draw with.
///
/// It can be read from its hexadecimal form with [`Color::from_rgba`], put together with a
/// [`ColorBuilder`](crate::color::ColorBuilder), or taken from the
/// [`palette`](crate::color::palette).
#[derive(Clone, Copy, Debug, PartialEq, Eq, Structural)]
pub struct Color {
    pub r: u8,
    pub g: u8,
    pub b: u8,
    pub a: u8,
}

/// The syntax that [`Color::from_rgba`] accepts, as shown in its error.
pub const RGBA_SYNTAX: &'static str = "hhhhhhhh";

/// A hexadecimal digit, in either case.
pub open spec fn is_hex_digit(c: char) -> bool {
    ('0' <= c && c <= '9') || ('a' <= c && c <= 'f') || ('A' <= c && c <= 'F')
}

/// The value of a hexadecimal digit.
pub open spec fn hex_value(c: char) -> int {
    if '0' <= c && c <= '9' {
        c as int - '0' as int
    } else if 'a' <= c && c <= 'f' {
        c as int - 'a' as int + 10
    } else {
        c as int - 'A' as int + 10
    }
}

/// Exactly eight hexadecimal digits: the form `rrggbbaa`.
pub open spec fn is_rgba_hex(s: Seq<char>) -> bool {
    &&& s.len() == 8
    &&& forall|i: int| 0 <= i < 8 ==> #[trigger] is_hex_digit(s[i])
}

/// The value of the `k`-th pair of digits of `s`.
pub open spec fn hex_pair(s: Seq<char>, k: int) -> int {
    hex_value(s[2 * k]) * 16 + hex_value(s[2 * k + 1])
}

/// The four bytes that the digit pairs of `s` stand for, in order.
pub open spec fn bytes_of(s: Seq<char>) -> Seq<u8> {
    Seq::new(4, |k: int| hex_pair(s, k) as u8)
}

/// The color that the form `rrggbbaa` writes.
pub open spec fn color_of_hex(s: Seq<char>) -> Color {
    Color {
        r: hex_pair(s, 0) as u8,
        g: hex_pair(s, 1) as u8,
        b: hex_pair(s, 2) as u8,
        a: hex_pair(s, 3) as u8,
    }
}

/// The value of one digit, or `None` where `c` is no hexadecimal digit.
fn hex_digit(c: char) -> (r: Option<u8>)
    ensures
        r is Some <==> is_hex_digit(c),
        r matches Some(v) ==> v as int == hex_value(c) && v < 16,
{
    if '0' <= c && c <= '9' {
        Some((c as u32 - '0' as u32) as u8)
    } else if 'a' <= c && c <= 'f' {
        Some((c as u32 - 'a' as u32 + 10) as u8)
    } else if 'A' <= c && c <= 'F' {
        Some((c as u32 - 'A' as u32 + 10) as u8)
    } else {
        None
    }
}

impl Color {
    /// The bytes of the color in the order R, G, B, A.
    pub open spec fn to_bytes(&self) -> Seq<u8> {
        seq![self.r, self.g, self.b, self.a]
    }

    /// Reads a color from eight hexadecimal digits `rrggbbaa`, in either case and without
    /// a leading `#`. Any other length, or any other character, is an
    /// [`InvalidSyntax`](ColorError::InvalidSyntax) error.
    pub fn from_rgba(rgba: &str) -> (r: Result<Color, ColorError<'static>>)
        ensures
            r is Ok <==> is_rgba_hex(rgba@),
            r matches Ok(c) ==> c == color_of_hex(rgba@),
            r matches Err(ColorError::InvalidSyntax(syntax)) ==> syntax@ == RGBA_SYNTAX@,
    {
        if rgba.unicode_len() != 8 {
            return Err(ColorError::InvalidSyntax(RGBA_SYNTAX));
        }
        let mut channels: [u8; 4] = [0, 0, 0, 0];
        let mut k: usize = 0;
        while k < 4
            invariant
                rgba@.len() == 8,
                k <= 4,
                forall|i: int| 0 <= i < 2 * k ==> #[trigger] is_hex_digit(rgba@[i]),
                forall|j: int| 0 <= j < k ==> channels@[j] as int == #[trigger] hex_pair(rgba@, j),
            decreases 4 - k,
        {
            let high = hex_digit(rgba.get_char(2 * k));
            let low = hex_digit(rgba.get_char(2 * k + 1));
            match (high, low) {
                (Some(h), Some(l)) => {
                    channels[k] = h * 16 + l;
                },
                _ => {
                    return Err(ColorError::InvalidSyntax(RGBA_SYNTAX));
                },
            }
            k = k + 1;
        }
        Ok(Color { r: channels[0], g: channels[1], b: channels[2], a: channels[3] })
    }

    /// The bytes of the color in the order R, G, B, A, as a presentation frame holds them.
    pub fn as_u8(&self) -> (r: [u8; 4])
        ensures
            r@ == self.to_bytes(),
    {
        [self.r, self.g, self.b, self.a]
    }
}

/// Reading a well-formed string and taking the color's bytes gives back the bytes that the
/// string's digit pairs write.
pub proof fn lemma_hex_round_trip(s: Seq<char>)
    requires
        is_rgba_hex(s),
    ensures
        color_of_hex(s).to_bytes() == bytes_of(s),
{
    assert(color_of_hex(s).to_bytes() =~= bytes_of(s));
}

} // verus!

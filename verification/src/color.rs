//! Colors and their layout in pixel storage.

use vstd::prelude::*;

verus! {

/// Bytes stored per pixel.
pub const BYTES_PER_PIXEL: usize = 4;

/// A color of four 8-bit channels. Two colors are equal exactly when all four
/// channels are equal.
#[derive(Clone, Copy, Debug, PartialEq, Eq, Structural)]
pub struct Color {
    pub red: u8,
    pub green: u8,
    pub blue: u8,
    pub alpha: u8,
}

impl Color {
    /// Full-intensity, fully opaque white: the color of a fresh canvas.
    pub open spec fn white() -> Color {
        Color { red: 255, green: 255, blue: 255, alpha: 255 }
    }

    pub fn new(red: u8, green: u8, blue: u8, alpha: u8) -> (c: Color)
        ensures
            c == (Color { red, green, blue, alpha }),
    {
        Color { red, green, blue, alpha }
    }
}

/// The color held by pixel `i` of a stored byte sequence. Storage keeps the
/// channels of each pixel in the order blue, green, red, alpha.
pub open spec fn pixel_at(bytes: Seq<u8>, i: int) -> Color {
    Color {
        red: bytes[4 * i + 2],
        green: bytes[4 * i + 1],
        blue: bytes[4 * i],
        alpha: bytes[4 * i + 3],
    }
}

/// The pixels of a stored byte sequence, in scan order.
pub open spec fn pixels_of(bytes: Seq<u8>) -> Seq<Color> {
    Seq::new(bytes.len() / 4, |i: int| pixel_at(bytes, i))
}

/// Byte `j` of the presentation form of `bytes`: within each pixel the first
/// and third byte trade places, the second and fourth stay.
pub open spec fn presentation_byte(bytes: Seq<u8>, j: int) -> u8 {
    if j % 4 == 0 {
        bytes[j + 2]
    } else if j % 4 == 2 {
        bytes[j - 2]
    } else {
        bytes[j]
    }
}

/// The presentation form of stored bytes: every pixel in the order red,
/// green, blue, alpha.
pub open spec fn presentation_of(bytes: Seq<u8>) -> Seq<u8> {
    Seq::new(bytes.len(), |j: int| presentation_byte(bytes, j))
}

/// Reads pixel `index` out of stored bytes.
pub(crate) fn read_pixel(bytes: &[u8], index: usize) -> (color: Color)
    requires
        4 * index + 3 < bytes@.len(),
    ensures
        color == pixel_at(bytes@, index as int),
{
    assert(bytes.len() <= usize::MAX);
    let at: usize = index * 4;
    Color { red: bytes[at + 2], green: bytes[at + 1], blue: bytes[at], alpha: bytes[at + 3] }
}

} // verus!

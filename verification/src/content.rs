//! Placeholder content the runner draws until there is real content to draw.

use vstd::prelude::*;

verus! {

/// Edge length of the generated pattern in texels.
pub const SIZE: u32 = 8;

/// Quadrant colours, in the order they appear on screen.
pub const TOP_LEFT: [u8; 4] = [255, 0, 0, 255];
pub const TOP_RIGHT: [u8; 4] = [0, 255, 0, 255];
pub const BOTTOM_LEFT: [u8; 4] = [0, 0, 255, 255];
pub const BOTTOM_RIGHT: [u8; 4] = [128, 64, 32, 255];

/// An image as rows of RGBA bytes, top row first.
#[derive(Debug, Clone, PartialEq, Eq)]
pub struct Image {
    /// Width in texels.
    pub width: u32,
    /// Height in texels.
    pub height: u32,
    /// Four bytes per texel, row by row.
    pub rgba: Vec<u8>,
}

/// The colour of the texel at `(x, y)`: one of four quadrants, red at the top
/// left so a glance says whether the image is the right way up.
pub open spec fn quadrant_colour(x: int, y: int) -> Seq<u8> {
    let half = (SIZE / 2) as int;
    if x < half && y < half {
        TOP_LEFT@
    } else if y < half {
        TOP_RIGHT@
    } else if x < half {
        BOTTOM_LEFT@
    } else {
        BOTTOM_RIGHT@
    }
}

/// The byte at `i` of the pattern.
pub open spec fn demo_byte(i: int) -> u8 {
    let texel = i / 4;
    quadrant_colour(texel % (SIZE as int), texel / (SIZE as int))[i % 4]
}

/// The colour of one texel.
fn colour_at(x: u32, y: u32) -> (colour: [u8; 4])
    ensures
        colour@ == quadrant_colour(x as int, y as int),
{
    let half = SIZE / 2;
    if x < half && y < half {
        TOP_LEFT
    } else if y < half {
        TOP_RIGHT
    } else if x < half {
        BOTTOM_LEFT
    } else {
        BOTTOM_RIGHT
    }
}

/// A small texture of four differently coloured quadrants.
///
/// Asymmetric on purpose, so a glance at the window says whether the image is
/// the right way up.
pub fn demo_texture() -> (image: Image)
    ensures
        image.width == SIZE,
        image.height == SIZE,
        image.rgba@.len() == SIZE * SIZE * 4,
        forall|i: int| 0 <= i < image.rgba@.len() ==> image.rgba@[i] == #[trigger] demo_byte(i),
{
    let mut rgba: Vec<u8> = Vec::new();
    let mut y: u32 = 0;
    while y < SIZE
        invariant
            y <= SIZE,
            rgba@.len() == y * SIZE * 4,
            forall|i: int| 0 <= i < rgba@.len() ==> rgba@[i] == #[trigger] demo_byte(i),
        decreases SIZE - y,
    {
        let mut x: u32 = 0;
        while x < SIZE
            invariant
                y < SIZE,
                x <= SIZE,
                rgba@.len() == (y * SIZE + x) * 4,
                forall|i: int| 0 <= i < rgba@.len() ==> rgba@[i] == #[trigger] demo_byte(i),
            decreases SIZE - x,
        {
            let colour = colour_at(x, y);
            let base = rgba.len();
            let mut c: usize = 0;
            while c < 4
                invariant
                    y < SIZE,
                    x < SIZE,
                    c <= 4,
                    base == (y * SIZE + x) * 4,
                    rgba@.len() == base + c,
                    colour@ == quadrant_colour(x as int, y as int),
                    forall|i: int| 0 <= i < rgba@.len() ==> rgba@[i] == #[trigger] demo_byte(i),
                decreases 4 - c,
            {
                proof {
                    let i = (base + c) as int;
                    assert(i / 4 == y * SIZE + x);
                    assert(i % 4 == c);
                    assert((y * SIZE + x) % (SIZE as int) == x);
                    assert((y * SIZE + x) / (SIZE as int) == y);
                }
                rgba.push(colour[c]);
                c = c + 1;
            }
            x = x + 1;
        }
        y = y + 1;
    }
    Image { width: SIZE, height: SIZE, rgba }
}

} // verus!

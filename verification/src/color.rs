//! Packed RGB colours: channels, the distance between two colours, and the chroma key.

use vstd::prelude::*;

verus! {

/// The colour that marks the transparent pixels of a sprite texture.
pub const CHROMA_KEY: u32 = 0xFF66C4;

/// A sprite pixel is transparent when its distance to the chroma key is
/// below this threshold.
pub const CHROMA_THRESHOLD: u32 = 151;

/// The red channel of a packed RGB colour.
pub open spec fn red(color: u32) -> u32 {
    (color >> 16) & 0xFF
}

/// The green channel of a packed RGB colour.
pub open spec fn green(color: u32) -> u32 {
    (color >> 8) & 0xFF
}

/// The blue channel of a packed RGB colour.
pub open spec fn blue(color: u32) -> u32 {
    color & 0xFF
}

/// The absolute difference of two numbers.
pub open spec fn gap(a: int, b: int) -> int {
    if a >= b {
        a - b
    } else {
        b - a
    }
}

/// The distance between two colours: the sum, over the three channels, of
/// the absolute difference.
pub open spec fn color_gap(color1: u32, color2: u32) -> int {
    gap(red(color1) as int, red(color2) as int) + gap(green(color1) as int, green(color2) as int)
        + gap(blue(color1) as int, blue(color2) as int)
}

/// Whether a sprite pixel of this colour is transparent.
pub open spec fn transparent(color: u32) -> bool {
    color_gap(color, CHROMA_KEY) < CHROMA_THRESHOLD
}

/// The chroma key itself is transparent, and so is every colour at distance
/// zero from it.
pub proof fn lemma_chroma_key_transparent(color: u32)
    requires
        color == CHROMA_KEY || color_gap(color, CHROMA_KEY) == 0,
    ensures
        transparent(color),
{
}

/// The absolute difference of two channels.
fn channel_gap(a: u32, b: u32) -> (d: u32)
    requires
        a <= 255,
        b <= 255,
    ensures
        d == gap(a as int, b as int),
        d <= 255,
{
    if a >= b {
        a - b
    } else {
        b - a
    }
}

/// The distance between two colours: the sum, over the three channels, of
/// the absolute difference. It is at most 765.
pub fn color_distance(color1: u32, color2: u32) -> (d: u32)
    ensures
        d == color_gap(color1, color2),
        d <= 765,
{
    let r1 = (color1 >> 16) & 0xFF;
    let g1 = (color1 >> 8) & 0xFF;
    let b1 = color1 & 0xFF;
    let r2 = (color2 >> 16) & 0xFF;
    let g2 = (color2 >> 8) & 0xFF;
    let b2 = color2 & 0xFF;
    assert((color1 >> 16) & 0xFF <= 255) by (bit_vector);
    assert((color1 >> 8) & 0xFF <= 255) by (bit_vector);
    assert(color1 & 0xFF <= 255) by (bit_vector);
    assert((color2 >> 16) & 0xFF <= 255) by (bit_vector);
    assert((color2 >> 8) & 0xFF <= 255) by (bit_vector);
    assert(color2 & 0xFF <= 255) by (bit_vector);
    channel_gap(r1, r2) + channel_gap(g1, g2) + channel_gap(b1, b2)
}

/// Whether a sprite pixel of this colour is transparent: its distance to
/// the chroma key is below the threshold.
pub fn is_transparent(color: u32) -> (b: bool)
    ensures
        b == transparent(color),
        color == CHROMA_KEY ==> b,
{
    color_distance(color, CHROMA_KEY) < CHROMA_THRESHOLD
}

} // verus!

//! The depth buffer: for each pixel, the distance of the nearest surface drawn so far.

use vstd::prelude::*;
use crate::framebuffer::pixel_index;

verus! {

/// The depth of a pixel on which nothing has been drawn: farther than any surface.
pub const DEPTH_FAR: u64 = u64::MAX;

/// The depth recorded for pixel (`x`, `y`) in a row-major buffer of the given width.
pub open spec fn depth_at(depths: Seq<u64>, width: int, x: int, y: int) -> u64 {
    depths[pixel_index(width, x, y)]
}

/// A depth buffer for a `width` × `height` frame, every entry `DEPTH_FAR`.
pub fn new_depth_buffer(width: usize, height: usize) -> (depths: Vec<u64>)
    requires
        width * height <= usize::MAX,
    ensures
        depths@.len() == width * height,
        forall|i: int| 0 <= i < depths@.len() ==> depths@[i] == DEPTH_FAR,
{
    vec![DEPTH_FAR; width * height]
}

/// Resets every entry of the depth buffer to `DEPTH_FAR`.
pub fn clear_depth_buffer(depths: &mut Vec<u64>)
    ensures
        final(depths)@.len() == old(depths)@.len(),
        forall|i: int| 0 <= i < final(depths)@.len() ==> final(depths)@[i] == DEPTH_FAR,
{
    let n = depths.len();
    let mut i: usize = 0;
    while i < n
        invariant
            0 <= i <= n,
            n == depths@.len(),
            depths@.len() == old(depths)@.len(),
            forall|j: int| 0 <= j < i ==> depths@[j] == DEPTH_FAR,
        decreases n - i,
    {
        depths.set(i, DEPTH_FAR);
        i += 1;
    }
}

} // verus!

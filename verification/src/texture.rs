//! Textures: fixed-size grids of packed RGB texels, and the set bound to the wall symbols.

use vstd::prelude::*;
use crate::framebuffer::{lemma_pixel_index_bounds, pixel_index};

verus! {

/// The colour drawn for a wall symbol that has no texture.
pub const UNTEXTURED: u32 = 0x000000;

/// A `width` × `height` grid of packed RGB texels, stored row by row.
pub struct Texture {
    pub width: u32,
    pub height: u32,
    pub pixels: Vec<u32>,
}

impl Texture {
    /// The texture is not empty, and the texel store holds exactly one entry
    /// per texel.
    pub open spec fn wf(self) -> bool {
        &&& self.width > 0
        &&& self.height > 0
        &&& self.pixels@.len() == self.width * self.height
    }

    /// The colour of texel (`x`, `y`).
    pub open spec fn texel(self, x: int, y: int) -> u32 {
        self.pixels@[pixel_index(self.width as int, x, y)]
    }

    /// Whether the texture is not empty and holds one entry per texel.
    pub fn is_wf(&self) -> (b: bool)
        ensures
            b == self.wf(),
    {
        assert(self.width * self.height <= 0xffff_ffff * 0xffff_ffff) by (nonlinear_arith)
            requires
                0 <= self.width <= 0xffff_ffff,
                0 <= self.height <= 0xffff_ffff,
        ;
        self.width > 0 && self.height > 0 && self.pixels.len() as u64 == self.width as u64
            * self.height as u64
    }

    /// A texture of the given size over `pixels`, unless the size is zero or
    /// the number of pixels is not `width` × `height`.
    pub fn new(width: u32, height: u32, pixels: Vec<u32>) -> (texture: Option<Texture>)
        ensures
            texture is Some <==> width > 0 && height > 0 && pixels@.len() == width * height,
            texture matches Some(t) ==> t.wf() && t.width == width && t.height == height
                && t.pixels@ == pixels@,
    {
        assert(width * height <= 0xffff_ffff * 0xffff_ffff) by (nonlinear_arith)
            requires
                0 <= width <= 0xffff_ffff,
                0 <= height <= 0xffff_ffff,
        ;
        if width > 0 && height > 0 && pixels.len() as u64 == width as u64 * height as u64 {
            Some(Texture { width, height, pixels })
        } else {
            None
        }
    }

    /// The colour of texel (`x`, `y`). The coordinates must lie inside the texture.
    pub fn get_pixel_color(&self, x: u32, y: u32) -> (color: u32)
        requires
            self.wf(),
            x < self.width,
            y < self.height,
        ensures
            color == self.texel(x as int, y as int),
    {
        proof {
            lemma_pixel_index_bounds(self.width as int, self.height as int, x as int, y as int);
            assert(self.width * self.height == self.pixels.len());
        }
        self.pixels[y as usize * self.width as usize + x as usize]
    }
}

/// The textures of the wall symbols: `'+'`, `'-'`, `'|'` and the goal `'g'`.
pub struct WallTextures {
    pub corner: Texture,
    pub horizontal: Texture,
    pub vertical: Texture,
    pub goal: Texture,
}

impl WallTextures {
    /// Each of the four textures is well formed.
    pub open spec fn wf(self) -> bool {
        &&& self.corner.wf()
        &&& self.horizontal.wf()
        &&& self.vertical.wf()
        &&& self.goal.wf()
    }

    /// Whether each of the four textures is well formed.
    pub fn is_wf(&self) -> (b: bool)
        ensures
            b == self.wf(),
    {
        self.corner.is_wf() && self.horizontal.is_wf() && self.vertical.is_wf()
            && self.goal.is_wf()
    }

    /// The texture bound to `cell`, if it has one.
    pub open spec fn bound_to(self, cell: char) -> Option<Texture> {
        if cell == '+' {
            Some(self.corner)
        } else if cell == '-' {
            Some(self.horizontal)
        } else if cell == '|' {
            Some(self.vertical)
        } else if cell == 'g' {
            Some(self.goal)
        } else {
            None
        }
    }

    /// The width of the texture bound to `cell`; 0 if it has none.
    pub open spec fn width_of(self, cell: char) -> int {
        match self.bound_to(cell) {
            Some(t) => t.width as int,
            None => 0,
        }
    }

    /// The height of the texture bound to `cell`; 0 if it has none.
    pub open spec fn height_of(self, cell: char) -> int {
        match self.bound_to(cell) {
            Some(t) => t.height as int,
            None => 0,
        }
    }

    /// The colour that `cell` shows at texture coordinate (`tx`, `ty`).
    pub open spec fn color_of(self, cell: char, tx: int, ty: int) -> u32 {
        match self.bound_to(cell) {
            Some(t) => t.texel(tx, ty),
            None => UNTEXTURED,
        }
    }

    /// The texture bound to `cell`, if it has one.
    pub fn texture_for(&self, cell: char) -> (texture: Option<&Texture>)
        ensures
            texture is Some <==> self.bound_to(cell) is Some,
            texture matches Some(t) ==> Some(*t) == self.bound_to(cell),
    {
        match cell {
            '+' => Some(&self.corner),
            '-' => Some(&self.horizontal),
            '|' => Some(&self.vertical),
            'g' => Some(&self.goal),
            _ => None,
        }
    }

    /// The width of the texture bound to `cell`; 0 if it has none.
    pub fn texture_width(&self, cell: char) -> (width: u32)
        ensures
            width == self.width_of(cell),
    {
        match self.texture_for(cell) {
            Some(t) => t.width,
            None => 0,
        }
    }

    /// The height of the texture bound to `cell`; 0 if it has none.
    pub fn texture_height(&self, cell: char) -> (height: u32)
        ensures
            height == self.height_of(cell),
    {
        match self.texture_for(cell) {
            Some(t) => t.height,
            None => 0,
        }
    }
}

/// The colour that `cell` shows at texture coordinate (`tx`, `ty`): a texel of
/// its texture, or `UNTEXTURED` for a symbol without one. The coordinates
/// must lie inside the texture.
pub fn cell_to_texture_color(textures: &WallTextures, cell: char, tx: u32, ty: u32) -> (color: u32)
    requires
        textures.wf(),
        textures.bound_to(cell) is Some ==> tx < textures.width_of(cell) && ty
            < textures.height_of(cell),
    ensures
        color == textures.color_of(cell, tx as int, ty as int),
{
    match textures.texture_for(cell) {
        Some(t) => t.get_pixel_color(tx, ty),
        None => 0x000000,
    }
}

} // verus!

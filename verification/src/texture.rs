//! The texture store: immutable pixel grids with nearest-neighbour
//! sampling, and the mapping from wall symbols to wall textures.

use vstd::prelude::*;
use crate::fixed::FP_ONE;

verus! {

/// Largest accepted texture side, in pixels.
pub const MAX_TEX_DIM: usize = 4096;

/// An immutable pixel grid. Pixels are stored row-major; a pixel is a
/// packed 0RGB word.
pub struct Texture {
    pub width: usize,
    pub height: usize,
    pub pixels: Vec<u32>,
}

impl Texture {
    /// The texture invariant: bounded non-zero sides, fully populated grid.
    pub open spec fn wf(self) -> bool {
        &&& 1 <= self.width <= MAX_TEX_DIM
        &&& 1 <= self.height <= MAX_TEX_DIM
        &&& self.pixels@.len() == self.width * self.height
    }

    /// Nearest-pixel sample, clamping texel addresses at the edges.
    pub open spec fn spec_pixel(self, x: int, y: int) -> u32 {
        let cx = if x < 0 { 0 } else if x >= self.width { self.width - 1 } else { x };
        let cy = if y < 0 { 0 } else if y >= self.height { self.height - 1 } else { y };
        self.pixels@[cy * self.width + cx]
    }

    /// Builds a texture, refusing a pixel grid that does not fill the
    /// stated dimensions.
    pub fn new(width: usize, height: usize, pixels: Vec<u32>) -> (r: Option<Texture>)
        ensures
            r is Some <==> (1 <= width <= MAX_TEX_DIM && 1 <= height <= MAX_TEX_DIM
                && pixels@.len() == width * height),
            r matches Some(t) ==> t.wf() && t.width == width && t.height == height
                && t.pixels@ == pixels@,
    {
        if 1 <= width && width <= MAX_TEX_DIM && 1 <= height && height <= MAX_TEX_DIM
            && pixels.len() / width == height && pixels.len() % width == 0 {
            proof {
                vstd::arithmetic::div_mod::lemma_fundamental_div_mod(
                    pixels@.len() as int, width as int);
            }
            Some(Texture { width, height, pixels })
        } else {
            proof {
                if 1 <= width && pixels@.len() == width * height {
                    vstd::arithmetic::div_mod::lemma_fundamental_div_mod_converse(
                        pixels@.len() as int, width as int, height as int, 0);
                }
            }
            None
        }
    }

    /// Samples the nearest pixel for a texel address, clamping at edges.
    pub fn get_pixel_color(&self, x: u32, y: u32) -> (r: u32)
        requires
            self.wf(),
        ensures
            r == self.spec_pixel(x as int, y as int),
    {
        let cx: usize = if (x as usize) >= self.width { self.width - 1 } else { x as usize };
        let cy: usize = if (y as usize) >= self.height { self.height - 1 } else { y as usize };
        proof {
            assert(cy * self.width + cx < self.width * self.height
                && cy * self.width + cx < 16777216) by (nonlinear_arith)
                requires cy < self.height, cx < self.width, self.width >= 1,
                    self.height <= 4096, self.width <= 4096;
        }
        self.pixels[cy * self.width + cx]
    }
}

/// The texture registry, constructed once at startup and passed by shared
/// reference into the renderer.
pub struct TextureSet {
    /// Texture of walls hit on a vertical-texture cell, symbol '|'.
    pub wall1: Texture,
    /// Texture of walls hit on a horizontal-texture cell, symbol '-'.
    pub wall2: Texture,
    /// Texture of the goal wall, symbol 'g'.
    pub goal: Texture,
    /// Floor texture, tiled in world space.
    pub floor: Texture,
    /// Sky texture, stretched over the upper half of the frame.
    pub sky: Texture,
    /// Billboard sprite texture for enemies.
    pub enemy: Texture,
}

impl TextureSet {
    /// Every texture of the registry satisfies the texture invariant.
    pub open spec fn wf(self) -> bool {
        &&& self.wall1.wf()
        &&& self.wall2.wf()
        &&& self.goal.wf()
        &&& self.floor.wf()
        &&& self.sky.wf()
        &&& self.enemy.wf()
    }
}

/// The wall texture a symbol selects.
pub open spec fn spec_wall_texture(texs: TextureSet, c: char) -> Texture {
    if c == '|' {
        texs.wall1
    } else if c == '-' {
        texs.wall2
    } else if c == 'g' {
        texs.goal
    } else {
        texs.wall1
    }
}

/// The colour of a wall texel: fractional texture coordinates in
/// [0, FP_ONE) scale to the selected texture's pixel grid.
pub open spec fn spec_cell_color(texs: TextureSet, c: char, tx: int, ty: int) -> u32 {
    let t = spec_wall_texture(texs, c);
    t.spec_pixel(tx * t.width / (FP_ONE as int), ty * t.height / (FP_ONE as int))
}

/// Samples the wall texture selected by a cell symbol at fractional
/// coordinates (tx, ty), each in [0, FP_ONE).
pub fn cell_to_texture_color(texs: &TextureSet, wall_type: char, tx: i64, ty: i64) -> (r: u32)
    requires
        texs.wf(),
        0 <= tx < FP_ONE,
        0 <= ty < FP_ONE,
    ensures
        r == spec_cell_color(*texs, wall_type, tx as int, ty as int),
{
    let t: &Texture = if wall_type == '|' {
        &texs.wall1
    } else if wall_type == '-' {
        &texs.wall2
    } else if wall_type == 'g' {
        &texs.goal
    } else {
        &texs.wall1
    };
    proof {
        assert(tx * t.width < FP_ONE * t.width && 0 <= tx * t.width) by (nonlinear_arith)
            requires 0 <= tx < FP_ONE, 1 <= t.width;
        assert(ty * t.height < FP_ONE * t.height && 0 <= ty * t.height) by (nonlinear_arith)
            requires 0 <= ty < FP_ONE, 1 <= t.height;
        vstd::arithmetic::div_mod::lemma_div_pos_is_pos(tx * t.width, FP_ONE as int);
        vstd::arithmetic::div_mod::lemma_multiply_divide_lt(
            tx * t.width, FP_ONE as int, t.width as int);
        vstd::arithmetic::div_mod::lemma_div_pos_is_pos(ty * t.height, FP_ONE as int);
        vstd::arithmetic::div_mod::lemma_multiply_divide_lt(
            ty * t.height, FP_ONE as int, t.height as int);
    }
    let px = tx * (t.width as i64) / FP_ONE;
    let py = ty * (t.height as i64) / FP_ONE;
    t.get_pixel_color(px as u32, py as u32)
}

} // verus!

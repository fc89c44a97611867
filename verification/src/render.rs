//! The column renderer and background passes.
//!
//! Every pixel of the frame receives exactly one colour per frame: sky
//! above the wall stake, the textured stake itself, and
//! perspective-correct floor below it. All geometry is fixed-point; the
//! few degenerate cases (a stake taller than the screen, a floor row on
//! the horizon) clamp rather than fail.

use vstd::prelude::*;
use crate::fixed::{FP_ONE, spec_frac};
use crate::texture::{Texture, TextureSet, spec_cell_color, cell_to_texture_color};
use crate::maze::{mview, maze_wf, rows, cols};
use crate::player::{Player, player_wf};
use crate::raycast::{CastResult, spec_cast, cast_ray, wall_texture_u};
use crate::sprites::{spec_render_enemies, render_enemies};
use crate::view2d::{spec_minimap_fb, render_minimap};
use crate::{WIDTH, HEIGHT};

verus! {

/// Half the frame height in pixels: the horizon row.
pub const HALF_H: usize = 450;

/// Sky texel for a screen position: the upper half of the frame maps
/// proportionally onto the sky texture.
pub open spec fn spec_sky_pixel(sky: Texture, x: int, y: int) -> u32 {
    sky.spec_pixel(
        x * sky.width / (WIDTH as int),
        y * sky.height / (HALF_H as int),
    )
}

/// Background floor texel for a screen position: the lower half of the
/// frame maps proportionally onto the floor texture.
pub open spec fn spec_floor_bg_pixel(floor: Texture, x: int, y: int) -> u32 {
    floor.spec_pixel(
        x * floor.width / (WIDTH as int),
        (y - HALF_H) * floor.height / (HALF_H as int),
    )
}

/// Fills the upper half of the frame with the sky texture.
pub fn render_sky(framebuffer: &mut Vec<u32>, sky: &Texture)
    requires
        old(framebuffer)@.len() == WIDTH * HEIGHT,
        sky.wf(),
    ensures
        final(framebuffer)@.len() == WIDTH * HEIGHT,
        forall|x: int, y: int| 0 <= x < WIDTH && 0 <= y < HEIGHT ==>
            #[trigger] final(framebuffer)@[y * WIDTH + x] == (if y < HALF_H {
                spec_sky_pixel(*sky, x, y)
            } else {
                old(framebuffer)@[y * WIDTH + x]
            }),
{
    let mut y: usize = 0;
    while y < HALF_H
        invariant
            framebuffer@.len() == WIDTH * HEIGHT,
            0 <= y <= HALF_H,
            sky.wf(),
            forall|xx: int, yy: int| 0 <= xx < WIDTH && 0 <= yy < y ==>
                #[trigger] framebuffer@[yy * WIDTH + xx] == spec_sky_pixel(*sky, xx, yy),
            forall|xx: int, yy: int| 0 <= xx < WIDTH && y <= yy < HEIGHT ==>
                #[trigger] framebuffer@[yy * WIDTH + xx]
                    == old(framebuffer)@[yy * WIDTH + xx],
        decreases HALF_H - y,
    {
        let mut x: usize = 0;
        while x < WIDTH
            invariant
                framebuffer@.len() == WIDTH * HEIGHT,
                0 <= y < HALF_H,
                0 <= x <= WIDTH,
                sky.wf(),
                forall|xx: int, yy: int| 0 <= xx < WIDTH && 0 <= yy < y ==>
                    #[trigger] framebuffer@[yy * WIDTH + xx] == spec_sky_pixel(*sky, xx, yy),
                forall|xx: int| 0 <= xx < x ==>
                    #[trigger] framebuffer@[y as int * WIDTH + xx]
                        == spec_sky_pixel(*sky, xx, y as int),
                forall|xx: int| x <= xx < WIDTH ==>
                    #[trigger] framebuffer@[y as int * WIDTH + xx]
                        == old(framebuffer)@[y as int * WIDTH + xx],
                forall|xx: int, yy: int| 0 <= xx < WIDTH && y < yy < HEIGHT ==>
                    #[trigger] framebuffer@[yy * WIDTH + xx]
                        == old(framebuffer)@[yy * WIDTH + xx],
            decreases WIDTH - x,
        {
            proof {
                assert(x * sky.width <= 1040 * 4096 && y * sky.height <= 450 * 4096)
                    by (nonlinear_arith)
                    requires 0 <= x <= 1040, 0 <= y <= 450, sky.width <= 4096,
                        sky.height <= 4096;
            }
            let tx = x * sky.width / WIDTH;
            let ty = y * sky.height / HALF_H;
            let color = sky.get_pixel_color(tx as u32, ty as u32);
            framebuffer.set(y * WIDTH + x, color);
            x = x + 1;
        }
        y = y + 1;
    }
}

/// Fills the lower half of the frame with the stretched floor texture.
pub fn render_floor(framebuffer: &mut Vec<u32>, floor: &Texture)
    requires
        old(framebuffer)@.len() == WIDTH * HEIGHT,
        floor.wf(),
    ensures
        final(framebuffer)@.len() == WIDTH * HEIGHT,
        forall|x: int, y: int| 0 <= x < WIDTH && 0 <= y < HEIGHT ==>
            #[trigger] final(framebuffer)@[y * WIDTH + x] == (if y >= HALF_H {
                spec_floor_bg_pixel(*floor, x, y)
            } else {
                old(framebuffer)@[y * WIDTH + x]
            }),
{
    let mut y: usize = HALF_H;
    while y < HEIGHT
        invariant
            framebuffer@.len() == WIDTH * HEIGHT,
            HALF_H <= y <= HEIGHT,
            floor.wf(),
            forall|xx: int, yy: int| 0 <= xx < WIDTH && HALF_H <= yy < y ==>
                #[trigger] framebuffer@[yy * WIDTH + xx]
                    == spec_floor_bg_pixel(*floor, xx, yy),
            forall|xx: int, yy: int| 0 <= xx < WIDTH && 0 <= yy < HALF_H ==>
                #[trigger] framebuffer@[yy * WIDTH + xx]
                    == old(framebuffer)@[yy * WIDTH + xx],
            forall|xx: int, yy: int| 0 <= xx < WIDTH && y <= yy < HEIGHT ==>
                #[trigger] framebuffer@[yy * WIDTH + xx]
                    == old(framebuffer)@[yy * WIDTH + xx],
        decreases HEIGHT - y,
    {
        proof {
            assert((y - HALF_H) * floor.height <= 450 * 4096) by (nonlinear_arith)
                requires 0 <= y - HALF_H <= 450, 0 <= floor.height <= 4096;
            vstd::arithmetic::div_mod::lemma_multiply_divide_le(
                (y - HALF_H) * floor.height, HALF_H as int, 4096);
        }
        let ty = (y - HALF_H) * floor.height / HALF_H;
        let mut x: usize = 0;
        while x < WIDTH
            invariant
                framebuffer@.len() == WIDTH * HEIGHT,
                HALF_H <= y < HEIGHT,
                0 <= x <= WIDTH,
                floor.wf(),
                ty == (y - HALF_H) * floor.height / (HALF_H as int),
                0 <= ty <= 4096,
                forall|xx: int, yy: int| 0 <= xx < WIDTH && HALF_H <= yy < y ==>
                    #[trigger] framebuffer@[yy * WIDTH + xx]
                        == spec_floor_bg_pixel(*floor, xx, yy),
                forall|xx: int| 0 <= xx < x ==>
                    #[trigger] framebuffer@[y as int * WIDTH + xx]
                        == spec_floor_bg_pixel(*floor, xx, y as int),
                forall|xx: int| x <= xx < WIDTH ==>
                    #[trigger] framebuffer@[y as int * WIDTH + xx]
                        == old(framebuffer)@[y as int * WIDTH + xx],
                forall|xx: int, yy: int| 0 <= xx < WIDTH && 0 <= yy < HALF_H ==>
                    #[trigger] framebuffer@[yy * WIDTH + xx]
                        == old(framebuffer)@[yy * WIDTH + xx],
                forall|xx: int, yy: int| 0 <= xx < WIDTH && y < yy < HEIGHT ==>
                    #[trigger] framebuffer@[yy * WIDTH + xx]
                        == old(framebuffer)@[yy * WIDTH + xx],
            decreases WIDTH - x,
        {
            proof {
                assert(x * floor.width <= 1040 * 4096) by (nonlinear_arith)
                    requires 0 <= x <= 1040, floor.width <= 4096;
            }
            let tx = x * floor.width / WIDTH;
            let color = floor.get_pixel_color(tx as u32, ty as u32);
            framebuffer.set(y * WIDTH + x, color);
            x = x + 1;
        }
        y = y + 1;
    }
}

/// Height in pixels of the wall stake for a corrected distance: the
/// projection half_screen_height / distance.
pub open spec fn spec_stake_height(dist: int) -> int {
    (HALF_H * FP_ONE) / dist
}

/// First row of the stake, clamped to the top of the frame.
pub open spec fn spec_stake_top(dist: int) -> int {
    let s = spec_stake_height(dist) / 2;
    if s > HALF_H {
        0
    } else {
        HALF_H - s
    }
}

/// One past the last row of the stake, clamped to the bottom row.
pub open spec fn spec_stake_bottom(dist: int) -> int {
    let s = spec_stake_height(dist) / 2;
    if HALF_H + s > HEIGHT - 1 {
        (HEIGHT - 1) as int
    } else {
        HALF_H + s
    }
}

/// Vertical texture coordinate within the stake, in [0, FP_ONE).
pub open spec fn spec_wall_ty(dist: int, y: int) -> int {
    (y - spec_stake_top(dist)) * FP_ONE / (spec_stake_bottom(dist) - spec_stake_top(dist))
}

/// Blend weight between the wall hit point and the camera for one floor
/// row: the world distance the row stands for, divided by the wall
/// distance, clamped on the horizon row and at twice unity.
pub open spec fn spec_floor_weight(dist: int, y: int) -> int {
    let dy = if y > HALF_H {
        y - HALF_H
    } else {
        1int
    };
    let cd = (HALF_H * FP_ONE) / dy;
    let w0 = (cd * FP_ONE) / dist;
    if w0 > 2 * FP_ONE {
        2 * FP_ONE
    } else {
        w0
    }
}

/// Weighted blend of a hit coordinate and the camera coordinate,
/// clamped to stay non-negative.
pub open spec fn spec_lerp_coord(w: int, h: int, p: int) -> int {
    let n = w * h + (FP_ONE - w) * p;
    if n <= 0 {
        0int
    } else {
        n / (FP_ONE as int)
    }
}

/// Floor texel of one screen row of a column: the blended world point,
/// tiled over the floor texture.
pub open spec fn spec_floor_cast_pixel(floor: Texture, dist: int, hx: int, hy: int,
    px: int, py: int, y: int) -> u32 {
    let w = spec_floor_weight(dist, y);
    let fx = spec_lerp_coord(w, hx, px);
    let fy = spec_lerp_coord(w, hy, py);
    floor.spec_pixel(
        (fx * floor.width / (FP_ONE as int)) % (floor.width as int),
        (fy * floor.height / (FP_ONE as int)) % (floor.height as int),
    )
}

/// The colour one row of a rendered column shows: wall stake between its
/// clamped bounds, cast floor below it, and the underlying background
/// above it.
pub open spec fn spec_stake_pixel(texs: TextureSet, wall: char, dist: int, tex_u: int,
    hx: int, hy: int, px: int, py: int, y: int, under: u32) -> u32 {
    if spec_stake_top(dist) <= y < spec_stake_bottom(dist) {
        spec_cell_color(texs, wall, tex_u, spec_wall_ty(dist, y))
    } else if spec_stake_bottom(dist) <= y < HEIGHT {
        spec_floor_cast_pixel(texs.floor, dist, hx, hy, px, py, y)
    } else {
        under
    }
}

/// Renders one screen column: the textured wall stake sized inversely to
/// the corrected distance, and perspective-correct floor below it. Rows
/// above the stake are left untouched; other columns are left untouched.
pub fn render_wall_column(framebuffer: &mut Vec<u32>, texs: &TextureSet, i: usize,
    wall: char, dist: i64, tex_u: i64, hx: i64, hy: i64, px: i64, py: i64)
    requires
        old(framebuffer)@.len() == WIDTH * HEIGHT,
        texs.wf(),
        0 <= i < WIDTH,
        1 <= dist <= 0x4000_0000_0000,
        0 <= tex_u < FP_ONE,
        0 <= hx <= 0x2000_0000,
        0 <= hy <= 0x2000_0000,
        0 <= px <= 0x2000_0000,
        0 <= py <= 0x2000_0000,
    ensures
        final(framebuffer)@.len() == WIDTH * HEIGHT,
        forall|x: int, y: int| 0 <= x < WIDTH && 0 <= y < HEIGHT ==>
            #[trigger] final(framebuffer)@[y * WIDTH + x] == (if x == i {
                spec_stake_pixel(*texs, wall, dist as int, tex_u as int, hx as int,
                    hy as int, px as int, py as int, y, old(framebuffer)@[y * WIDTH + x])
            } else {
                old(framebuffer)@[y * WIDTH + x]
            }),
{
    proof {
        vstd::arithmetic::div_mod::lemma_div_pos_is_pos((HALF_H * FP_ONE) as int,
            dist as int);
    }
    let sh = (HALF_H as i64) * FP_ONE / dist;
    let half = sh / 2;
    proof {
        vstd::arithmetic::div_mod::lemma_div_pos_is_pos(sh as int, 2);
    }
    let top: usize = if half > HALF_H as i64 {
        0
    } else {
        (HALF_H as i64 - half) as usize
    };
    let bottom: usize = if half > (HEIGHT - 1 - HALF_H) as i64 {
        HEIGHT - 1
    } else {
        (HALF_H as i64 + half) as usize
    };
    proof {
        assert(top == spec_stake_top(dist as int));
        assert(bottom == spec_stake_bottom(dist as int));
        assert(top <= HALF_H <= bottom <= HEIGHT - 1);
    }
    let mut y: usize = top;
    while y < bottom
        invariant
            framebuffer@.len() == WIDTH * HEIGHT,
            texs.wf(),
            0 <= i < WIDTH,
            1 <= dist <= 0x4000_0000_0000,
            0 <= tex_u < FP_ONE,
            top == spec_stake_top(dist as int),
            bottom == spec_stake_bottom(dist as int),
            top <= y <= bottom,
            bottom < HEIGHT,
            forall|yy: int| top <= yy < y ==>
                #[trigger] framebuffer@[yy * WIDTH + i] == spec_cell_color(*texs, wall,
                    tex_u as int, spec_wall_ty(dist as int, yy)),
            forall|x: int, yy: int| 0 <= x < WIDTH && 0 <= yy < HEIGHT
                && !(x == i && top <= yy < y) ==>
                #[trigger] framebuffer@[yy * WIDTH + x] == old(framebuffer)@[yy * WIDTH + x],
        decreases bottom - y,
    {
        proof {
            assert((y - top) * FP_ONE < (bottom - top) * FP_ONE) by (nonlinear_arith)
                requires top <= y < bottom, FP_ONE == 65536i64;
            assert(0 <= (y - top) * FP_ONE <= 900 * 65536);
            vstd::arithmetic::div_mod::lemma_div_pos_is_pos((y - top) * FP_ONE,
                (bottom - top) as int);
            vstd::arithmetic::div_mod::lemma_multiply_divide_lt((y - top) * FP_ONE,
                (bottom - top) as int, FP_ONE as int);
        }
        let ty = ((y - top) as i64) * FP_ONE / ((bottom - top) as i64);
        let color = cell_to_texture_color(texs, wall, tex_u, ty);
        framebuffer.set(y * WIDTH + i, color);
        y = y + 1;
    }
    let mut y: usize = bottom;
    while y < HEIGHT
        invariant
            framebuffer@.len() == WIDTH * HEIGHT,
            texs.wf(),
            0 <= i < WIDTH,
            1 <= dist <= 0x4000_0000_0000,
            0 <= hx <= 0x2000_0000,
            0 <= hy <= 0x2000_0000,
            0 <= px <= 0x2000_0000,
            0 <= py <= 0x2000_0000,
            0 <= tex_u < FP_ONE,
            top == spec_stake_top(dist as int),
            bottom == spec_stake_bottom(dist as int),
            top <= HALF_H <= bottom <= y <= HEIGHT,
            forall|yy: int| top <= yy < bottom ==>
                #[trigger] framebuffer@[yy * WIDTH + i] == spec_cell_color(*texs, wall,
                    tex_u as int, spec_wall_ty(dist as int, yy)),
            forall|yy: int| bottom <= yy < y ==>
                #[trigger] framebuffer@[yy * WIDTH + i] == spec_floor_cast_pixel(
                    texs.floor, dist as int, hx as int, hy as int, px as int, py as int,
                    yy),
            forall|x: int, yy: int| 0 <= x < WIDTH && 0 <= yy < HEIGHT
                && !(x == i && top <= yy < y) ==>
                #[trigger] framebuffer@[yy * WIDTH + x] == old(framebuffer)@[yy * WIDTH + x],
        decreases HEIGHT - y,
    {
        let dy: i64 = if y > HALF_H {
            (y - HALF_H) as i64
        } else {
            1
        };
        proof {
            vstd::arithmetic::div_mod::lemma_div_pos_is_pos((HALF_H * FP_ONE) as int,
                dy as int);
            vstd::arithmetic::div_mod::lemma_multiply_divide_le((HALF_H * FP_ONE) as int,
                dy as int, (HALF_H * FP_ONE) as int);
        }
        let cd = (HALF_H as i64) * FP_ONE / dy;
        proof {
            assert(cd * FP_ONE <= 450int * 65536 * 65536) by (nonlinear_arith)
                requires 0 <= cd <= 450 * 65536, FP_ONE == 65536i64;
            vstd::arithmetic::div_mod::lemma_div_pos_is_pos(cd as int * FP_ONE, dist as int);
            vstd::arithmetic::div_mod::lemma_multiply_divide_le(cd as int * FP_ONE,
                dist as int, 450int * 65536 * 65536);
        }
        let w0 = cd * FP_ONE / dist;
        let w: i64 = if w0 > 2 * FP_ONE {
            2 * FP_ONE
        } else {
            w0
        };
        let fx = lerp_coord(w, hx, px);
        let fy = lerp_coord(w, hy, py);
        proof {
            assert(fx * texs.floor.width <= 0x8000_0000i64 * 4096
                && fy * texs.floor.height <= 0x8000_0000i64 * 4096) by (nonlinear_arith)
                requires 0 <= fx <= 0x8000_0000i64, 0 <= fy <= 0x8000_0000i64,
                    0 <= texs.floor.width <= 4096, 0 <= texs.floor.height <= 4096;
            vstd::arithmetic::div_mod::lemma_div_pos_is_pos(fx as int * texs.floor.width,
                FP_ONE as int);
            vstd::arithmetic::div_mod::lemma_div_pos_is_pos(fy as int * texs.floor.height,
                FP_ONE as int);
            vstd::arithmetic::div_mod::lemma_multiply_divide_le(
                fx as int * texs.floor.width, FP_ONE as int, 0x8000_0000int * 4096);
            vstd::arithmetic::div_mod::lemma_multiply_divide_le(
                fy as int * texs.floor.height, FP_ONE as int, 0x8000_0000int * 4096);
            vstd::arithmetic::div_mod::lemma_mod_bound(
                fx as int * texs.floor.width / (FP_ONE as int), texs.floor.width as int);
            vstd::arithmetic::div_mod::lemma_mod_bound(
                fy as int * texs.floor.height / (FP_ONE as int), texs.floor.height as int);
        }
        let u = (fx * texs.floor.width as i64 / FP_ONE) % texs.floor.width as i64;
        let v = (fy * texs.floor.height as i64 / FP_ONE) % texs.floor.height as i64;
        let color = texs.floor.get_pixel_color(u as u32, v as u32);
        framebuffer.set(y * WIDTH + i, color);
        y = y + 1;
    }
}

/// The ray angle of one screen column: the field of view swept linearly
/// around the heading.
pub open spec fn spec_column_angle(p: Player, i: int) -> int {
    p.a - p.fov / 2 + (p.fov * i) / (WIDTH as int)
}

/// The cast for one screen column.
pub open spec fn spec_column_cast(m: Seq<Seq<char>>, p: Player, i: int) -> CastResult {
    spec_cast(m, p.pos_x as int, p.pos_y as int, spec_column_angle(p, i), p.a as int)
}

/// A coordinate clamped into [0, hi].
pub open spec fn spec_clamp(v: int, hi: int) -> int {
    if v < 0 {
        0int
    } else if v > hi {
        hi
    } else {
        v
    }
}

/// The texture-u coordinate of a column's hit.
pub open spec fn spec_column_tex_u(c: CastResult) -> int {
    if c.vertical {
        spec_frac(c.hit_y)
    } else {
        spec_frac(c.hit_x)
    }
}

/// One pixel of the frame after the wall pass: the column's stake and
/// cast floor over the sky background.
pub open spec fn spec_frame_wall_pixel(m: Seq<Seq<char>>, p: Player, texs: TextureSet,
    x: int, y: int) -> u32 {
    let c = spec_column_cast(m, p, x);
    spec_stake_pixel(
        texs,
        c.wall,
        c.distance,
        spec_column_tex_u(c),
        spec_clamp(c.hit_x, cols(m) * FP_ONE),
        spec_clamp(c.hit_y, rows(m) * FP_ONE),
        p.pos_x as int,
        p.pos_y as int,
        y,
        spec_sky_pixel(texs.sky, x, y),
    )
}

/// The whole frame after the wall pass. It depends on the maze, the
/// camera and the textures alone: two identical frames are identical.
pub open spec fn spec_walls_fb(m: Seq<Seq<char>>, p: Player, texs: TextureSet)
    -> Seq<u32> {
    Seq::new((WIDTH * HEIGHT) as nat, |j: int| spec_frame_wall_pixel(m, p, texs,
        j % (WIDTH as int), j / (WIDTH as int)))
}

/// The depth buffer after the wall pass: each column holds exactly the
/// corrected distance its ray returned.
pub open spec fn spec_wall_z(m: Seq<Seq<char>>, p: Player) -> Seq<i64> {
    Seq::new(WIDTH as nat, |i: int| spec_column_cast(m, p, i).distance as i64)
}

/// After the wall pass, the depth buffer holds for every column exactly
/// the corrected distance that column's ray returned.
pub proof fn lemma_depth_equals_column_distance(m: Seq<Seq<char>>, p: Player, i: int)
    requires
        0 <= i < WIDTH,
    ensures
        spec_wall_z(m, p)[i] == spec_column_cast(m, p, i).distance as i64,
{
}

/// The whole 3D frame: walls and floor, then sprites against the depth
/// buffer, then the minimap overlay.
pub open spec fn spec_render3d(m: Seq<Seq<char>>, p: Player, texs: TextureSet)
    -> (Seq<u32>, Seq<i64>) {
    let e = spec_render_enemies(spec_walls_fb(m, p, texs), spec_wall_z(m, p), p,
        texs.enemy);
    (spec_minimap_fb(m, p, e.0), e.1)
}

/// Renders a full 3D frame: sky and floor backgrounds, one ray cast and
/// wall column per screen column with the depth buffer recording each
/// column's corrected distance, then the sprites and the minimap.
pub fn render3d(framebuffer: &mut Vec<u32>, maze: &Vec<Vec<char>>, player: &Player,
    block_size: usize, z_buffer: &mut Vec<i64>, texs: &TextureSet)
    requires
        old(framebuffer)@.len() == WIDTH * HEIGHT,
        old(z_buffer)@.len() == WIDTH,
        maze_wf(mview(maze@)),
        player_wf(*player, mview(maze@)),
        texs.wf(),
    ensures
        final(framebuffer)@ == spec_render3d(mview(maze@), *player, *texs).0,
        final(z_buffer)@ == spec_render3d(mview(maze@), *player, *texs).1,
{
    let ghost m = mview(maze@);
    render_sky(framebuffer, &texs.sky);
    render_floor(framebuffer, &texs.floor);
    let ghost fb_bg = framebuffer@;
    let rows_n = maze.len() as i64;
    let cols_n = maze[0].len() as i64;
    proof {
        assert(mview(maze@)[0] == maze@[0]@);
    }
    let rows_fp = rows_n * FP_ONE;
    let cols_fp = cols_n * FP_ONE;
    let mut i: usize = 0;
    while i < WIDTH
        invariant
            framebuffer@.len() == WIDTH * HEIGHT,
            z_buffer@.len() == WIDTH,
            maze_wf(m),
            m == mview(maze@),
            rows_n == rows(m) && cols_n == cols(m),
            rows_fp == rows_n * FP_ONE && cols_fp == cols_n * FP_ONE,
            player_wf(*player, m),
            texs.wf(),
            0 <= i <= WIDTH,
            fb_bg.len() == WIDTH * HEIGHT,
            forall|x: int, y: int| 0 <= x < WIDTH && 0 <= y < HEIGHT ==>
                #[trigger] fb_bg[y * WIDTH + x] == (if y < HALF_H {
                    spec_sky_pixel(texs.sky, x, y)
                } else {
                    spec_floor_bg_pixel(texs.floor, x, y)
                }),
            forall|x: int, y: int| 0 <= x < WIDTH && 0 <= y < HEIGHT ==>
                #[trigger] framebuffer@[y * WIDTH + x] == (if x < i {
                    spec_frame_wall_pixel(m, *player, *texs, x, y)
                } else {
                    fb_bg[y * WIDTH + x]
                }),
            forall|c: int| 0 <= c < i ==>
                #[trigger] z_buffer@[c] == spec_column_cast(m, *player, c).distance as i64,
        decreases WIDTH - i,
    {
        proof {
            vstd::arithmetic::div_mod::lemma_div_pos_is_pos(player.fov as int, 2);
            assert(0 <= player.fov * i <= 24576 * 1040) by (nonlinear_arith)
                requires 0 <= player.fov <= 24576, 0 <= i <= 1040;
            vstd::arithmetic::div_mod::lemma_div_pos_is_pos(player.fov as int * i,
                WIDTH as int);
            vstd::arithmetic::div_mod::lemma_multiply_divide_le(player.fov as int * i,
                WIDTH as int, 24576);
            assert(player.fov as int * i <= WIDTH as int * 24576) by (nonlinear_arith)
                requires 0 <= player.fov <= 24576, 0 <= i <= 1040, WIDTH == 1040usize;
        }
        let a = player.a - player.fov / 2 + player.fov * (i as i64) / (WIDTH as i64);
        let hit = cast_ray(maze, player, a);
        let tex_u = wall_texture_u(&hit);
        let hx = if hit.hit_x < 0 {
            0
        } else if hit.hit_x > cols_fp {
            cols_fp
        } else {
            hit.hit_x
        };
        let hy = if hit.hit_y < 0 {
            0
        } else if hit.hit_y > rows_fp {
            rows_fp
        } else {
            hit.hit_y
        };
        render_wall_column(framebuffer, texs, i, hit.wall_type, hit.distance, tex_u, hx,
            hy, player.pos_x, player.pos_y);
        z_buffer.set(i, hit.distance);
        i = i + 1;
    }
    proof {
        assert forall|j: int| 0 <= j < framebuffer@.len()
            implies framebuffer@[j] == spec_walls_fb(m, *player, *texs)[j] by {
            let xj = j % (WIDTH as int);
            let yj = j / (WIDTH as int);
            vstd::arithmetic::div_mod::lemma_fundamental_div_mod(j, WIDTH as int);
            vstd::arithmetic::div_mod::lemma_mod_bound(j, WIDTH as int);
            vstd::arithmetic::div_mod::lemma_div_pos_is_pos(j, WIDTH as int);
            vstd::arithmetic::div_mod::lemma_multiply_divide_lt(j, WIDTH as int,
                HEIGHT as int);
            assert(j == yj * WIDTH + xj);
            assert(framebuffer@[yj * WIDTH + xj] == spec_frame_wall_pixel(m, *player,
                *texs, xj, yj));
        }
        assert(framebuffer@ =~= spec_walls_fb(m, *player, *texs));
        assert(z_buffer@ =~= spec_wall_z(m, *player));
        assert(0 <= player.pos_x <= 0x1000_0000 && 0 <= player.pos_y <= 0x1000_0000);
    }
    render_enemies(framebuffer, player, &texs.enemy, z_buffer);
    render_minimap(framebuffer, maze, player, block_size);
}

/// The clamped blend of a hit coordinate and the camera coordinate.
fn lerp_coord(w: i64, h: i64, p: i64) -> (r: i64)
    requires
        0 <= w <= 2 * FP_ONE,
        0 <= h <= 0x2000_0000,
        0 <= p <= 0x2000_0000,
    ensures
        r == spec_lerp_coord(w as int, h as int, p as int),
        0 <= r <= 0x8000_0000,
{
    proof {
        assert(0 <= w * h <= 0x4000_0000_0000i64
            && -0x2000_0000_0000i64 <= (FP_ONE - w) * p <= 0x2000_0000_0000i64)
            by (nonlinear_arith)
            requires 0 <= w <= 2 * FP_ONE, 0 <= h <= 0x2000_0000, 0 <= p <= 0x2000_0000,
                FP_ONE == 65536i64;
    }
    let n = w * h + (FP_ONE - w) * p;
    if n <= 0 {
        0
    } else {
        proof {
            vstd::arithmetic::div_mod::lemma_div_pos_is_pos(n as int, FP_ONE as int);
            vstd::arithmetic::div_mod::lemma_multiply_divide_le(n as int, FP_ONE as int,
                0x8000_0000int);
        }
        n / FP_ONE
    }
}

} // verus!

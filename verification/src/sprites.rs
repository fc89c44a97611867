//! The depth-buffered billboard sprite compositor.
//!
//! A sprite is projected from its world position to a screen-centred
//! square sized inversely to its distance. Every pixel of the footprint
//! is occlusion-tested against the depth buffer at that pixel's column;
//! the designated white texel is colour-keyed transparent. After a drawn
//! sprite, only its centre column's depth is updated: a deliberate
//! approximation that trades a little edge accuracy between overlapping
//! sprites for a single depth write.

use vstd::prelude::*;
use crate::fixed::{FP_ONE, spec_isqrt, isqrt};
use crate::trig::{FULL_TURN, HALF_TURN, QUARTER_TURN, spec_norm, spec_atan2, atan2_fp,
    normalize_angle};
use crate::texture::Texture;
use crate::player::Player;
use crate::{WIDTH, HEIGHT};

verus! {

/// The colour-keyed transparent texel: pure white is never drawn.
pub const TRANSPARENT_KEY: u32 = 0xFFFFFF;

/// The projection of one sprite onto the screen.
pub ghost struct SpriteProj {
    /// Euclidean distance from the camera, fixed-point.
    pub d: int,
    /// Angle between the sprite and the camera heading, in (-HALF, HALF].
    pub ang: int,
    /// Screen column of the sprite centre.
    pub sxc: int,
    /// Side length of the square footprint, in pixels.
    pub size: int,
    /// Leftmost column of the footprint.
    pub x0: int,
    /// Topmost row of the footprint.
    pub y0: int,
    /// False when the sprite is outside the field of view or too near.
    pub in_view: bool,
}

/// Projects a sprite at world position (ex, ey) against the camera.
pub open spec fn spec_sprite_proj(player: Player, ex: int, ey: int) -> SpriteProj {
    let dx = ex - player.pos_x;
    let dy = ey - player.pos_y;
    let d = spec_isqrt(dx * dx + dy * dy);
    let n = spec_norm(spec_atan2(dy, dx) - player.a);
    let ang = if n > HALF_TURN {
        n - FULL_TURN
    } else {
        n
    };
    let aa = if ang >= 0 {
        ang
    } else {
        -ang
    };
    let in_view = aa <= player.fov / 2 && d >= FP_ONE / 2;
    let sxc = if ang >= 0 {
        (WIDTH as int) / 2 + ((WIDTH as int) * ang) / (2 * player.fov)
    } else {
        (WIDTH as int) / 2 - ((WIDTH as int) * (-ang)) / (2 * player.fov)
    };
    let size = if d == 0 {
        0int
    } else {
        (360 * FP_ONE) / d
    };
    SpriteProj {
        d,
        ang,
        sxc,
        size,
        x0: sxc - size / 2,
        y0: HEIGHT / 2 - size / 2,
        in_view,
    }
}

/// Whether a projected sprite is drawn at all: it must be in view, its
/// footprint fully on screen, and its centre column unoccluded.
pub open spec fn spec_sprite_drawn(pr: SpriteProj, z: Seq<i64>) -> bool {
    pr.in_view && pr.x0 >= 0 && pr.x0 + pr.size < WIDTH && pr.d < z[pr.sxc]
}

/// The texel of a sprite texture for a footprint pixel.
pub open spec fn spec_sprite_texel(tex: Texture, pr: SpriteProj, x: int, y: int) -> u32 {
    tex.spec_pixel(
        (x - pr.x0) * tex.width / pr.size,
        (y - pr.y0) * tex.height / pr.size,
    )
}

/// One sprite applied to the frame: footprint pixels that pass the
/// per-column depth test and are not colour-keyed take the texel colour,
/// and the centre column's depth is updated.
pub open spec fn spec_sprite_step(fb: Seq<u32>, z: Seq<i64>, player: Player, ex: int,
    ey: int, tex: Texture) -> (Seq<u32>, Seq<i64>) {
    let pr = spec_sprite_proj(player, ex, ey);
    if spec_sprite_drawn(pr, z) {
        (
            Seq::new(fb.len(), |j: int| {
                let x = j % (WIDTH as int);
                let y = j / (WIDTH as int);
                if pr.x0 <= x < pr.x0 + pr.size && pr.y0 <= y < pr.y0 + pr.size
                    && pr.d < z[x] && spec_sprite_texel(tex, pr, x, y) != TRANSPARENT_KEY {
                    spec_sprite_texel(tex, pr, x, y)
                } else {
                    fb[j]
                }
            }),
            z.update(pr.sxc, pr.d as i64),
        )
    } else {
        (fb, z)
    }
}

/// World x coordinates of the four resident enemies, fixed-point.
pub open spec fn spec_enemy_xs() -> Seq<int> {
    seq![131072int, 720896int, 327680int, 524288int]
}

/// World y coordinates of the four resident enemies, fixed-point.
pub open spec fn spec_enemy_ys() -> Seq<int> {
    seq![327680int, 229376int, 327680int, 458752int]
}

/// The frame and depth buffer after all four resident enemies are
/// composited in order.
pub open spec fn spec_render_enemies(fb: Seq<u32>, z: Seq<i64>, player: Player,
    tex: Texture) -> (Seq<u32>, Seq<i64>) {
    let s1 = spec_sprite_step(fb, z, player, spec_enemy_xs()[0], spec_enemy_ys()[0], tex);
    let s2 = spec_sprite_step(s1.0, s1.1, player, spec_enemy_xs()[1], spec_enemy_ys()[1],
        tex);
    let s3 = spec_sprite_step(s2.0, s2.1, player, spec_enemy_xs()[2], spec_enemy_ys()[2],
        tex);
    spec_sprite_step(s3.0, s3.1, player, spec_enemy_xs()[3], spec_enemy_ys()[3], tex)
}

/// Composites the resident enemies against the walls, in order.
pub fn render_enemies(framebuffer: &mut Vec<u32>, player: &Player, tex: &Texture,
    z_buffer: &mut Vec<i64>)
    requires
        old(framebuffer)@.len() == WIDTH * HEIGHT,
        old(z_buffer)@.len() == WIDTH,
        tex.wf(),
        0 <= player.pos_x <= 0x1000_0000,
        0 <= player.pos_y <= 0x1000_0000,
        0 <= player.a < FULL_TURN,
        0 < player.fov <= QUARTER_TURN,
    ensures
        final(framebuffer)@ == spec_render_enemies(old(framebuffer)@, old(z_buffer)@,
            *player, *tex).0,
        final(z_buffer)@ == spec_render_enemies(old(framebuffer)@, old(z_buffer)@,
            *player, *tex).1,
{
    render_enemy(framebuffer, player, 131072, 327680, tex, z_buffer);
    render_enemy(framebuffer, player, 720896, 229376, tex, z_buffer);
    render_enemy(framebuffer, player, 327680, 327680, tex, z_buffer);
    render_enemy(framebuffer, player, 524288, 458752, tex, z_buffer);
}

/// Renders one billboard sprite against the depth buffer.
pub fn render_enemy(framebuffer: &mut Vec<u32>, player: &Player, ex: i64, ey: i64,
    tex: &Texture, z_buffer: &mut Vec<i64>)
    requires
        old(framebuffer)@.len() == WIDTH * HEIGHT,
        old(z_buffer)@.len() == WIDTH,
        tex.wf(),
        0 <= player.pos_x <= 0x1000_0000,
        0 <= player.pos_y <= 0x1000_0000,
        0 <= player.a < FULL_TURN,
        0 < player.fov <= QUARTER_TURN,
        -0x1000_0000 <= ex <= 0x1000_0000,
        -0x1000_0000 <= ey <= 0x1000_0000,
    ensures
        final(framebuffer)@ == spec_sprite_step(old(framebuffer)@, old(z_buffer)@,
            *player, ex as int, ey as int, *tex).0,
        final(z_buffer)@ == spec_sprite_step(old(framebuffer)@, old(z_buffer)@, *player,
            ex as int, ey as int, *tex).1,
        forall|x: int, y: int| 0 <= x < WIDTH && 0 <= y < HEIGHT
            && #[trigger] final(framebuffer)@[y * WIDTH + x]
                != old(framebuffer)@[y * WIDTH + x] ==>
            spec_sprite_proj(*player, ex as int, ey as int).d < old(z_buffer)@[x],
{
    let ghost pr = spec_sprite_proj(*player, ex as int, ey as int);
    let dx = ex - player.pos_x;
    let dy = ey - player.pos_y;
    proof {
        assert(0 <= dx * dx <= 0x1000_0000_0000_0000i64 && 0 <= dy * dy
            <= 0x1000_0000_0000_0000i64) by (nonlinear_arith)
            requires -0x2000_0000 <= dx <= 0x2000_0000, -0x2000_0000 <= dy <= 0x2000_0000;
    }
    let d = isqrt(dx * dx + dy * dy);
    let ra = atan2_fp(dy, dx) - player.a;
    let n = normalize_angle(ra);
    let ang = if n > HALF_TURN {
        n - FULL_TURN
    } else {
        n
    };
    let aa = if ang >= 0 {
        ang
    } else {
        -ang
    };
    if aa > player.fov / 2 || d < FP_ONE / 2 {
        return;
    }
    proof {
        vstd::arithmetic::div_mod::lemma_div_pos_is_pos(player.fov as int, 2);
        if ang >= 0 {
            assert(0 <= (WIDTH as int) * ang <= 1040 * 12288) by (nonlinear_arith)
                requires 0 <= ang <= 12288;
            assert((WIDTH as int) * ang <= (2 * player.fov) * 260) by (nonlinear_arith)
                requires 0 <= ang, 2 * ang <= player.fov + 1, ang <= player.fov / 2,
                    player.fov >= 1, WIDTH == 1040usize,
                    player.fov / 2 * 2 <= player.fov, ang * 4 <= player.fov * 2;
            vstd::arithmetic::div_mod::lemma_div_pos_is_pos((WIDTH as int) * ang,
                2 * player.fov);
            vstd::arithmetic::div_mod::lemma_multiply_divide_le((WIDTH as int) * ang,
                2 * player.fov, 260);
        } else {
            assert(0 <= (WIDTH as int) * (-ang) <= 1040 * 12288) by (nonlinear_arith)
                requires 0 <= -ang <= 12288;
            assert((WIDTH as int) * (-ang) <= (2 * player.fov) * 260) by (nonlinear_arith)
                requires 0 <= -ang, -ang <= player.fov / 2, player.fov >= 1,
                    WIDTH == 1040usize, player.fov / 2 * 2 <= player.fov,
                    (-ang) * 4 <= player.fov * 2;
            vstd::arithmetic::div_mod::lemma_div_pos_is_pos((WIDTH as int) * (-ang),
                2 * player.fov);
            vstd::arithmetic::div_mod::lemma_multiply_divide_le((WIDTH as int) * (-ang),
                2 * player.fov, 260);
        }
    }
    let sxc: i64 = if ang >= 0 {
        (WIDTH as i64) / 2 + (WIDTH as i64) * ang / (2 * player.fov)
    } else {
        (WIDTH as i64) / 2 - (WIDTH as i64) * (-ang) / (2 * player.fov)
    };
    proof {
        vstd::arithmetic::div_mod::lemma_div_pos_is_pos((360 * FP_ONE) as int, d as int);
        vstd::arithmetic::div_mod::lemma_multiply_divide_le((360 * FP_ONE) as int,
            d as int, 720);
        assert((360 * FP_ONE) as int <= d as int * 720) by (nonlinear_arith)
            requires d >= 32768, FP_ONE == 65536i64;
    }
    let size = 360 * FP_ONE / d;
    let x0 = sxc - size / 2;
    let y0 = (HEIGHT / 2) as i64 - size / 2;
    proof {
        vstd::arithmetic::div_mod::lemma_div_pos_is_pos(size as int, 2);
        assert(size / 2 * 2 <= size);
        assert(pr.sxc == sxc && pr.size == size && pr.x0 == x0 && pr.y0 == y0
            && pr.d == d && pr.in_view);
    }
    if !(x0 >= 0 && x0 + size < WIDTH as i64) {
        return;
    }
    if !(d < z_buffer[sxc as usize]) {
        return;
    }
    let x1 = x0 + size;
    let y1 = y0 + size;
    let ghost fb0 = framebuffer@;
    let mut x: i64 = x0;
    while x < x1
        invariant
            framebuffer@.len() == WIDTH * HEIGHT,
            z_buffer@.len() == WIDTH,
            tex.wf(),
            x0 <= x <= x1,
            x1 == x0 + size,
            y1 == y0 + size,
            0 <= x0,
            x1 < WIDTH,
            0 <= size <= 720,
            90 <= y0,
            y1 <= 810,
            pr.size == size && pr.x0 == x0 && pr.y0 == y0 && pr.d == d,
            0 <= d < z_buffer@[pr.sxc],
            0 <= pr.sxc < WIDTH,
            z_buffer@ == old(z_buffer)@,
            fb0 == old(framebuffer)@,
            forall|xx: int, yy: int| 0 <= xx < WIDTH && 0 <= yy < HEIGHT ==>
                #[trigger] framebuffer@[yy * WIDTH + xx] == (if x0 <= xx < x
                    && y0 <= yy < y1 && d < z_buffer@[xx]
                    && spec_sprite_texel(*tex, pr, xx, yy) != TRANSPARENT_KEY {
                    spec_sprite_texel(*tex, pr, xx, yy)
                } else {
                    fb0[yy * WIDTH + xx]
                }),
        decreases x1 - x,
    {
        let column_near = d < z_buffer[x as usize];
        let mut y: i64 = y0;
        while y < y1
            invariant
                framebuffer@.len() == WIDTH * HEIGHT,
                z_buffer@.len() == WIDTH,
                tex.wf(),
                x0 <= x < x1,
                y0 <= y <= y1,
                x1 == x0 + size,
                y1 == y0 + size,
                0 <= x0,
                x1 < WIDTH,
                0 <= size <= 720,
                90 <= y0,
                y1 <= 810,
                pr.size == size && pr.x0 == x0 && pr.y0 == y0 && pr.d == d,
                0 <= d,
                column_near == (d < z_buffer@[x as int]),
                z_buffer@ == old(z_buffer)@,
                forall|xx: int, yy: int| 0 <= xx < WIDTH && 0 <= yy < HEIGHT ==>
                    #[trigger] framebuffer@[yy * WIDTH + xx] == (if ((x0 <= xx < x
                        && y0 <= yy < y1) || (xx == x && y0 <= yy < y))
                        && d < z_buffer@[xx]
                        && spec_sprite_texel(*tex, pr, xx, yy) != TRANSPARENT_KEY {
                        spec_sprite_texel(*tex, pr, xx, yy)
                    } else {
                        fb0[yy * WIDTH + xx]
                    }),
            decreases y1 - y,
        {
            proof {
                assert(0 <= (x - x0) * tex.width && (x - x0) * tex.width < size * 4097)
                    by (nonlinear_arith)
                    requires 0 <= x - x0 < size, 0 <= tex.width <= 4096, size >= 1;
                assert(0 <= (y - y0) * tex.height && (y - y0) * tex.height < size * 4097)
                    by (nonlinear_arith)
                    requires 0 <= y - y0 < size, 0 <= tex.height <= 4096, size >= 1;
                vstd::arithmetic::div_mod::lemma_div_pos_is_pos((x - x0) * tex.width,
                    size as int);
                vstd::arithmetic::div_mod::lemma_multiply_divide_lt((x - x0) * tex.width,
                    size as int, 4097);
                vstd::arithmetic::div_mod::lemma_div_pos_is_pos((y - y0) * tex.height,
                    size as int);
                vstd::arithmetic::div_mod::lemma_multiply_divide_lt((y - y0) * tex.height,
                    size as int, 4097);
            }
            let tx = (x - x0) * (tex.width as i64) / size;
            let ty = (y - y0) * (tex.height as i64) / size;
            let color = tex.get_pixel_color(tx as u32, ty as u32);
            if column_near && color != TRANSPARENT_KEY {
                framebuffer.set((y as usize) * WIDTH + (x as usize), color);
            }
            y = y + 1;
        }
        x = x + 1;
    }
    let ghost zpre = z_buffer@;
    z_buffer.set(sxc as usize, d);
    proof {
        let step = spec_sprite_step(old(framebuffer)@, old(z_buffer)@, *player, ex as int,
            ey as int, *tex);
        assert(spec_sprite_drawn(pr, old(z_buffer)@));
        assert forall|j: int| 0 <= j < framebuffer@.len()
            implies framebuffer@[j] == step.0[j] by {
            let xj = j % (WIDTH as int);
            let yj = j / (WIDTH as int);
            vstd::arithmetic::div_mod::lemma_fundamental_div_mod(j, WIDTH as int);
            vstd::arithmetic::div_mod::lemma_mod_bound(j, WIDTH as int);
            vstd::arithmetic::div_mod::lemma_div_pos_is_pos(j, WIDTH as int);
            vstd::arithmetic::div_mod::lemma_multiply_divide_lt(j, WIDTH as int,
                HEIGHT as int);
            assert(j == yj * WIDTH + xj);
            assert(framebuffer@[yj * WIDTH + xj] == (if x0 <= xj < x1 && y0 <= yj < y1
                && d < zpre[xj] && spec_sprite_texel(*tex, pr, xj, yj) != TRANSPARENT_KEY {
                spec_sprite_texel(*tex, pr, xj, yj)
            } else {
                fb0[yj * WIDTH + xj]
            }));
        }
        assert(framebuffer@ =~= step.0);
        assert(z_buffer@ =~= step.1);
    }
}

} // verus!

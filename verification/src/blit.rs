//! Scaled image blits: fitting a full-screen image into the frame while
//! keeping its aspect ratio, as the title and victory screens do.

use vstd::prelude::*;
use crate::fixed::FP_ONE;
use crate::texture::Texture;
use crate::{WIDTH, HEIGHT};

verus! {

/// The fixed-point scale that fits a texture inside the frame keeping
/// its aspect ratio: the smaller of the two axis ratios.
pub open spec fn spec_fit_scale(tw: int, th: int) -> int {
    let sx = (WIDTH * FP_ONE) as int / tw;
    let sy = (HEIGHT * FP_ONE) as int / th;
    if sx < sy {
        sx
    } else {
        sy
    }
}

/// The size of a texture scaled by the fitting scale.
pub open spec fn spec_fit_size(tw: int, th: int) -> (int, int) {
    (tw * spec_fit_scale(tw, th) / (FP_ONE as int), th * spec_fit_scale(tw, th) / (
    FP_ONE as int))
}

/// Computes the on-screen size of a texture scaled uniformly to fit the
/// frame.
pub fn scaled_fit(tw: usize, th: usize) -> (r: (usize, usize))
    requires
        1 <= tw <= 4096,
        1 <= th <= 4096,
    ensures
        r.0 == spec_fit_size(tw as int, th as int).0,
        r.1 == spec_fit_size(tw as int, th as int).1,
        r.0 <= WIDTH,
        r.1 <= HEIGHT,
{
    let fx = WIDTH * (FP_ONE as usize);
    let fy = HEIGHT * (FP_ONE as usize);
    let sx = fx / tw;
    let sy = fy / th;
    let scale = if sx < sy {
        sx
    } else {
        sy
    };
    proof {
        vstd::arithmetic::div_mod::lemma_fundamental_div_mod(fx as int, tw as int);
        vstd::arithmetic::div_mod::lemma_mod_bound(fx as int, tw as int);
        vstd::arithmetic::div_mod::lemma_fundamental_div_mod(fy as int, th as int);
        vstd::arithmetic::div_mod::lemma_mod_bound(fy as int, th as int);
        vstd::arithmetic::div_mod::lemma_div_pos_is_pos(fx as int, tw as int);
        vstd::arithmetic::div_mod::lemma_div_pos_is_pos(fy as int, th as int);
        assert(tw * scale <= fx && th * scale <= fy) by (nonlinear_arith)
            requires scale <= fx as int / (tw as int), scale <= fy as int / (th as int), scale >= 0,
                tw >= 1, th >= 1,
                fx == tw * (fx as int / (tw as int)) + fx as int % (tw as int), 0 <= fx as int % (tw as int),
                fy == th * (fy as int / (th as int)) + fy as int % (th as int), 0 <= fy as int % (th as int);
        vstd::arithmetic::div_mod::lemma_div_pos_is_pos(tw as int * scale, FP_ONE as int);
        vstd::arithmetic::div_mod::lemma_div_pos_is_pos(th as int * scale, FP_ONE as int);
        vstd::arithmetic::div_mod::lemma_multiply_divide_le(tw as int * scale,
            FP_ONE as int, WIDTH as int);
        vstd::arithmetic::div_mod::lemma_multiply_divide_le(th as int * scale,
            FP_ONE as int, HEIGHT as int);
    }
    let sw = tw * scale / (FP_ONE as usize);
    let sh = th * scale / (FP_ONE as usize);
    (sw, sh)
}

/// The texel a scaled blit samples for one destination pixel.
pub open spec fn spec_blit_pixel(tex: Texture, sw: int, sh: int, dx: int, dy: int) -> u32 {
    tex.spec_pixel(dx * tex.width / sw, dy * tex.height / sh)
}

/// Draws a texture scaled to (sw, sh) pixels with its top-left corner at
/// (offx, offy), clipped to the frame; other pixels are untouched.
pub fn blit_scaled(framebuffer: &mut Vec<u32>, tex: &Texture, offx: usize, offy: usize,
    sw: usize, sh: usize)
    requires
        old(framebuffer)@.len() == WIDTH * HEIGHT,
        tex.wf(),
        1 <= sw <= WIDTH,
        1 <= sh <= HEIGHT,
        offx + sw <= usize::MAX,
        offy + sh <= usize::MAX,
    ensures
        final(framebuffer)@.len() == WIDTH * HEIGHT,
        forall|x: int, y: int| 0 <= x < WIDTH && 0 <= y < HEIGHT ==>
            #[trigger] final(framebuffer)@[y * WIDTH + x] == (if offx <= x < offx + sw
                && offy <= y < offy + sh {
                spec_blit_pixel(*tex, sw as int, sh as int, x - offx, y - offy)
            } else {
                old(framebuffer)@[y * WIDTH + x]
            }),
{
    let ye = if offy + sh < HEIGHT {
        offy + sh
    } else {
        HEIGHT
    };
    let xe = if offx + sw < WIDTH {
        offx + sw
    } else {
        WIDTH
    };
    let mut y: usize = offy;
    while y < ye
        invariant
            framebuffer@.len() == WIDTH * HEIGHT,
            tex.wf(),
            1 <= sw <= WIDTH,
            1 <= sh <= HEIGHT,
            ye <= HEIGHT,
            xe <= WIDTH,
            ye == (if offy + sh < HEIGHT { offy + sh } else { HEIGHT as int }),
            xe == (if offx + sw < WIDTH { offx + sw } else { WIDTH as int }),
            offy <= y <= ye || y == offy,
            forall|xx: int, yy: int| 0 <= xx < WIDTH && 0 <= yy < HEIGHT ==>
                #[trigger] framebuffer@[yy * WIDTH + xx] == (if offx <= xx < xe
                    && offy <= yy < y {
                    spec_blit_pixel(*tex, sw as int, sh as int, xx - offx, yy - offy)
                } else {
                    old(framebuffer)@[yy * WIDTH + xx]
                }),
        decreases ye - y,
    {
        let mut x: usize = offx;
        while x < xe
            invariant
                framebuffer@.len() == WIDTH * HEIGHT,
                tex.wf(),
                1 <= sw <= WIDTH,
                1 <= sh <= HEIGHT,
                ye <= HEIGHT,
                xe <= WIDTH,
                offy <= y < ye,
                offx <= x <= xe || x == offx,
                forall|xx: int, yy: int| 0 <= xx < WIDTH && 0 <= yy < HEIGHT ==>
                    #[trigger] framebuffer@[yy * WIDTH + xx] == (if (offx <= xx < xe
                        && offy <= yy < y) || (yy == y && offx <= xx < x) {
                        spec_blit_pixel(*tex, sw as int, sh as int, xx - offx, yy - offy)
                    } else {
                        old(framebuffer)@[yy * WIDTH + xx]
                    }),
            decreases xe - x,
        {
            proof {
                assert(0 <= (x - offx) * tex.width <= 1040 * 4096
                    && 0 <= (y - offy) * tex.height <= 900 * 4096) by (nonlinear_arith)
                    requires 0 <= x - offx <= 1040, 0 <= y - offy <= 900,
                        0 <= tex.width <= 4096, 0 <= tex.height <= 4096;
            }
            let tx = (x - offx) * tex.width / sw;
            let ty = (y - offy) * tex.height / sh;
            proof {
                vstd::arithmetic::div_mod::lemma_div_pos_is_pos((x - offx) * tex.width,
                    sw as int);
                vstd::arithmetic::div_mod::lemma_div_pos_is_pos((y - offy) * tex.height,
                    sh as int);
                vstd::arithmetic::div_mod::lemma_multiply_divide_le(
                    (x - offx) * tex.width, sw as int, 1040int * 4096);
                vstd::arithmetic::div_mod::lemma_multiply_divide_le(
                    (y - offy) * tex.height, sh as int, 900int * 4096);
                assert((x - offx) * tex.width <= sw as int * (1040 * 4096)
                    && (y - offy) * tex.height <= sh as int * (900 * 4096))
                    by (nonlinear_arith)
                    requires 0 <= (x - offx) * tex.width <= 1040 * 4096,
                        0 <= (y - offy) * tex.height <= 900 * 4096, sw >= 1, sh >= 1;
            }
            let color = tex.get_pixel_color(tx as u32, ty as u32);
            framebuffer.set(y * WIDTH + x, color);
            x = x + 1;
        }
        y = y + 1;
    }
}

} // verus!

//! The top-down views: the full-screen 2D map mode and the minimap
//! overlay drawn over the 3D frame.

use vstd::prelude::*;
use crate::fixed::FP_ONE;
use crate::maze::{mview, maze_wf, rows, cols};
use crate::player::Player;
use crate::{WIDTH, HEIGHT};

verus! {

/// Pixels per maze cell on the minimap.
pub const MINIMAP_SCALE: usize = 20;

/// Screen offset of the minimap's top-left corner.
pub const MINIMAP_OFFSET: usize = 10;

/// Side of the player marker square, in pixels.
pub const PLAYER_MARK: usize = 8;

/// Fills a rectangle clipped to the frame with one colour.
pub fn fill_rect(framebuffer: &mut Vec<u32>, x0: usize, y0: usize, w: usize, h: usize,
    color: u32)
    requires
        old(framebuffer)@.len() == WIDTH * HEIGHT,
        x0 + w <= usize::MAX,
        y0 + h <= usize::MAX,
    ensures
        final(framebuffer)@.len() == WIDTH * HEIGHT,
        forall|x: int, y: int| 0 <= x < WIDTH && 0 <= y < HEIGHT ==>
            #[trigger] final(framebuffer)@[y * WIDTH + x] == (if x0 <= x < x0 + w
                && y0 <= y < y0 + h {
                color
            } else {
                old(framebuffer)@[y * WIDTH + x]
            }),
{
    let ye = if y0 + h < HEIGHT {
        y0 + h
    } else {
        HEIGHT
    };
    let xe = if x0 + w < WIDTH {
        x0 + w
    } else {
        WIDTH
    };
    let mut y: usize = y0;
    while y < ye
        invariant
            framebuffer@.len() == WIDTH * HEIGHT,
            y0 <= y <= ye || y == y0,
            ye <= HEIGHT,
            xe <= WIDTH,
            ye == (if y0 + h < HEIGHT { y0 + h } else { HEIGHT as int }),
            xe == (if x0 + w < WIDTH { x0 + w } else { WIDTH as int }),
            forall|xx: int, yy: int| 0 <= xx < WIDTH && 0 <= yy < HEIGHT ==>
                #[trigger] framebuffer@[yy * WIDTH + xx] == (if x0 <= xx < xe
                    && y0 <= yy < y {
                    color
                } else {
                    old(framebuffer)@[yy * WIDTH + xx]
                }),
        decreases ye - y,
    {
        let mut x: usize = x0;
        while x < xe
            invariant
                framebuffer@.len() == WIDTH * HEIGHT,
                y0 <= y < ye,
                x0 <= x <= xe || x == x0,
                ye <= HEIGHT,
                xe <= WIDTH,
                forall|xx: int, yy: int| 0 <= xx < WIDTH && 0 <= yy < HEIGHT ==>
                    #[trigger] framebuffer@[yy * WIDTH + xx] == (if (x0 <= xx < xe
                        && y0 <= yy < y) || (y == yy && x0 <= xx < x) {
                        color
                    } else {
                        old(framebuffer)@[yy * WIDTH + xx]
                    }),
            decreases xe - x,
        {
            framebuffer.set(y * WIDTH + x, color);
            x = x + 1;
        }
        y = y + 1;
    }
}

/// Colour of one maze cell in the full-screen 2D view: walls alternate
/// in a checker pattern, the start marker is red, the goal green, open
/// floor black.
pub open spec fn spec_cell_2d_color(cell: char, row: int, col: int) -> u32 {
    if cell == '+' || cell == '-' || cell == '|' {
        if (row + col) % 2 == 0 {
            0xFF5733u32
        } else {
            0x3498DBu32
        }
    } else if cell == 'p' {
        0xFF0000u32
    } else if cell == 'g' {
        0x00FF00u32
    } else {
        0x000000u32
    }
}

/// Draws one maze cell of the 2D view as a block of its colour, clipped
/// to the frame.
pub fn draw_cell(framebuffer: &mut Vec<u32>, xo: usize, yo: usize, block_size: usize,
    cell: char, row: usize, col: usize)
    requires
        old(framebuffer)@.len() == WIDTH * HEIGHT,
        xo + block_size <= usize::MAX,
        yo + block_size <= usize::MAX,
        row + col <= usize::MAX,
    ensures
        final(framebuffer)@.len() == WIDTH * HEIGHT,
        forall|x: int, y: int| 0 <= x < WIDTH && 0 <= y < HEIGHT ==>
            #[trigger] final(framebuffer)@[y * WIDTH + x] == (if xo <= x < xo + block_size
                && yo <= y < yo + block_size {
                spec_cell_2d_color(cell, row as int, col as int)
            } else {
                old(framebuffer)@[y * WIDTH + x]
            }),
{
    let color: u32 = if cell == '+' || cell == '-' || cell == '|' {
        if (row + col) % 2 == 0 {
            0xFF5733
        } else {
            0x3498DB
        }
    } else if cell == 'p' {
        0xFF0000
    } else if cell == 'g' {
        0x00FF00
    } else {
        0x000000
    };
    fill_rect(framebuffer, xo, yo, block_size, block_size, color);
}

/// One pixel of the full-screen 2D view: the player marker square over
/// the scaled cell grid, over whatever the frame already held.
pub open spec fn spec_render2d_pixel(m: Seq<Seq<char>>, bs: int, p: Player, x: int,
    y: int, under: u32) -> u32 {
    let px = p.pos_x * bs / (FP_ONE as int);
    let py = p.pos_y * bs / (FP_ONE as int);
    let ps = bs / 4;
    if px <= x < px + ps && py <= y < py + ps {
        0xFF0000u32
    } else if x < cols(m) * bs && y < rows(m) * bs {
        spec_cell_2d_color(m[y / bs][x / bs], y / bs, x / bs)
    } else {
        under
    }
}

/// Renders the full-screen top-down view: every maze cell as a coloured
/// block, then the player as a red square.
pub fn render2d(framebuffer: &mut Vec<u32>, maze: &Vec<Vec<char>>, block_size: usize,
    player: &Player)
    requires
        old(framebuffer)@.len() == WIDTH * HEIGHT,
        maze_wf(mview(maze@)),
        1 <= block_size <= 4096,
        0 <= player.pos_x < cols(mview(maze@)) * FP_ONE,
        0 <= player.pos_y < rows(mview(maze@)) * FP_ONE,
    ensures
        final(framebuffer)@.len() == WIDTH * HEIGHT,
        forall|x: int, y: int| 0 <= x < WIDTH && 0 <= y < HEIGHT ==>
            #[trigger] final(framebuffer)@[y * WIDTH + x] == spec_render2d_pixel(
                mview(maze@), block_size as int, *player, x, y,
                old(framebuffer)@[y * WIDTH + x]),
{
    let ghost m = mview(maze@);
    let bs = block_size;
    let rows_n = maze.len();
    let cols_n = maze[0].len();
    proof {
        assert(mview(maze@)[0] == maze@[0]@);
    }
    let mut row: usize = 0;
    while row < rows_n
        invariant
            framebuffer@.len() == WIDTH * HEIGHT,
            maze_wf(m),
            m == mview(maze@),
            rows_n == rows(m),
            cols_n == cols(m),
            1 <= bs <= 4096,
            0 <= row <= rows_n,
            forall|x: int, y: int| 0 <= x < WIDTH && 0 <= y < HEIGHT ==>
                #[trigger] framebuffer@[y * WIDTH + x] == (if x < cols_n * bs
                    && y < row * bs {
                    spec_cell_2d_color(m[y / (bs as int)][x / (bs as int)],
                        y / (bs as int), x / (bs as int))
                } else {
                    old(framebuffer)@[y * WIDTH + x]
                }),
        decreases rows_n - row,
    {
        let mut col: usize = 0;
        while col < cols_n
            invariant
                framebuffer@.len() == WIDTH * HEIGHT,
                maze_wf(m),
                m == mview(maze@),
                rows_n == rows(m),
                cols_n == cols(m),
                1 <= bs <= 4096,
                0 <= row < rows_n,
                0 <= col <= cols_n,
                forall|x: int, y: int| 0 <= x < WIDTH && 0 <= y < HEIGHT ==>
                    #[trigger] framebuffer@[y * WIDTH + x] == (if (x < cols_n * bs
                        && y < row * bs) || (x < col * bs && row * bs <= y
                        && y < row * bs + bs) {
                        spec_cell_2d_color(m[y / (bs as int)][x / (bs as int)],
                            y / (bs as int), x / (bs as int))
                    } else {
                        old(framebuffer)@[y * WIDTH + x]
                    }),
            decreases cols_n - col,
        {
            proof {
                assert(mview(maze@)[row as int] == maze@[row as int]@);
                assert(col * bs <= 4096 * 4096 && row * bs <= 4096 * 4096)
                    by (nonlinear_arith)
                    requires 0 <= col <= 4096, 0 <= row <= 4096, 0 <= bs <= 4096;
            }
            let c = maze[row][col];
            draw_cell(framebuffer, col * bs, row * bs, bs, c, row, col);
            proof {
                assert forall|x: int, y: int|
                    #![trigger (x / (bs as int)), (y / (bs as int))]
                    col * bs <= x < col * bs + bs && row * bs <= y < row * bs + bs
                    implies x / (bs as int) == col && y / (bs as int) == row by {
                    vstd::arithmetic::div_mod::lemma_fundamental_div_mod_converse(
                        x, bs as int, col as int, x - col * bs);
                    vstd::arithmetic::div_mod::lemma_fundamental_div_mod_converse(
                        y, bs as int, row as int, y - row * bs);
                }
                assert((col + 1) * bs == col * bs + bs) by (nonlinear_arith);
            }
            col = col + 1;
        }
        proof {
            assert((row + 1) * bs == row * bs + bs) by (nonlinear_arith);
        }
        row = row + 1;
    }
    proof {
        assert(player.pos_x * bs <= 0x1000_0000i64 * 4096
            && player.pos_y * bs <= 0x1000_0000i64 * 4096) by (nonlinear_arith)
            requires 0 <= player.pos_x <= 0x1000_0000i64, 0 <= player.pos_y
                <= 0x1000_0000i64, 0 <= bs <= 4096;
        vstd::arithmetic::div_mod::lemma_div_pos_is_pos(player.pos_x as int * bs,
            FP_ONE as int);
        vstd::arithmetic::div_mod::lemma_div_pos_is_pos(player.pos_y as int * bs,
            FP_ONE as int);
        vstd::arithmetic::div_mod::lemma_multiply_divide_le(player.pos_x as int * bs,
            FP_ONE as int, 0x1000_0000int * 4096 / 65536);
        vstd::arithmetic::div_mod::lemma_multiply_divide_le(player.pos_y as int * bs,
            FP_ONE as int, 0x1000_0000int * 4096 / 65536);
        vstd::arithmetic::div_mod::lemma_div_pos_is_pos(bs as int, 4);
        assert(cols(m) * FP_ONE <= 0x1000_0000 && rows(m) * FP_ONE <= 0x1000_0000);
    }
    let px = (player.pos_x * bs as i64 / FP_ONE) as usize;
    let py = (player.pos_y * bs as i64 / FP_ONE) as usize;
    let ps = bs / 4;
    fill_rect(framebuffer, px, py, ps, ps, 0xFF0000);
}

/// Colour of a minimap pixel: the player marker square over the cell
/// blocks (white walls, red start, black floor) over whatever the frame
/// already held.
pub open spec fn spec_minimap_cell_color(c: char) -> u32 {
    if c == '+' || c == '-' || c == '|' {
        0xFFFFFFu32
    } else if c == 'p' {
        0xFF0000u32
    } else {
        0x000000u32
    }
}

/// The minimap's player marker origin, in screen pixels.
pub open spec fn spec_mark_x(p: Player) -> int {
    MINIMAP_OFFSET + p.pos_x * MINIMAP_SCALE / (FP_ONE as int)
}

/// The minimap's player marker origin, in screen pixels.
pub open spec fn spec_mark_y(p: Player) -> int {
    MINIMAP_OFFSET + p.pos_y * MINIMAP_SCALE / (FP_ONE as int)
}

/// One pixel of the frame after the minimap pass.
pub open spec fn spec_minimap_pixel(m: Seq<Seq<char>>, p: Player, x: int, y: int,
    under: u32) -> u32 {
    if spec_mark_x(p) <= x < spec_mark_x(p) + PLAYER_MARK
        && spec_mark_y(p) <= y < spec_mark_y(p) + PLAYER_MARK {
        0xFF0000u32
    } else if MINIMAP_OFFSET <= x < MINIMAP_OFFSET + cols(m) * MINIMAP_SCALE
        && MINIMAP_OFFSET <= y < MINIMAP_OFFSET + rows(m) * MINIMAP_SCALE {
        spec_minimap_cell_color(
            m[(y - MINIMAP_OFFSET) / (MINIMAP_SCALE as int)][(x - MINIMAP_OFFSET) / (
            MINIMAP_SCALE as int)])
    } else {
        under
    }
}

/// The whole frame after the minimap pass.
pub open spec fn spec_minimap_fb(m: Seq<Seq<char>>, p: Player, fb: Seq<u32>) -> Seq<u32> {
    Seq::new(fb.len(), |j: int| spec_minimap_pixel(m, p, j % (WIDTH as int),
        j / (WIDTH as int), fb[j]))
}

/// Draws the minimap: one scaled block per maze cell, then the player
/// marker, clipped to the frame.
pub fn render_minimap(framebuffer: &mut Vec<u32>, maze: &Vec<Vec<char>>, player: &Player,
    _block_size: usize)
    requires
        old(framebuffer)@.len() == WIDTH * HEIGHT,
        maze_wf(mview(maze@)),
        0 <= player.pos_x < cols(mview(maze@)) * FP_ONE,
        0 <= player.pos_y < rows(mview(maze@)) * FP_ONE,
    ensures
        final(framebuffer)@.len() == WIDTH * HEIGHT,
        final(framebuffer)@ == spec_minimap_fb(mview(maze@), *player, old(framebuffer)@),
{
    let ghost m = mview(maze@);
    let rows_n = maze.len();
    let cols_n = maze[0].len();
    proof {
        assert(mview(maze@)[0] == maze@[0]@);
    }
    let mut row: usize = 0;
    while row < rows_n
        invariant
            framebuffer@.len() == WIDTH * HEIGHT,
            maze_wf(m),
            m == mview(maze@),
            rows_n == rows(m),
            cols_n == cols(m),
            0 <= row <= rows_n,
            forall|x: int, y: int| 0 <= x < WIDTH && 0 <= y < HEIGHT ==>
                #[trigger] framebuffer@[y * WIDTH + x] == (if MINIMAP_OFFSET <= x
                    < MINIMAP_OFFSET + cols_n * MINIMAP_SCALE
                    && MINIMAP_OFFSET <= y < MINIMAP_OFFSET + row * MINIMAP_SCALE {
                    spec_minimap_cell_color(m[(y - MINIMAP_OFFSET) / (MINIMAP_SCALE as int)][
                        (x - MINIMAP_OFFSET) / (MINIMAP_SCALE as int)])
                } else {
                    old(framebuffer)@[y * WIDTH + x]
                }),
        decreases rows_n - row,
    {
        let mut col: usize = 0;
        while col < cols_n
            invariant
                framebuffer@.len() == WIDTH * HEIGHT,
                maze_wf(m),
                m == mview(maze@),
                rows_n == rows(m),
                cols_n == cols(m),
                0 <= row < rows_n,
                0 <= col <= cols_n,
                forall|x: int, y: int| 0 <= x < WIDTH && 0 <= y < HEIGHT ==>
                    #[trigger] framebuffer@[y * WIDTH + x] == (if (MINIMAP_OFFSET <= x
                        < MINIMAP_OFFSET + cols_n * MINIMAP_SCALE
                        && MINIMAP_OFFSET <= y < MINIMAP_OFFSET + row * MINIMAP_SCALE)
                        || (MINIMAP_OFFSET <= x < MINIMAP_OFFSET + col * MINIMAP_SCALE
                            && MINIMAP_OFFSET + row * MINIMAP_SCALE <= y
                            && y < MINIMAP_OFFSET + (row + 1) * MINIMAP_SCALE) {
                        spec_minimap_cell_color(m[(y - MINIMAP_OFFSET) / (
                            MINIMAP_SCALE as int)][(x - MINIMAP_OFFSET) / (
                            MINIMAP_SCALE as int)])
                    } else {
                        old(framebuffer)@[y * WIDTH + x]
                    }),
            decreases cols_n - col,
        {
            proof {
                assert(mview(maze@)[row as int] == maze@[row as int]@);
            }
            let c = maze[row][col];
            let color = if c == '+' || c == '-' || c == '|' {
                0xFFFFFFu32
            } else if c == 'p' {
                0xFF0000u32
            } else {
                0x000000u32
            };
            let ghost fb_pre = framebuffer@;
            fill_rect(framebuffer, MINIMAP_OFFSET + col * MINIMAP_SCALE,
                MINIMAP_OFFSET + row * MINIMAP_SCALE, MINIMAP_SCALE, MINIMAP_SCALE, color);
            proof {
                assert forall|x: int, y: int|
                    #![trigger (x - MINIMAP_OFFSET) / (MINIMAP_SCALE as int),
                        (y - MINIMAP_OFFSET) / (MINIMAP_SCALE as int)]
                    MINIMAP_OFFSET + col * MINIMAP_SCALE <= x
                    < MINIMAP_OFFSET + col * MINIMAP_SCALE + MINIMAP_SCALE
                    && MINIMAP_OFFSET + row * MINIMAP_SCALE <= y
                    < MINIMAP_OFFSET + row * MINIMAP_SCALE + MINIMAP_SCALE
                    implies (y - MINIMAP_OFFSET) / (MINIMAP_SCALE as int) == row
                        && (x - MINIMAP_OFFSET) / (MINIMAP_SCALE as int) == col by {
                    vstd::arithmetic::div_mod::lemma_fundamental_div_mod_converse(
                        x - MINIMAP_OFFSET, MINIMAP_SCALE as int, col as int,
                        x - MINIMAP_OFFSET - col * MINIMAP_SCALE);
                    vstd::arithmetic::div_mod::lemma_fundamental_div_mod_converse(
                        y - MINIMAP_OFFSET, MINIMAP_SCALE as int, row as int,
                        y - MINIMAP_OFFSET - row * MINIMAP_SCALE);
                }
            }
            col = col + 1;
        }
        row = row + 1;
    }
    proof {
        vstd::arithmetic::div_mod::lemma_div_pos_is_pos(
            player.pos_x as int * MINIMAP_SCALE, FP_ONE as int);
        vstd::arithmetic::div_mod::lemma_div_pos_is_pos(
            player.pos_y as int * MINIMAP_SCALE, FP_ONE as int);
        assert(player.pos_x * MINIMAP_SCALE <= 0x1000_0000i64 * 20
            && player.pos_y * MINIMAP_SCALE <= 0x1000_0000i64 * 20) by (nonlinear_arith)
            requires 0 <= player.pos_x <= 0x1000_0000i64, 0 <= player.pos_y
                <= 0x1000_0000i64, MINIMAP_SCALE == 20usize;
        assert(cols(m) * FP_ONE <= 0x1000_0000 && rows(m) * FP_ONE <= 0x1000_0000);
        vstd::arithmetic::div_mod::lemma_multiply_divide_le(
            player.pos_x as int * MINIMAP_SCALE, FP_ONE as int, 0x500_0000int);
        vstd::arithmetic::div_mod::lemma_multiply_divide_le(
            player.pos_y as int * MINIMAP_SCALE, FP_ONE as int, 0x500_0000int);
    }
    let mark_x = MINIMAP_OFFSET + ((player.pos_x * MINIMAP_SCALE as i64 / FP_ONE) as usize);
    let mark_y = MINIMAP_OFFSET + ((player.pos_y * MINIMAP_SCALE as i64 / FP_ONE) as usize);
    let ghost fb_cells = framebuffer@;
    fill_rect(framebuffer, mark_x, mark_y, PLAYER_MARK, PLAYER_MARK, 0xFF0000);
    proof {
        let out = spec_minimap_fb(m, *player, old(framebuffer)@);
        assert forall|j: int| 0 <= j < framebuffer@.len()
            implies framebuffer@[j] == out[j] by {
            let xj = j % (WIDTH as int);
            let yj = j / (WIDTH as int);
            vstd::arithmetic::div_mod::lemma_fundamental_div_mod(j, WIDTH as int);
            vstd::arithmetic::div_mod::lemma_mod_bound(j, WIDTH as int);
            vstd::arithmetic::div_mod::lemma_div_pos_is_pos(j, WIDTH as int);
            vstd::arithmetic::div_mod::lemma_multiply_divide_lt(j, WIDTH as int,
                HEIGHT as int);
            assert(j == yj * WIDTH + xj);
            assert(framebuffer@[yj * WIDTH + xj] == (if mark_x <= xj < mark_x + PLAYER_MARK
                && mark_y <= yj < mark_y + PLAYER_MARK {
                0xFF0000u32
            } else {
                fb_cells[yj * WIDTH + xj]
            }));
        }
        assert(framebuffer@ =~= out);
    }
}

} // verus!

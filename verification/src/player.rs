//! The player camera: position in maze-cell units, heading and field of
//! view as binary angles, and the per-frame movement step.

use vstd::prelude::*;
use crate::fixed::{FP_ONE, spec_fp_mul, fp_mul};
use crate::trig::{FULL_TURN, QUARTER_TURN, spec_norm, spec_sin, spec_cos, normalize_angle,
    sin_fp, cos_fp};
use crate::maze::{mview, maze_wf, rows, cols};

verus! {

/// Distance moved per step while a movement key is held, in fixed-point
/// cell units (a tenth of a cell).
pub const MOVE_SPEED: i64 = 6554;

/// Rotation per step while a turn key is held, in binary angle units
/// (a sixtieth of half a revolution).
pub const ROT_SPEED: i64 = 1638;

/// The camera state: continuous position in cell units and heading /
/// field of view as binary angles.
#[derive(Clone, Copy, PartialEq, Eq, Debug)]
pub struct Player {
    /// Horizontal position in fixed-point cell units.
    pub pos_x: i64,
    /// Vertical position in fixed-point cell units.
    pub pos_y: i64,
    /// Heading angle.
    pub a: i64,
    /// Field of view angle.
    pub fov: i64,
}

/// The camera invariant relative to a maze: the position lies within the
/// grid, the heading is normalized, and the field of view is positive and
/// at most a quarter turn.
pub open spec fn player_wf(p: Player, m: Seq<Seq<char>>) -> bool {
    &&& 0 <= p.pos_x < cols(m) * FP_ONE
    &&& 0 <= p.pos_y < rows(m) * FP_ONE
    &&& 0 <= p.a < FULL_TURN
    &&& 0 < p.fov <= QUARTER_TURN
}

/// The camera state after one movement step: turn keys rotate the
/// heading, then movement keys advance along it. The step is taken only
/// when the destination cell lies inside the grid and is open floor;
/// otherwise the position is unchanged.
pub open spec fn spec_update_player(
    p: Player,
    m: Seq<Seq<char>>,
    left: bool,
    right: bool,
    forward: bool,
    backward: bool,
) -> Player {
    let na = spec_norm(p.a - (if left { ROT_SPEED as int } else { 0 })
        + (if right { ROT_SPEED as int } else { 0 }));
    let dx = spec_fp_mul(spec_cos(na), MOVE_SPEED as int);
    let dy = spec_fp_mul(spec_sin(na), MOVE_SPEED as int);
    let nx = p.pos_x + (if forward { dx } else { 0 }) - (if backward { dx } else { 0 });
    let ny = p.pos_y + (if forward { dy } else { 0 }) - (if backward { dy } else { 0 });
    let cx = nx / (FP_ONE as int);
    let cy = ny / (FP_ONE as int);
    if nx >= 0 && ny >= 0 && cx < cols(m) && cy < rows(m) && m[cy][cx] == ' ' {
        Player { pos_x: nx as i64, pos_y: ny as i64, a: na as i64, fov: p.fov }
    } else {
        Player { pos_x: p.pos_x, pos_y: p.pos_y, a: na as i64, fov: p.fov }
    }
}

/// Applies one frame of input to the camera: rotation, then a
/// collision-checked movement step. Returns whether a movement key was
/// held, so the caller can drive the footstep sound.
pub fn update_player(
    player: &mut Player,
    maze: &Vec<Vec<char>>,
    left: bool,
    right: bool,
    forward: bool,
    backward: bool,
) -> (moved: bool)
    requires
        maze_wf(mview(maze@)),
        player_wf(*old(player), mview(maze@)),
    ensures
        *final(player) == spec_update_player(
            *old(player), mview(maze@), left, right, forward, backward),
        player_wf(*final(player), mview(maze@)),
        moved == (forward || backward),
{
    let a0 = player.a - (if left { ROT_SPEED } else { 0 })
        + (if right { ROT_SPEED } else { 0 });
    let na = normalize_angle(a0);
    player.a = na;
    let dx = fp_mul(cos_fp(na), MOVE_SPEED);
    let dy = fp_mul(sin_fp(na), MOVE_SPEED);
    let nx = player.pos_x + (if forward { dx } else { 0 }) - (if backward { dx } else { 0 });
    let ny = player.pos_y + (if forward { dy } else { 0 }) - (if backward { dy } else { 0 });
    let cols_n = maze[0].len() as i64;
    let rows_n = maze.len() as i64;
    proof {
        assert(mview(maze@)[0] == maze@[0]@);
    }
    if nx >= 0 && ny >= 0 {
        proof {
            vstd::arithmetic::div_mod::lemma_div_pos_is_pos(nx as int, FP_ONE as int);
            vstd::arithmetic::div_mod::lemma_div_pos_is_pos(ny as int, FP_ONE as int);
        }
        let cx = nx / FP_ONE;
        let cy = ny / FP_ONE;
        if cx < cols_n && cy < rows_n {
            proof {
                assert(mview(maze@)[cy as int] == maze@[cy as int]@);
                vstd::arithmetic::div_mod::lemma_fundamental_div_mod(nx as int, FP_ONE as int);
                vstd::arithmetic::div_mod::lemma_mod_bound(nx as int, FP_ONE as int);
                vstd::arithmetic::div_mod::lemma_fundamental_div_mod(ny as int, FP_ONE as int);
                vstd::arithmetic::div_mod::lemma_mod_bound(ny as int, FP_ONE as int);
                assert(nx < cols(mview(maze@)) * FP_ONE) by (nonlinear_arith)
                    requires nx == FP_ONE * (nx as int / FP_ONE as int) + nx as int % (
                        FP_ONE as int), nx as int % (FP_ONE as int) < FP_ONE,
                        nx as int / (FP_ONE as int) <= cols(mview(maze@)) - 1,
                        FP_ONE == 65536i64;
                assert(ny < rows(mview(maze@)) * FP_ONE) by (nonlinear_arith)
                    requires ny == FP_ONE * (ny as int / FP_ONE as int) + ny as int % (
                        FP_ONE as int), ny as int % (FP_ONE as int) < FP_ONE,
                        ny as int / (FP_ONE as int) <= rows(mview(maze@)) - 1,
                        FP_ONE == 65536i64;
            }
            if maze[cy as usize][cx as usize] == ' ' {
                player.pos_x = nx;
                player.pos_y = ny;
            }
        }
    }
    forward || backward
}

} // verus!

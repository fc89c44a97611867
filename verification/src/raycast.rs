//! The ray caster: grid DDA from the camera through the maze.
//!
//! A cast steps the ray one cell-boundary crossing at a time, choosing
//! whichever axis has the nearer next grid line, and stops in the first
//! blocking cell; outside the grid stands an implicit wall, and the step
//! count is bounded by the grid perimeter so a cast always terminates.
//! The returned distance is the ray length projected on the heading (the
//! fisheye correction), never below one fixed-point unit.

use vstd::prelude::*;
use crate::fixed::{FP_ONE, FP_INF};
use crate::trig::{spec_sin, spec_cos, sin_fp, cos_fp, lemma_dir_nonzero, FULL_TURN};
use crate::maze::{mview, maze_wf, rows, cols, blocks, spec_cell_symbol, is_wall, cell_symbol};
use crate::player::Player;

verus! {

/// Largest ray angle magnitude the caster accepts.
pub const RAY_ANGLE_LIMIT: i64 = 0x1000_0000_0000;

/// The result of one cast: perpendicular (fisheye-corrected) distance,
/// the exact fixed-point hit coordinates, the symbol of the wall cell
/// struck, and whether the final crossing was of a vertical grid line.
pub struct RayHit {
    /// Fisheye-corrected distance in fixed-point cell units, at least 1.
    pub distance: i64,
    /// Fixed-point x coordinate of the intersection point.
    pub hit_x: i64,
    /// Fixed-point y coordinate of the intersection point.
    pub hit_y: i64,
    /// The symbol of the cell the ray stopped in.
    pub wall_type: char,
    /// True when the final crossing was of a vertical grid line.
    pub is_vertical: bool,
}

/// The state a finished DDA walk ends in.
pub ghost struct DdaOut {
    /// Euclidean ray length at the final crossing, fixed-point.
    pub t: int,
    /// Whether the final crossing was of a vertical grid line.
    pub vertical: bool,
    /// Cell column the walk stopped in.
    pub cx: int,
    /// Cell row the walk stopped in.
    pub cy: int,
    /// True only when the step bound ran out before a wall was found.
    pub exhausted: bool,
}

/// The DDA walk: starting in cell (cx, cy) with accumulated distances
/// sdx / sdy to the next vertical / horizontal grid line and per-cell
/// increments dx / dy, advance on the axis with the nearer line until a
/// blocking cell is entered or the fuel runs out.
pub open spec fn dda(
    m: Seq<Seq<char>>,
    cx: int,
    cy: int,
    sdx: int,
    sdy: int,
    dx: int,
    dy: int,
    sx: int,
    sy: int,
    fuel: nat,
) -> DdaOut
    decreases fuel,
{
    if fuel == 0 {
        DdaOut { t: 0, vertical: false, cx, cy, exhausted: true }
    } else if sdx < sdy {
        let ncx = cx + sx;
        if blocks(m, ncx, cy) {
            DdaOut { t: sdx, vertical: true, cx: ncx, cy, exhausted: false }
        } else {
            dda(m, ncx, cy, sdx + dx, sdy, dx, dy, sx, sy, (fuel - 1) as nat)
        }
    } else {
        let ncy = cy + sy;
        if blocks(m, cx, ncy) {
            DdaOut { t: sdy, vertical: false, cx, cy: ncy, exhausted: false }
        } else {
            dda(m, cx, ncy, sdx, sdy + dy, dx, dy, sx, sy, (fuel - 1) as nat)
        }
    }
}

/// Distance along the ray to the next grid line of one axis, per cell
/// stepped: FP_ONE^2 / |dir|, or the unreachable sentinel for a ray
/// parallel to that axis.
pub open spec fn spec_delta(dir: int) -> int {
    if dir == 0 {
        FP_INF as int
    } else if dir > 0 {
        (FP_ONE * FP_ONE) / dir
    } else {
        (FP_ONE * FP_ONE) / (-dir)
    }
}

/// Which way the walk steps on one axis.
pub open spec fn spec_step_dir(dir: int) -> int {
    if dir > 0 {
        1int
    } else if dir < 0 {
        -1int
    } else {
        0int
    }
}

/// Ray length to the first grid line of one axis, from the fractional
/// start position within its cell.
pub open spec fn spec_sd0(p: int, dir: int, delta: int) -> int {
    let cell = p / (FP_ONE as int);
    if dir > 0 {
        ((cell + 1) * FP_ONE - p) * delta / (FP_ONE as int)
    } else if dir < 0 {
        (p - cell * FP_ONE) * delta / (FP_ONE as int)
    } else {
        FP_INF as int
    }
}

/// A coordinate on the ray after length t: start plus the signed
/// projection of t on that axis.
pub open spec fn spec_ray_coord(p: int, dir: int, t: int) -> int {
    if dir >= 0 {
        p + (t * dir) / (FP_ONE as int)
    } else {
        p - (t * (-dir)) / (FP_ONE as int)
    }
}

/// Step budget of a cast: crossing more grid lines than both grid sides
/// together is impossible without leaving the grid.
pub open spec fn spec_fuel(m: Seq<Seq<char>>) -> nat {
    (rows(m) + cols(m) + 4) as nat
}

/// The whole cast at the specification level.
pub ghost struct CastResult {
    /// Fisheye-corrected distance, clamped to at least one unit.
    pub distance: int,
    /// Fixed-point x coordinate of the intersection.
    pub hit_x: int,
    /// Fixed-point y coordinate of the intersection.
    pub hit_y: int,
    /// Symbol of the cell the ray stopped in.
    pub wall: char,
    /// Whether the final crossing was of a vertical grid line.
    pub vertical: bool,
    /// Cell column of the hit.
    pub cell_x: int,
    /// Cell row of the hit.
    pub cell_y: int,
    /// Euclidean ray length at the hit, fixed-point.
    pub t: int,
    /// Whether the step bound ran out.
    pub exhausted: bool,
}

/// Casts one ray at angle `a` from position (px, py) with camera heading
/// `heading`, in the specification world.
pub open spec fn spec_cast(m: Seq<Seq<char>>, px: int, py: int, a: int, heading: int)
    -> CastResult {
    let dirx = spec_cos(a);
    let diry = spec_sin(a);
    let dx = spec_delta(dirx);
    let dy = spec_delta(diry);
    let o = dda(
        m,
        px / (FP_ONE as int),
        py / (FP_ONE as int),
        spec_sd0(px, dirx, dx),
        spec_sd0(py, diry, dy),
        dx,
        dy,
        spec_step_dir(dirx),
        spec_step_dir(diry),
        spec_fuel(m),
    );
    let hit_x = if o.vertical {
        if spec_step_dir(dirx) >= 0 {
            o.cx * FP_ONE
        } else {
            (o.cx + 1) * FP_ONE
        }
    } else {
        spec_ray_coord(px, dirx, o.t)
    };
    let hit_y = if o.vertical {
        spec_ray_coord(py, diry, o.t)
    } else {
        if spec_step_dir(diry) >= 0 {
            o.cy * FP_ONE
        } else {
            (o.cy + 1) * FP_ONE
        }
    };
    let perp = o.t * spec_cos(a - heading);
    let distance = if perp < FP_ONE {
        1int
    } else {
        perp / (FP_ONE as int)
    };
    CastResult {
        distance,
        hit_x,
        hit_y,
        wall: spec_cell_symbol(m, o.cx, o.cy),
        vertical: o.vertical,
        cell_x: o.cx,
        cell_y: o.cy,
        t: o.t,
        exhausted: o.exhausted,
    }
}

/// What `cast_ray` promises: every field of the returned hit equals the
/// corresponding field of the specification cast.
pub open spec fn hit_matches(r: RayHit, m: Seq<Seq<char>>, px: int, py: int, a: int,
    heading: int) -> bool {
    let c = spec_cast(m, px, py, a, heading);
    &&& r.distance == c.distance
    &&& r.hit_x == c.hit_x
    &&& r.hit_y == c.hit_y
    &&& r.wall_type == c.wall
    &&& r.is_vertical == c.vertical
}

/// Casts one ray and returns the first wall cell struck, the corrected
/// distance, the exact intersection point and the crossing orientation.
pub fn cast_ray(maze: &Vec<Vec<char>>, player: &Player, a: i64) -> (r: RayHit)
    requires
        maze_wf(mview(maze@)),
        0 <= player.pos_x < cols(mview(maze@)) * FP_ONE,
        0 <= player.pos_y < rows(mview(maze@)) * FP_ONE,
        0 <= player.a < FULL_TURN,
        -RAY_ANGLE_LIMIT <= a <= RAY_ANGLE_LIMIT,
    ensures
        hit_matches(r, mview(maze@), player.pos_x as int, player.pos_y as int, a as int,
            player.a as int),
        1 <= r.distance <= 0x2800_0000_0000,
{
    let ghost m = mview(maze@);
    let px = player.pos_x;
    let py = player.pos_y;
    let dirx = cos_fp(a);
    let diry = sin_fp(a);
    proof {
        lemma_dir_nonzero(a as int);
    }
    let dx = if dirx == 0 {
        FP_INF
    } else if dirx > 0 {
        FP_ONE * FP_ONE / dirx
    } else {
        FP_ONE * FP_ONE / (-dirx)
    };
    let dy = if diry == 0 {
        FP_INF
    } else if diry > 0 {
        FP_ONE * FP_ONE / diry
    } else {
        FP_ONE * FP_ONE / (-diry)
    };
    let sx: i64 = if dirx > 0 { 1 } else if dirx < 0 { -1 } else { 0 };
    let sy: i64 = if diry > 0 { 1 } else if diry < 0 { -1 } else { 0 };
    proof {
        if dirx != 0 {
            lemma_delta_bounds(dirx as int);
        }
        if diry != 0 {
            lemma_delta_bounds(diry as int);
        }
        vstd::arithmetic::div_mod::lemma_div_pos_is_pos(px as int, FP_ONE as int);
        vstd::arithmetic::div_mod::lemma_div_pos_is_pos(py as int, FP_ONE as int);
        vstd::arithmetic::div_mod::lemma_multiply_divide_lt(
            px as int, FP_ONE as int, cols(m));
        vstd::arithmetic::div_mod::lemma_multiply_divide_lt(
            py as int, FP_ONE as int, rows(m));
        assert(px < FP_ONE * cols(m)) by (nonlinear_arith)
            requires px < cols(m) * FP_ONE, FP_ONE == 65536i64;
        assert(py < FP_ONE * rows(m)) by (nonlinear_arith)
            requires py < rows(m) * FP_ONE, FP_ONE == 65536i64;
    }
    let mut cx = px / FP_ONE;
    let mut cy = py / FP_ONE;
    proof {
        vstd::arithmetic::div_mod::lemma_fundamental_div_mod(px as int, FP_ONE as int);
        vstd::arithmetic::div_mod::lemma_mod_bound(px as int, FP_ONE as int);
        vstd::arithmetic::div_mod::lemma_fundamental_div_mod(py as int, FP_ONE as int);
        vstd::arithmetic::div_mod::lemma_mod_bound(py as int, FP_ONE as int);
    }
    let mut sdx = first_side_dist(px, dirx, dx);
    let mut sdy = first_side_dist(py, diry, dy);
    let rows_n = maze.len() as i64;
    let cols_n = maze[0].len() as i64;
    proof {
        assert(mview(maze@)[0] == maze@[0]@);
    }
    let fuel0: i64 = rows_n + cols_n + 4;
    let mut fuel: i64 = fuel0;
    let mut t: i64 = 0;
    let mut vertical = false;
    proof {
        assert(px < 0x1000_0000_0000 && py < 0x1000_0000_0000);
    }
    let ghost orig = dda(m, cx as int, cy as int, sdx as int, sdy as int, dx as int,
        dy as int, sx as int, sy as int, spec_fuel(m));
    proof {
        assert(spec_fuel(m) == fuel0 as nat);
    }
    loop
        invariant_except_break
            maze_wf(m),
            m == mview(maze@),
            rows_n == rows(m) && cols_n == cols(m),
            0 <= fuel <= fuel0,
            fuel0 == rows_n + cols_n + 4,
            0 <= cx < cols_n,
            0 <= cy < rows_n,
            sx == 1 || sx == -1 || sx == 0,
            sy == 1 || sy == -1 || sy == 0,
            sx != 0 || sy != 0,
            sx == 0 ==> sdx == FP_INF,
            sy == 0 ==> sdy == FP_INF,
            sx != 0 ==> FP_ONE <= dx <= 0x1_0000_0000,
            sy != 0 ==> FP_ONE <= dy <= 0x1_0000_0000,
            sx != 0 ==> 0 <= sdx <= (fuel0 - fuel + 1) * 0x1_0000_0000,
            sy != 0 ==> 0 <= sdy <= (fuel0 - fuel + 1) * 0x1_0000_0000,
            t == 0,
            vertical == false,
            dda(m, cx as int, cy as int, sdx as int, sdy as int, dx as int, dy as int,
                sx as int, sy as int, fuel as nat) == orig,
        ensures
            t == orig.t,
            vertical == orig.vertical,
            cx == orig.cx,
            cy == orig.cy,
            -1 <= cx <= cols_n,
            -1 <= cy <= rows_n,
            0 <= t <= (fuel0 + 1) * 0x1_0000_0000,
            rows_n == rows(m) && cols_n == cols(m),
            fuel0 == rows_n + cols_n + 4,
        decreases fuel,
    {
        if fuel == 0 {
            break;
        }
        proof {
            assert((fuel0 - fuel + 2) * 0x1_0000_0000 == (fuel0 - fuel + 1) * 0x1_0000_0000
                + 0x1_0000_0000);
            assert((fuel0 - fuel + 1) * 0x1_0000_0000 <= (fuel0 + 1) * 0x1_0000_0000)
                by (nonlinear_arith)
                requires fuel >= 0;
        }
        if sdx < sdy {
            let ncx = cx + sx;
            let here = sdx;
            let c = cell_symbol(maze, ncx, cy);
            if is_wall(c) {
                t = here;
                vertical = true;
                cx = ncx;
                break;
            }
            cx = ncx;
            sdx = sdx + dx;
        } else {
            let ncy = cy + sy;
            let here = sdy;
            let c = cell_symbol(maze, cx, ncy);
            if is_wall(c) {
                t = here;
                vertical = false;
                cy = ncy;
                break;
            }
            cy = ncy;
            sdy = sdy + dy;
        }
        fuel = fuel - 1;
    }
    let wall_type = cell_symbol(maze, cx, cy);
    let hit_x: i64;
    let hit_y: i64;
    if vertical {
        hit_x = if sx >= 0 {
            cx * FP_ONE
        } else {
            (cx + 1) * FP_ONE
        };
        hit_y = ray_coord(py, diry, t, fuel0);
    } else {
        hit_x = ray_coord(px, dirx, t, fuel0);
        hit_y = if sy >= 0 {
            cy * FP_ONE
        } else {
            (cy + 1) * FP_ONE
        };
    }
    let cosoff = cos_fp(a - player.a);
    proof {
        assert(t * cosoff <= 0x4000_0000_0000_0000 && t * cosoff >= -0x4000_0000_0000_0000)
            by (nonlinear_arith)
            requires 0 <= t <= 0x4000_0000_0000, -65536 <= cosoff <= 65536;
    }
    let perp = t * cosoff;
    let distance = if perp < FP_ONE {
        1
    } else {
        proof {
            vstd::arithmetic::div_mod::lemma_div_pos_is_pos(perp as int, FP_ONE as int);
            vstd::arithmetic::div_mod::lemma_div_non_zero(perp as int, FP_ONE as int);
            assert(perp <= FP_ONE as int * 0x2800_0000_0000) by (nonlinear_arith)
                requires perp == t * cosoff, 0 <= t <= 0x2005_0000_0000,
                    cosoff <= 65536, perp >= 0, FP_ONE == 65536i64;
            vstd::arithmetic::div_mod::lemma_multiply_divide_le(perp as int,
                FP_ONE as int, 0x2800_0000_0000int);
        }
        perp / FP_ONE
    };
    RayHit { distance, hit_x, hit_y, wall_type, is_vertical: vertical }
}

/// The texture-u coordinate a hit selects: the fractional y coordinate
/// of a vertical-line hit, the fractional x coordinate of a horizontal
/// one.
pub fn wall_texture_u(hit: &RayHit) -> (r: i64)
    ensures
        hit.is_vertical ==> r == crate::fixed::spec_frac(hit.hit_y as int),
        !hit.is_vertical ==> r == crate::fixed::spec_frac(hit.hit_x as int),
        0 <= r < FP_ONE,
{
    if hit.is_vertical {
        crate::fixed::fp_frac(hit.hit_y)
    } else {
        crate::fixed::fp_frac(hit.hit_x)
    }
}

/// The signed projection of ray length t onto one axis, added to the
/// start coordinate.
fn ray_coord(p: i64, dir: i64, t: i64, fuel0: i64) -> (r: i64)
    requires
        0 <= p < 0x1000_0000_0000,
        -FP_ONE <= dir <= FP_ONE,
        0 <= t <= (fuel0 + 1) * 0x1_0000_0000,
        0 <= fuel0 <= 0x4000,
    ensures
        r == spec_ray_coord(p as int, dir as int, t as int),
{
    proof {
        assert((fuel0 + 1) * 0x1_0000_0000 <= 0x4001_0000_0000) by (nonlinear_arith)
            requires fuel0 <= 0x4000;
        assert(0 <= t * dir <= 0x4001_0000_0000_0000 || dir < 0) by (nonlinear_arith)
            requires 0 <= t <= 0x4001_0000_0000, -65536 <= dir <= 65536;
        assert(0 <= t * (-dir) <= 0x4001_0000_0000_0000 || dir >= 0) by (nonlinear_arith)
            requires 0 <= t <= 0x4001_0000_0000, -65536 <= dir <= 65536;
        if dir >= 0 {
            assert(t as int * dir <= FP_ONE as int * 0x4001_0000_0000) by (nonlinear_arith)
                requires 0 <= t <= 0x4001_0000_0000, dir <= 65536, FP_ONE == 65536i64;
            vstd::arithmetic::div_mod::lemma_div_pos_is_pos(t as int * dir, FP_ONE as int);
            vstd::arithmetic::div_mod::lemma_multiply_divide_le(
                t as int * dir, FP_ONE as int, 0x4001_0000_0000int);
        } else {
            assert(t as int * (-dir as int) <= FP_ONE as int * 0x4001_0000_0000)
                by (nonlinear_arith)
                requires 0 <= t <= 0x4001_0000_0000, -dir <= 65536, FP_ONE == 65536i64;
            vstd::arithmetic::div_mod::lemma_div_pos_is_pos(
                t as int * (-dir as int), FP_ONE as int);
            vstd::arithmetic::div_mod::lemma_multiply_divide_le(
                t as int * (-dir as int), FP_ONE as int, 0x4001_0000_0000int);
        }
    }
    if dir >= 0 {
        p + t * dir / FP_ONE
    } else {
        p - t * (-dir) / FP_ONE
    }
}

/// Ray length to the first grid line of one axis.
fn first_side_dist(p: i64, dir: i64, delta: i64) -> (r: i64)
    requires
        0 <= p < 0x1000_0000_0000,
        -FP_ONE <= dir <= FP_ONE,
        delta == spec_delta(dir as int),
        dir != 0 ==> FP_ONE <= delta <= 0x1_0000_0000,
        dir == 0 ==> delta == FP_INF,
    ensures
        r == spec_sd0(p as int, dir as int, delta as int),
        dir != 0 ==> 0 <= r <= 0x1_0000_0000,
        dir == 0 ==> r == FP_INF,
{
    if dir == 0 {
        return FP_INF;
    }
    proof {
        vstd::arithmetic::div_mod::lemma_div_pos_is_pos(p as int, FP_ONE as int);
        vstd::arithmetic::div_mod::lemma_fundamental_div_mod(p as int, FP_ONE as int);
        vstd::arithmetic::div_mod::lemma_mod_bound(p as int, FP_ONE as int);
        lemma_sd0_bounds(p as int, dir as int, delta as int);
    }
    let cell = p / FP_ONE;
    if dir > 0 {
        let frac = (cell + 1) * FP_ONE - p;
        proof {
            assert(1 <= frac <= FP_ONE) by (nonlinear_arith)
                requires p == FP_ONE as int * cell + p as int % (FP_ONE as int),
                    0 <= p as int % (FP_ONE as int) < FP_ONE,
                    frac == (cell + 1) * FP_ONE - p, FP_ONE == 65536i64;
            assert(0 <= frac * delta <= 65536 * 0x1_0000_0000i64) by (nonlinear_arith)
                requires 1 <= frac <= 65536, 0 < delta <= 0x1_0000_0000i64;
        }
        frac * delta / FP_ONE
    } else {
        let frac = p - cell * FP_ONE;
        proof {
            assert(0 <= frac < FP_ONE) by (nonlinear_arith)
                requires p == FP_ONE as int * cell + p as int % (FP_ONE as int),
                    0 <= p as int % (FP_ONE as int) < FP_ONE,
                    frac == p - cell * FP_ONE, FP_ONE == 65536i64;
            assert(0 <= frac * delta <= 65536 * 0x1_0000_0000i64) by (nonlinear_arith)
                requires 0 <= frac <= 65536, 0 < delta <= 0x1_0000_0000i64;
        }
        frac * delta / FP_ONE
    }
}

/// Cells left before the walk steps off the grid on one axis.
pub open spec fn axis_room(s: int, c: int, dim: int) -> int {
    if s == 1 {
        dim - c
    } else if s == -1 {
        c + 1
    } else {
        0
    }
}

/// A walk given fuel for the whole remaining room of the grid finds a
/// blocking cell before the fuel runs out: the implicit boundary wall
/// bounds every cast.
proof fn lemma_dda_hits(
    m: Seq<Seq<char>>,
    cx: int,
    cy: int,
    sdx: int,
    sdy: int,
    dx: int,
    dy: int,
    sx: int,
    sy: int,
    fuel: nat,
)
    requires
        maze_wf(m),
        0 <= cx < cols(m),
        0 <= cy < rows(m),
        sx == 1 || sx == -1 || sx == 0,
        sy == 1 || sy == -1 || sy == 0,
        sx != 0 || sy != 0,
        sx == 0 ==> sdx == FP_INF,
        sy == 0 ==> sdy == FP_INF,
        sx != 0 ==> 0 <= sdx && sdx + fuel * dx < FP_INF && dx >= 0,
        sy != 0 ==> 0 <= sdy && sdy + fuel * dy < FP_INF && dy >= 0,
        fuel >= axis_room(sx, cx, cols(m)) + axis_room(sy, cy, rows(m)),
    ensures
        !dda(m, cx, cy, sdx, sdy, dx, dy, sx, sy, fuel).exhausted,
    decreases fuel,
{
    if fuel == 0 {
        assert(false);
    } else if sdx < sdy {
        assert(sx != 0) by {
            if sx == 0 {
                assert(sdy > FP_INF);
                assert(sdy + fuel * dy < FP_INF);
                assert(fuel * dy >= 0) by (nonlinear_arith)
                    requires fuel >= 0, dy >= 0;
            }
        }
        let ncx = cx + sx;
        if !blocks(m, ncx, cy) {
            assert(0 <= ncx < cols(m));
            assert((fuel - 1) * dx == fuel * dx - dx) by (nonlinear_arith);
            assert((fuel - 1) * dy == fuel * dy - dy) by (nonlinear_arith);
            lemma_dda_hits(m, ncx, cy, sdx + dx, sdy, dx, dy, sx, sy, (fuel - 1) as nat);
        }
    } else {
        assert(sy != 0) by {
            if sy == 0 {
                assert(sdx >= FP_INF);
                assert(sdx + fuel * dx < FP_INF);
                assert(fuel * dx >= 0) by (nonlinear_arith)
                    requires fuel >= 0, dx >= 0;
            }
        }
        let ncy = cy + sy;
        if !blocks(m, cx, ncy) {
            assert(0 <= ncy < rows(m));
            assert((fuel - 1) * dx == fuel * dx - dx) by (nonlinear_arith);
            assert((fuel - 1) * dy == fuel * dy - dy) by (nonlinear_arith);
            lemma_dda_hits(m, cx, ncy, sdx, sdy + dy, dx, dy, sx, sy, (fuel - 1) as nat);
        }
    }
}

/// A finished walk that did not run out of fuel stopped in a blocking
/// cell.
proof fn lemma_dda_wall(
    m: Seq<Seq<char>>,
    cx: int,
    cy: int,
    sdx: int,
    sdy: int,
    dx: int,
    dy: int,
    sx: int,
    sy: int,
    fuel: nat,
)
    ensures
        ({
            let o = dda(m, cx, cy, sdx, sdy, dx, dy, sx, sy, fuel);
            o.exhausted || blocks(m, o.cx, o.cy)
        }),
    decreases fuel,
{
    if fuel > 0 {
        if sdx < sdy {
            if !blocks(m, cx + sx, cy) {
                lemma_dda_wall(m, cx + sx, cy, sdx + dx, sdy, dx, dy, sx, sy,
                    (fuel - 1) as nat);
            }
        } else {
            if !blocks(m, cx, cy + sy) {
                lemma_dda_wall(m, cx, cy + sy, sdx, sdy + dy, dx, dy, sx, sy,
                    (fuel - 1) as nat);
            }
        }
    }
}

/// A walk stepping rightward that ends on a vertical crossing reached it
/// after exactly as many vertical crossings as cell columns it advanced,
/// so the ray length there depends only on the hit column, not on the
/// horizontal crossings interleaved on the way.
proof fn lemma_dda_vertical_t(
    m: Seq<Seq<char>>,
    cx: int,
    cy: int,
    sdx: int,
    sdy: int,
    dx: int,
    dy: int,
    sy: int,
    fuel: nat,
)
    ensures
        ({
            let o = dda(m, cx, cy, sdx, sdy, dx, dy, 1, sy, fuel);
            o.exhausted || !o.vertical || o.t == sdx + (o.cx - cx - 1) * dx
        }),
    decreases fuel,
{
    let o = dda(m, cx, cy, sdx, sdy, dx, dy, 1, sy, fuel);
    if fuel > 0 {
        if sdx < sdy {
            if blocks(m, cx + 1, cy) {
                assert(o.t == sdx + (o.cx - cx - 1) * dx) by (nonlinear_arith)
                    requires o.t == sdx, o.cx == cx + 1;
            } else {
                lemma_dda_vertical_t(m, cx + 1, cy, sdx + dx, sdy, dx, dy, sy,
                    (fuel - 1) as nat);
                assert(o == dda(m, cx + 1, cy, sdx + dx, sdy, dx, dy, 1, sy,
                    (fuel - 1) as nat));
                if !o.exhausted && o.vertical {
                    assert((sdx + dx) + (o.cx - cx - 2) * dx == sdx + (o.cx - cx - 1) * dx)
                        by (nonlinear_arith);
                }
            }
        } else {
            if !blocks(m, cx, cy + sy) {
                lemma_dda_vertical_t(m, cx, cy + sy, sdx, sdy + dy, dx, dy, sy,
                    (fuel - 1) as nat);
            }
        }
    }
}

/// From any position inside the grid and at any angle, a cast stops
/// within the step budget, stops in a blocking cell, and reports a
/// positive finite distance.
pub proof fn lemma_cast_terminates(m: Seq<Seq<char>>, px: int, py: int, a: int, heading: int)
    requires
        maze_wf(m),
        0 <= px < cols(m) * FP_ONE,
        0 <= py < rows(m) * FP_ONE,
    ensures
        !spec_cast(m, px, py, a, heading).exhausted,
        blocks(m, spec_cast(m, px, py, a, heading).cell_x,
            spec_cast(m, px, py, a, heading).cell_y),
        spec_cast(m, px, py, a, heading).distance >= 1,
{
    let f = FP_ONE as int;
    let dirx = spec_cos(a);
    let diry = spec_sin(a);
    let dx = spec_delta(dirx);
    let dy = spec_delta(diry);
    let sx = spec_step_dir(dirx);
    let sy = spec_step_dir(diry);
    let sdx = spec_sd0(px, dirx, dx);
    let sdy = spec_sd0(py, diry, dy);
    let cx = px / f;
    let cy = py / f;
    let fuel = spec_fuel(m);
    crate::trig::lemma_sin_bounds(a);
    crate::trig::lemma_cos_bounds(a);
    crate::trig::lemma_dir_nonzero(a);
    vstd::arithmetic::div_mod::lemma_div_pos_is_pos(px, f);
    vstd::arithmetic::div_mod::lemma_div_pos_is_pos(py, f);
    assert(px < f * cols(m) && py < f * rows(m)) by (nonlinear_arith)
        requires px < cols(m) * f, py < rows(m) * f;
    vstd::arithmetic::div_mod::lemma_multiply_divide_lt(px, f, cols(m));
    vstd::arithmetic::div_mod::lemma_multiply_divide_lt(py, f, rows(m));
    if dirx != 0 {
        lemma_delta_bounds(dirx);
        lemma_sd0_bounds(px, dirx, dx);
    }
    if diry != 0 {
        lemma_delta_bounds(diry);
        lemma_sd0_bounds(py, diry, dy);
    }
    assert(fuel * dx <= 8196 * 0x1_0000_0000 || sx == 0) by (nonlinear_arith)
        requires fuel <= 8196, sx == 0 || 0 <= dx <= 0x1_0000_0000;
    assert(fuel * dy <= 8196 * 0x1_0000_0000 || sy == 0) by (nonlinear_arith)
        requires fuel <= 8196, sy == 0 || 0 <= dy <= 0x1_0000_0000;
    assert(fuel * dx >= 0 || sx == 0) by (nonlinear_arith)
        requires fuel >= 0, sx == 0 || dx >= 0;
    assert(fuel * dy >= 0 || sy == 0) by (nonlinear_arith)
        requires fuel >= 0, sy == 0 || dy >= 0;
    lemma_dda_hits(m, cx, cy, sdx, sdy, dx, dy, sx, sy, fuel);
    lemma_dda_wall(m, cx, cy, sdx, sdy, dx, dy, sx, sy, fuel);
    let o = dda(m, cx, cy, sdx, sdy, dx, dy, sx, sy, fuel);
    let perp = o.t * spec_cos(a - heading);
    if perp >= f {
        vstd::arithmetic::div_mod::lemma_div_non_zero(perp, f);
    }
}

/// A cast is periodic in the ray angle with period exactly one
/// revolution.
pub proof fn lemma_cast_periodic(m: Seq<Seq<char>>, px: int, py: int, a: int, heading: int)
    ensures
        spec_cast(m, px, py, a + FULL_TURN, heading) == spec_cast(m, px, py, a, heading),
{
    crate::trig::lemma_sin_periodic(a);
    crate::trig::lemma_cos_periodic(a);
    crate::trig::lemma_cos_periodic(a - heading);
    assert((a + FULL_TURN) - heading == (a - heading) + FULL_TURN);
    assert(spec_cos(a + FULL_TURN) == spec_cos(a));
    assert(spec_sin(a + FULL_TURN) == spec_sin(a));
}

/// A ray whose first grid-line crossing is vertical, into a blocking
/// cell, is flagged vertical, and its hit cell is the horizontally
/// adjacent one.
pub proof fn lemma_vertical_first(m: Seq<Seq<char>>, px: int, py: int, a: int, heading: int)
    requires
        maze_wf(m),
        ({
            let dirx = spec_cos(a);
            let diry = spec_sin(a);
            spec_sd0(px, dirx, spec_delta(dirx)) < spec_sd0(py, diry, spec_delta(diry))
        }),
        blocks(m, px / (FP_ONE as int) + spec_step_dir(spec_cos(a)), py / (FP_ONE as int)),
    ensures
        spec_cast(m, px, py, a, heading).vertical,
        spec_cast(m, px, py, a, heading).cell_x == px / (FP_ONE as int) + spec_step_dir(
            spec_cos(a)),
        spec_cast(m, px, py, a, heading).t == spec_sd0(px, spec_cos(a), spec_delta(
            spec_cos(a))),
{
    assert(spec_fuel(m) > 0);
}

/// A ray whose first grid-line crossing is horizontal (or exactly tied),
/// into a blocking cell, is flagged horizontal.
pub proof fn lemma_horizontal_first(m: Seq<Seq<char>>, px: int, py: int, a: int,
    heading: int)
    requires
        maze_wf(m),
        ({
            let dirx = spec_cos(a);
            let diry = spec_sin(a);
            spec_sd0(py, diry, spec_delta(diry)) <= spec_sd0(px, dirx, spec_delta(dirx))
        }),
        blocks(m, px / (FP_ONE as int), py / (FP_ONE as int) + spec_step_dir(spec_sin(a))),
    ensures
        !spec_cast(m, px, py, a, heading).vertical,
        spec_cast(m, px, py, a, heading).cell_y == py / (FP_ONE as int) + spec_step_dir(
            spec_sin(a)),
        spec_cast(m, px, py, a, heading).t == spec_sd0(py, spec_sin(a), spec_delta(
            spec_sin(a))),
{
    assert(spec_fuel(m) > 0);
}

/// Fisheye correction: two rays at angles symmetric about the heading
/// that stop on a vertical crossing into the same wall column report
/// exactly equal corrected distances, though their ray lengths differ.
pub proof fn lemma_fisheye_symmetric(m: Seq<Seq<char>>, px: int, py: int, d: int, k: int)
    requires
        maze_wf(m),
        0 < d < crate::trig::QUARTER_TURN,
        ({
            let c1 = spec_cast(m, px, py, d, 0);
            c1.vertical && !c1.exhausted && c1.cell_x == k
        }),
        ({
            let c2 = spec_cast(m, px, py, -d, 0);
            c2.vertical && !c2.exhausted && c2.cell_x == k
        }),
    ensures
        spec_cast(m, px, py, d, 0).distance == spec_cast(m, px, py, -d, 0).distance,
{
    let f = FP_ONE as int;
    crate::trig::lemma_cos_even(d);
    crate::trig::lemma_cos_pos(d);
    let dirx = spec_cos(d);
    let dx = spec_delta(dirx);
    let sdx = spec_sd0(px, dirx, dx);
    let cx = px / f;
    let dy1 = spec_delta(spec_sin(d));
    let dy2 = spec_delta(spec_sin(-d));
    lemma_dda_vertical_t(m, cx, py / f, sdx, spec_sd0(py, spec_sin(d), dy1), dx, dy1,
        spec_step_dir(spec_sin(d)), spec_fuel(m));
    lemma_dda_vertical_t(m, cx, py / f, sdx, spec_sd0(py, spec_sin(-d), dy2), dx, dy2,
        spec_step_dir(spec_sin(-d)), spec_fuel(m));
    let o1 = dda(m, cx, py / f, sdx, spec_sd0(py, spec_sin(d), dy1), dx, dy1, 1,
        spec_step_dir(spec_sin(d)), spec_fuel(m));
    let o2 = dda(m, cx, py / f, sdx, spec_sd0(py, spec_sin(-d), dy2), dx, dy2, 1,
        spec_step_dir(spec_sin(-d)), spec_fuel(m));
    assert(o1.t == sdx + (k - cx - 1) * dx);
    assert(o2.t == sdx + (k - cx - 1) * dx);
    assert(spec_cos(d - 0) == spec_cos(-d - 0));
}

/// Bounds of the per-cell crossing increment for a non-parallel axis.
proof fn lemma_delta_bounds(dir: int)
    requires
        dir != 0,
        -FP_ONE <= dir <= FP_ONE,
    ensures
        FP_ONE <= spec_delta(dir) <= 0x1_0000_0000,
{
    let f = FP_ONE as int;
    let a = if dir > 0 { dir } else { -dir };
    assert(1 <= a <= f);
    assert(spec_delta(dir) == (f * f) / a);
    vstd::arithmetic::div_mod::lemma_multiply_divide_le(f * f, a, 0x1_0000_0000);
    assert(f * f <= a * 0x1_0000_0000) by (nonlinear_arith)
        requires 1 <= a, f == 65536;
    assert((f * f) / a >= (f * f) / f) by {
        vstd::arithmetic::div_mod::lemma_div_is_ordered_by_denominator(f * f, a, f);
    }
    assert((f * f) / f == f) by {
        vstd::arithmetic::div_mod::lemma_div_by_multiple(f, f);
    }
}

/// Bounds of the first-crossing distance for a non-parallel axis.
proof fn lemma_sd0_bounds(p: int, dir: int, delta: int)
    requires
        dir != 0,
        p >= 0,
        FP_ONE <= delta <= 0x1_0000_0000,
        delta == spec_delta(dir),
    ensures
        0 <= spec_sd0(p, dir, delta) <= 0x1_0000_0000,
{
    let f = FP_ONE as int;
    let cell = p / f;
    vstd::arithmetic::div_mod::lemma_fundamental_div_mod(p, f);
    vstd::arithmetic::div_mod::lemma_mod_bound(p, f);
    if dir > 0 {
        let frac = (cell + 1) * f - p;
        assert(1 <= frac <= f) by (nonlinear_arith)
            requires p == f * cell + p % f, 0 <= p % f < f, frac == (cell + 1) * f - p,
                f == 65536;
        assert(frac * delta <= f * 0x1_0000_0000) by (nonlinear_arith)
            requires 1 <= frac <= f, FP_ONE <= delta <= 0x1_0000_0000, f == 65536;
        vstd::arithmetic::div_mod::lemma_div_pos_is_pos(frac * delta, f);
        vstd::arithmetic::div_mod::lemma_multiply_divide_le(frac * delta, f, 0x1_0000_0000);
    } else {
        let frac = p - cell * f;
        assert(0 <= frac < f) by (nonlinear_arith)
            requires p == f * cell + p % f, 0 <= p % f < f, frac == p - cell * f,
                f == 65536;
        assert(frac * delta <= f * 0x1_0000_0000) by (nonlinear_arith)
            requires 0 <= frac <= f, FP_ONE <= delta <= 0x1_0000_0000, f == 65536;
        vstd::arithmetic::div_mod::lemma_div_pos_is_pos(frac * delta, f);
        vstd::arithmetic::div_mod::lemma_multiply_divide_le(frac * delta, f, 0x1_0000_0000);
    }
}

} // verus!

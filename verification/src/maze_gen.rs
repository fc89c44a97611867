//! The maze generator: a randomized depth-first carve over a cell grid,
//! written with an explicit stack and a visited grid so the walk cannot
//! overflow the call stack on large mazes.

use vstd::prelude::*;
use rand::seq::SliceRandom;
use rand::Rng;
use crate::maze::{mview, maze_wf};

verus! {

/// The symbols a generated maze is built from.
pub open spec fn gen_char(c: char) -> bool {
    c == '+' || c == '|' || c == ' ' || c == '\n' || c == 'p' || c == 'g'
}

#[verifier::external_type_specification]
#[verifier::external_body]
pub struct ExThreadRng(rand::rngs::ThreadRng);

/// Relies on rand::thread_rng: a handle to the thread-local generator.
#[verifier::external_body]
fn new_rng() -> rand::rngs::ThreadRng {
    rand::thread_rng()
}

/// Relies on rand::Rng::gen_range on a half-open range: a uniform draw
/// strictly below the bound.
#[verifier::external_body]
fn rand_below(rng: &mut rand::rngs::ThreadRng, n: usize) -> (r: usize)
    requires
        n >= 1,
    ensures
        r < n,
{
    rng.gen_range(0..n)
}

/// Relies on rand::seq::SliceRandom::shuffle: the elements are permuted
/// in place, so the same elements remain, in some order.
#[verifier::external_body]
fn shuffle_dirs(rng: &mut rand::rngs::ThreadRng, d: &mut Vec<(usize, usize)>)
    ensures
        final(d)@.to_multiset() == old(d)@.to_multiset(),
        final(d)@.len() == old(d)@.len(),
{
    d.shuffle(rng)
}

/// A row of `n` copies of one symbol.
fn filled_row(c: char, n: usize) -> (r: Vec<char>)
    ensures
        r@.len() == n,
        forall|j: int| 0 <= j < n ==> r@[j] == c,
{
    let mut r: Vec<char> = Vec::new();
    let mut i: usize = 0;
    while i < n
        invariant
            0 <= i <= n,
            r@.len() == i,
            forall|j: int| 0 <= j < i ==> r@[j] == c,
        decreases n - i,
    {
        r.push(c);
        i = i + 1;
    }
    r
}

/// A grid of `rows` rows of `cols` copies of one symbol.
fn filled_grid(c: char, rows_n: usize, cols_n: usize) -> (g: Vec<Vec<char>>)
    ensures
        g@.len() == rows_n,
        forall|i: int| 0 <= i < rows_n ==> (#[trigger] g@[i])@.len() == cols_n,
        forall|i: int, j: int| 0 <= i < rows_n && 0 <= j < cols_n
            ==> #[trigger] (g@[i])@[j] == c,
{
    let mut g: Vec<Vec<char>> = Vec::new();
    let mut i: usize = 0;
    while i < rows_n
        invariant
            0 <= i <= rows_n,
            g@.len() == i,
            forall|k: int| 0 <= k < i ==> (#[trigger] g@[k])@.len() == cols_n,
            forall|k: int, j: int| 0 <= k < i && 0 <= j < cols_n
                ==> #[trigger] (g@[k])@[j] == c,
        decreases rows_n - i,
    {
        g.push(filled_row(c, cols_n));
        i = i + 1;
    }
    g
}

/// Writes one symbol into a grid cell.
fn set_cell(g: &mut Vec<Vec<char>>, y: usize, x: usize, c: char)
    requires
        y < old(g)@.len(),
        x < old(g)@[y as int]@.len(),
    ensures
        final(g)@.len() == old(g)@.len(),
        final(g)@[y as int]@ == old(g)@[y as int]@.update(x as int, c),
        final(g)@[y as int]@.len() == old(g)@[y as int]@.len(),
        forall|i: int| 0 <= i < old(g)@.len() && i != y ==> final(g)@[i] == old(g)@[i],
{
    let row = &mut g[y];
    row.set(x, c);
}

/// Marks one visited-grid cell.
fn set_vis(g: &mut Vec<Vec<u8>>, y: usize, x: usize)
    requires
        y < old(g)@.len(),
        x < old(g)@[y as int]@.len(),
    ensures
        final(g)@.len() == old(g)@.len(),
        final(g)@[y as int]@ == old(g)@[y as int]@.update(x as int, 1u8),
        forall|i: int| 0 <= i < old(g)@.len() && i != y ==> final(g)@[i] == old(g)@[i],
{
    let row = &mut g[y];
    row.set(x, 1);
}

/// A wall grid holds only generator symbols of the right width.
spec fn grid_ok(g: Seq<Vec<char>>, rows_n: int, cols_n: int) -> bool {
    &&& g.len() == rows_n
    &&& forall|i: int| 0 <= i < rows_n ==> (#[trigger] g[i])@.len() == cols_n
    &&& forall|i: int, j: int| 0 <= i < rows_n && 0 <= j < cols_n
        ==> gen_char(#[trigger] (g[i])@[j])
}

/// Generates a maze of `w` by `h` generator cells by a randomized
/// depth-first carve, then interleaves the horizontal and vertical wall
/// rows into the textual maze grid and places the start and goal
/// markers.
pub fn make_maze(w: usize, h: usize) -> (maze: Vec<Vec<char>>)
    requires
        1 <= w <= 2000,
        1 <= h <= 2000,
    ensures
        maze@.len() == 2 * h,
        forall|i: int| 0 <= i < maze@.len() ==> (#[trigger] maze@[i])@.len() == w + 2,
        maze_wf(mview(maze@)),
        maze@[1]@[1] == 'p',
        maze@[2 * h - 2]@[w as int] == 'g',
        forall|i: int, j: int| 0 <= i < maze@.len() && 0 <= j < w + 2
            ==> gen_char(#[trigger] (maze@[i])@[j]),
{
    let mut vis = filled_vis(h, w);
    let mut ver = filled_grid('|', h, w + 1);
    let mut hor = filled_grid('+', h + 1, w + 1);
    let mut rng = new_rng();
    let start_x = rand_below(&mut rng, w);
    let start_y = rand_below(&mut rng, h);

    // Each visited cell contributes one stack frame holding its four
    // neighbours in shuffled order and the next neighbour to try. Every
    // loop pass either advances a frame, pushes a new one for a freshly
    // visited cell, or pops a finished frame, so the pass count is
    // bounded by the cell count.
    let mut stack: Vec<(usize, usize, Vec<(usize, usize)>, usize)> = Vec::new();
    let mut d0: Vec<(usize, usize)> = Vec::new();
    d0.push((start_x.wrapping_sub(1), start_y));
    d0.push((start_x, start_y + 1));
    d0.push((start_x + 1, start_y));
    d0.push((start_x, start_y.wrapping_sub(1)));
    shuffle_dirs(&mut rng, &mut d0);
    set_vis(&mut vis, start_y, start_x);
    stack.push((start_x, start_y, d0, 0));
    proof {
        assert(5 * w * h + 5 <= 20_000_005) by (nonlinear_arith)
            requires 1 <= w <= 2000, 1 <= h <= 2000;
    }
    let mut budget: usize = 5 * w * h + 5;
    while budget > 0 && stack.len() > 0
        invariant
            grid_ok(ver@, h as int, (w + 1) as int),
            grid_ok(hor@, (h + 1) as int, (w + 1) as int),
            vis@.len() == h,
            forall|i: int| 0 <= i < h ==> (#[trigger] vis@[i])@.len() == w,
            forall|k: int| 0 <= k < stack@.len() ==> (#[trigger] stack@[k]).0 < w
                && stack@[k].1 < h && stack@[k].2@.len() == 4,
            1 <= w <= 2000,
            1 <= h <= 2000,
        decreases budget,
    {
        budget = budget - 1;
        let top = stack.len() - 1;
        let (x, y, dirs, i) = {
            let t = &stack[top];
            (t.0, t.1, t.2.clone(), t.3)
        };
        if i >= dirs.len() {
            let _ = stack.pop();
            continue;
        }
        let st = stack.pop().unwrap();
        stack.push((st.0, st.1, st.2, i + 1));
        let (xx, yy) = dirs[i];
        if yy < h && xx < w && vis[yy][xx] != 0 {
            continue;
        }
        if xx == x && yy < hor.len() {
            let my = if y > yy {
                y
            } else {
                yy
            };
            set_cell(&mut hor, my, x, ' ');
        }
        if yy == y && xx < ver[y].len() {
            let mx = if x > xx {
                x
            } else {
                xx
            };
            set_cell(&mut ver, y, mx, ' ');
        }
        if yy < h && xx < w {
            set_vis(&mut vis, yy, xx);
            let mut d: Vec<(usize, usize)> = Vec::new();
            d.push((xx.wrapping_sub(1), yy));
            d.push((xx, yy + 1));
            d.push((xx + 1, yy));
            d.push((xx, yy.wrapping_sub(1)));
            shuffle_dirs(&mut rng, &mut d);
            stack.push((xx, yy, d, 0));
        }
    }

    // Interleave one horizontal wall row and one cell row per generator
    // row, each line ended like a written maze file.
    let mut maze: Vec<Vec<char>> = Vec::new();
    let mut r: usize = 0;
    while r < h
        invariant
            grid_ok(ver@, h as int, (w + 1) as int),
            grid_ok(hor@, (h + 1) as int, (w + 1) as int),
            0 <= r <= h,
            maze@.len() == 2 * r,
            1 <= w <= 2000,
            1 <= h <= 2000,
            forall|i: int| 0 <= i < maze@.len() ==> (#[trigger] maze@[i])@.len() == w + 2,
            forall|i: int, j: int| 0 <= i < maze@.len() && 0 <= j < w + 2
                ==> gen_char(#[trigger] (maze@[i])@[j]),
        decreases h - r,
    {
        let mut line_a = hor[r].clone();
        line_a.push('\n');
        let mut line_b = ver[r].clone();
        line_b.push('\n');
        proof {
            assert(line_a@ == hor@[r as int]@.push('\n'));
            assert(line_b@ == ver@[r as int]@.push('\n'));
        }
        maze.push(line_a);
        maze.push(line_b);
        r = r + 1;
    }
    set_cell(&mut maze, 1, 1, 'p');
    let last_row = maze.len() - 2;
    let last_col = w;
    set_cell(&mut maze, last_row, last_col, 'g');
    proof {
        assert forall|i: int| 0 <= i < mview(maze@).len()
            implies (#[trigger] mview(maze@)[i]).len() == mview(maze@)[0].len() by {
            assert(mview(maze@)[i] == maze@[i]@);
            assert(mview(maze@)[0] == maze@[0]@);
        }
    }
    maze
}

/// A zeroed visited grid.
fn filled_vis(rows_n: usize, cols_n: usize) -> (g: Vec<Vec<u8>>)
    ensures
        g@.len() == rows_n,
        forall|i: int| 0 <= i < rows_n ==> (#[trigger] g@[i])@.len() == cols_n,
{
    let mut g: Vec<Vec<u8>> = Vec::new();
    let mut i: usize = 0;
    while i < rows_n
        invariant
            0 <= i <= rows_n,
            g@.len() == i,
            forall|k: int| 0 <= k < i ==> (#[trigger] g@[k])@.len() == cols_n,
        decreases rows_n - i,
    {
        let mut row: Vec<u8> = Vec::new();
        let mut j: usize = 0;
        while j < cols_n
            invariant
                0 <= j <= cols_n,
                row@.len() == j,
            decreases cols_n - j,
        {
            row.push(0);
            j = j + 1;
        }
        g.push(row);
        i = i + 1;
    }
    g
}

} // verus!

//! The grid maze: a rectangular array of cell symbols.
//!
//! A cell symbol is a wall marker (`'|'`, `'-'`, `'+'`, the goal wall
//! `'g'`), the open floor `' '`, or the start marker `'p'`. Coordinates are
//! cell-indexed; fixed-point coordinates carry the sub-cell position.

use vstd::prelude::*;

verus! {

/// Largest accepted maze dimension, in cells.
pub const MAX_DIM: usize = 4096;

/// The mathematical view of a maze: one sequence of characters per row.
pub open spec fn mview(m: Seq<Vec<char>>) -> Seq<Seq<char>> {
    Seq::new(m.len(), |i: int| m[i]@)
}

/// A well-formed maze is rectangular and of bounded, non-zero size.
pub open spec fn maze_wf(m: Seq<Seq<char>>) -> bool {
    &&& 1 <= m.len() <= MAX_DIM
    &&& 1 <= m[0].len() <= MAX_DIM
    &&& forall|i: int| 0 <= i < m.len() ==> (#[trigger] m[i]).len() == m[0].len()
}

/// Number of cell rows.
pub open spec fn rows(m: Seq<Seq<char>>) -> int {
    m.len() as int
}

/// Number of cell columns.
pub open spec fn cols(m: Seq<Seq<char>>) -> int {
    m[0].len() as int
}

/// Every symbol but the open floor and the start marker blocks a ray.
pub open spec fn is_wall_char(c: char) -> bool {
    !(c == ' ' || c == 'p')
}

/// The symbol a ray finds in a cell: outside the grid stands an implicit
/// boundary wall.
pub open spec fn spec_cell_symbol(m: Seq<Seq<char>>, x: int, y: int) -> char {
    if 0 <= y < rows(m) && 0 <= x < cols(m) {
        m[y][x]
    } else {
        '+'
    }
}

/// Whether a ray entering cell (x, y) stops there.
pub open spec fn blocks(m: Seq<Seq<char>>, x: int, y: int) -> bool {
    is_wall_char(spec_cell_symbol(m, x, y))
}

/// Runtime gate for the maze invariant the renderer requires.
pub fn maze_is_well_formed(maze: &Vec<Vec<char>>) -> (r: bool)
    ensures
        r == maze_wf(mview(maze@)),
{
    if maze.len() < 1 || maze.len() > MAX_DIM {
        return false;
    }
    let w = maze[0].len();
    if w < 1 || w > MAX_DIM {
        return false;
    }
    let mut i: usize = 1;
    while i < maze.len()
        invariant
            1 <= i <= maze@.len(),
            1 <= w <= MAX_DIM,
            1 <= maze@.len() <= MAX_DIM,
            w == maze@[0]@.len(),
            forall|j: int| 0 <= j < i ==> (#[trigger] maze@[j])@.len() == w,
        decreases maze@.len() - i,
    {
        if maze[i].len() != w {
            proof {
                assert(mview(maze@)[i as int].len() != mview(maze@)[0].len());
            }
            return false;
        }
        i = i + 1;
    }
    proof {
        assert forall|j: int| 0 <= j < mview(maze@).len()
            implies (#[trigger] mview(maze@)[j]).len() == mview(maze@)[0].len() by {
            assert(mview(maze@)[j] == maze@[j]@);
        }
    }
    true
}

/// Whether the given symbol blocks a ray.
pub fn is_wall(c: char) -> (r: bool)
    ensures
        r == is_wall_char(c),
{
    !(c == ' ' || c == 'p')
}

/// The symbol at a cell, with the implicit boundary wall outside the grid.
pub fn cell_symbol(maze: &Vec<Vec<char>>, x: i64, y: i64) -> (r: char)
    requires
        maze_wf(mview(maze@)),
    ensures
        r == spec_cell_symbol(mview(maze@), x as int, y as int),
{
    let rows_n = maze.len() as i64;
    if y < 0 || y >= rows_n {
        return '+';
    }
    let row = &maze[y as usize];
    proof {
        assert(mview(maze@)[y as int] == maze@[y as int]@);
        assert(mview(maze@)[0] == maze@[0]@);
    }
    if x < 0 || x >= row.len() as i64 {
        '+'
    } else {
        row[x as usize]
    }
}

} // verus!

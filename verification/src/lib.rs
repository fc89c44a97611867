//! A first-person maze renderer: ray casting against a 2D grid.
//!
//! Geometry is fixed-point throughout (`fixed`), with trigonometry over
//! binary angles (`trig`). A frame is produced column by column: the
//! caster (`raycast`) finds the first wall each ray strikes, the column
//! renderer (`render`) projects it as a textured stake with
//! perspective-correct floor below, and the sprite compositor
//! (`sprites`) draws billboards against the per-column depth buffer.
//! The top-down views (`view2d`), scaled blits (`blit`) and the maze
//! generator (`maze_gen`) round out the world.

use vstd::prelude::*;

pub mod blit;
pub mod fixed;
pub mod maze;
pub mod maze_gen;
pub mod player;
pub mod raycast;
pub mod render;
pub mod sprites;
pub mod texture;
pub mod view2d;
pub mod trig;

verus! {

/// Width of the framebuffer in pixels.
pub const WIDTH: usize = 1040;

/// Height of the framebuffer in pixels.
pub const HEIGHT: usize = 900;

} // verus!

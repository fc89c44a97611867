use raycaster::{WIDTH, HEIGHT};
use raycaster::fixed::{FP_ONE, isqrt, fp_frac, fp_mul};
use raycaster::trig::{FULL_TURN, HALF_TURN, QUARTER_TURN, sin_fp, cos_fp, atan2_fp,
    normalize_angle};
use raycaster::maze::{maze_is_well_formed, is_wall, cell_symbol};
use raycaster::maze_gen::make_maze;
use raycaster::player::{Player, update_player, MOVE_SPEED};
use raycaster::view2d::{render_minimap, render2d, draw_cell, fill_rect};
use raycaster::blit::{scaled_fit, blit_scaled};
use raycaster::texture::Texture;

fn open_room(side: usize) -> Vec<Vec<char>> {
    let dim = side + 2;
    let mut maze = Vec::new();
    for y in 0..dim {
        let mut row = Vec::new();
        for x in 0..dim {
            if y == 0 || y == dim - 1 || x == 0 || x == dim - 1 {
                row.push('+');
            } else {
                row.push(' ');
            }
        }
        maze.push(row);
    }
    maze
}

#[test]
fn trig_is_exact_at_axis_angles() {
    assert_eq!(sin_fp(0), 0);
    assert_eq!(sin_fp(QUARTER_TURN), FP_ONE);
    assert_eq!(sin_fp(HALF_TURN), 0);
    assert_eq!(sin_fp(3 * QUARTER_TURN), -FP_ONE);
    assert_eq!(cos_fp(0), FP_ONE);
    assert_eq!(cos_fp(QUARTER_TURN), 0);
    assert_eq!(cos_fp(HALF_TURN), -FP_ONE);
    assert_eq!(cos_fp(-QUARTER_TURN), 0);
}

#[test]
fn trig_symmetries_hold() {
    for a in [1i64, 977, 5000, 12288, 20000, 40000] {
        assert_eq!(cos_fp(a), cos_fp(-a));
        assert_eq!(sin_fp(a), -sin_fp(-a));
        assert_eq!(sin_fp(a + FULL_TURN), sin_fp(a));
        assert_eq!(cos_fp(a + FULL_TURN), cos_fp(a));
    }
}

#[test]
fn normalize_angle_wraps_into_one_turn() {
    assert_eq!(normalize_angle(0), 0);
    assert_eq!(normalize_angle(FULL_TURN), 0);
    assert_eq!(normalize_angle(-1), FULL_TURN - 1);
    assert_eq!(normalize_angle(FULL_TURN + 5), 5);
    assert_eq!(normalize_angle(-FULL_TURN - 5), FULL_TURN - 5);
}

#[test]
fn atan2_octants() {
    assert_eq!(atan2_fp(0, 1000), 0);
    assert_eq!(atan2_fp(1000, 0), QUARTER_TURN);
    assert_eq!(atan2_fp(0, -1000), HALF_TURN);
    assert_eq!(atan2_fp(-1000, 0), -QUARTER_TURN);
    assert_eq!(atan2_fp(1000, 1000), atan2_fp(2000, 2000));
    assert!(atan2_fp(1000, 1000) > 0);
    assert!(atan2_fp(-1000, 1000) < 0);
}

#[test]
fn integer_square_root_is_exact() {
    assert_eq!(isqrt(0), 0);
    assert_eq!(isqrt(1), 1);
    assert_eq!(isqrt(15), 3);
    assert_eq!(isqrt(16), 4);
    assert_eq!(isqrt(229376 * 229376), 229376);
    assert_eq!(isqrt(229376 * 229376 + 1), 229376);
}

#[test]
fn fixed_point_helpers() {
    assert_eq!(fp_frac(360448), 32768);
    assert_eq!(fp_frac(-5), 0);
    assert_eq!(fp_mul(FP_ONE, FP_ONE), FP_ONE);
    assert_eq!(fp_mul(FP_ONE / 2, 6554), 3277);
    assert_eq!(fp_mul(-FP_ONE, 6554), -6554);
}

#[test]
fn generated_maze_has_shape_and_markers() {
    let maze = make_maze(10, 8);
    assert_eq!(maze.len(), 16);
    for row in maze.iter() {
        assert_eq!(row.len(), 12);
    }
    assert!(maze_is_well_formed(&maze));
    assert_eq!(maze[1][1], 'p');
    assert_eq!(maze[14][10], 'g');
    for row in maze.iter() {
        for &c in row.iter() {
            assert!(c == '+' || c == '|' || c == ' ' || c == '\n' || c == 'p' || c == 'g');
        }
    }
}

#[test]
fn wall_classification() {
    assert!(is_wall('+'));
    assert!(is_wall('|'));
    assert!(is_wall('-'));
    assert!(is_wall('g'));
    assert!(is_wall('\n'));
    assert!(!is_wall(' '));
    assert!(!is_wall('p'));
}

#[test]
fn out_of_bounds_cells_are_walls() {
    let maze = open_room(4);
    assert_eq!(cell_symbol(&maze, -1, 0), '+');
    assert_eq!(cell_symbol(&maze, 0, 99), '+');
    assert_eq!(cell_symbol(&maze, 2, 2), ' ');
    assert_eq!(cell_symbol(&maze, 0, 0), '+');
}

#[test]
fn movement_advances_along_heading() {
    let maze = open_room(10);
    let mut p = Player { pos_x: 5 * FP_ONE, pos_y: 5 * FP_ONE, a: 0, fov: 16384 };
    let moved = update_player(&mut p, &maze, false, false, true, false);
    assert!(moved);
    assert_eq!(p.pos_x, 5 * FP_ONE + MOVE_SPEED);
    assert_eq!(p.pos_y, 5 * FP_ONE);
}

#[test]
fn movement_into_wall_is_blocked() {
    let maze = open_room(10);
    // A step east from just inside the east wall would enter the wall
    // cell: the position must not change.
    let mut p = Player { pos_x: 10 * FP_ONE + 60000, pos_y: 5 * FP_ONE, a: 0, fov: 16384 };
    let moved = update_player(&mut p, &maze, false, false, true, false);
    assert!(moved);
    assert_eq!(p.pos_x, 10 * FP_ONE + 60000);
    assert_eq!(p.pos_y, 5 * FP_ONE);
}

#[test]
fn rotation_changes_heading_only() {
    let maze = open_room(10);
    let mut p = Player { pos_x: 5 * FP_ONE, pos_y: 5 * FP_ONE, a: 0, fov: 16384 };
    let moved = update_player(&mut p, &maze, true, false, false, false);
    assert!(!moved);
    assert_eq!(p.a, FULL_TURN - 1638);
    assert_eq!(p.pos_x, 5 * FP_ONE);
    let moved2 = update_player(&mut p, &maze, false, true, false, false);
    assert!(!moved2);
    assert_eq!(p.a, 0);
}

#[test]
fn minimap_draws_cells_and_marker() {
    let maze = open_room(4);
    let player = Player { pos_x: 3 * FP_ONE, pos_y: 3 * FP_ONE, a: 0, fov: 16384 };
    let bg = 0x445566;
    let mut fb: Vec<u32> = vec![bg; WIDTH * HEIGHT];
    render_minimap(&mut fb, &maze, &player, 80);
    // A border wall cell is white, an open cell black.
    assert_eq!(fb[15 * WIDTH + 15], 0xFFFFFF);
    assert_eq!(fb[35 * WIDTH + 35], 0x000000);
    // The player marker at (10 + 60, 10 + 60) is red.
    assert_eq!(fb[70 * WIDTH + 70], 0xFF0000);
    // Far from the minimap the frame is untouched.
    assert_eq!(fb[500 * WIDTH + 500], bg);
}

#[test]
fn two_d_view_draws_cells_and_player() {
    let maze = open_room(4);
    let player = Player { pos_x: 3 * FP_ONE, pos_y: 3 * FP_ONE, a: 0, fov: 16384 };
    let bg = 0x445566;
    let mut fb: Vec<u32> = vec![bg; WIDTH * HEIGHT];
    render2d(&mut fb, &maze, 80, &player);
    // Cell (0, 0) is a wall with even parity: the first checker colour.
    assert_eq!(fb[10 * WIDTH + 10], 0xFF5733);
    // Cell (1, 0) is a wall with odd parity: the second checker colour.
    assert_eq!(fb[10 * WIDTH + 90], 0x3498DB);
    // An open cell is black.
    assert_eq!(fb[100 * WIDTH + 100], 0x000000);
    // The player square at (240, 240) is red.
    assert_eq!(fb[245 * WIDTH + 245], 0xFF0000);
}

#[test]
fn draw_cell_colors() {
    let mut fb: Vec<u32> = vec![0; WIDTH * HEIGHT];
    draw_cell(&mut fb, 0, 0, 10, 'p', 0, 0);
    assert_eq!(fb[5 * WIDTH + 5], 0xFF0000);
    draw_cell(&mut fb, 20, 0, 10, 'g', 0, 2);
    assert_eq!(fb[5 * WIDTH + 25], 0x00FF00);
    draw_cell(&mut fb, 40, 0, 10, '+', 1, 2);
    assert_eq!(fb[5 * WIDTH + 45], 0x3498DB);
}

#[test]
fn fill_rect_clips_to_frame() {
    let mut fb: Vec<u32> = vec![7; WIDTH * HEIGHT];
    fill_rect(&mut fb, WIDTH - 5, HEIGHT - 5, 100, 100, 9);
    assert_eq!(fb[(HEIGHT - 1) * WIDTH + WIDTH - 1], 9);
    assert_eq!(fb[(HEIGHT - 6) * WIDTH + WIDTH - 1], 7);
}

#[test]
fn scaled_blit_fits_and_samples() {
    // A 2 x 1 image fits the frame width-limited: 1040 x 520.
    let (sw, sh) = scaled_fit(2, 1);
    assert_eq!(sw, 1040);
    assert_eq!(sh, 520);
    let tex = Texture::new(2, 1, vec![0xAA, 0xBB]).unwrap();
    let mut fb: Vec<u32> = vec![0; WIDTH * HEIGHT];
    blit_scaled(&mut fb, &tex, 0, 100, sw, sh);
    assert_eq!(fb[150 * WIDTH + 10], 0xAA);
    assert_eq!(fb[150 * WIDTH + 1000], 0xBB);
    assert_eq!(fb[50 * WIDTH + 10], 0);
}

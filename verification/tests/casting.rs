use raycaster::fixed::FP_ONE;
use raycaster::trig::FULL_TURN;
use raycaster::player::Player;
use raycaster::raycast::{cast_ray, wall_texture_u};

/// A square room of open cells `side` by `side`, bordered by walls.
fn open_room(side: usize) -> Vec<Vec<char>> {
    let dim = side + 2;
    let mut maze = Vec::new();
    for y in 0..dim {
        let mut row = Vec::new();
        for x in 0..dim {
            if y == 0 || y == dim - 1 || x == 0 || x == dim - 1 {
                row.push('+');
            } else {
                row.push(' ');
            }
        }
        maze.push(row);
    }
    maze
}

#[test]
fn center_ray_distance_equals_euclidean() {
    // Camera at the centre of a 10 x 10 open room, facing the east wall:
    // the centre ray has zero offset from the heading, so the corrected
    // distance equals the Euclidean distance, exactly 5.5 cells.
    let maze = open_room(10);
    let player = Player { pos_x: 360448, pos_y: 360448, a: 0, fov: 16384 };
    let hit = cast_ray(&maze, &player, 0);
    assert_eq!(hit.distance, 5 * FP_ONE + FP_ONE / 2);
    assert!(hit.is_vertical);
    assert_eq!(hit.hit_x, 11 * FP_ONE);
    assert_eq!(hit.hit_y, 360448);
    assert_eq!(hit.wall_type, '+');
}

#[test]
fn cast_is_periodic_over_full_turns() {
    let maze = open_room(10);
    let player = Player { pos_x: 360448, pos_y: 360448, a: 0, fov: 16384 };
    let steps = 48;
    for k in 0..steps {
        let a = k * (FULL_TURN / steps);
        let h1 = cast_ray(&maze, &player, a);
        let h2 = cast_ray(&maze, &player, a + FULL_TURN);
        let h3 = cast_ray(&maze, &player, a - FULL_TURN);
        assert_eq!(h1.distance, h2.distance);
        assert_eq!(h1.distance, h3.distance);
        assert_eq!(h1.hit_x, h2.hit_x);
        assert_eq!(h1.hit_y, h2.hit_y);
        assert_eq!(h1.is_vertical, h2.is_vertical);
    }
}

#[test]
fn cast_terminates_with_positive_distance_everywhere() {
    // From strictly inside an open cell, every angle yields a finite
    // positive corrected distance.
    let maze = open_room(10);
    let player = Player { pos_x: 3 * FP_ONE + 17, pos_y: 7 * FP_ONE + 900, a: 0, fov: 16384 };
    for k in 0..1024 {
        let a = k * (FULL_TURN / 1024);
        let hit = cast_ray(&maze, &player, a);
        assert!(hit.distance >= 1);
    }
}

#[test]
fn fisheye_correction_is_symmetric() {
    // Two rays at angles symmetric about the heading, cast toward the
    // flat east wall, report exactly equal corrected distances.
    let maze = open_room(10);
    let player = Player { pos_x: 360448, pos_y: 360448, a: 0, fov: 16384 };
    for d in [1i64, 100, 1000, 4000, 8000] {
        let h1 = cast_ray(&maze, &player, d);
        let h2 = cast_ray(&maze, &player, -d);
        assert!(h1.is_vertical);
        assert!(h2.is_vertical);
        assert_eq!(h1.distance, h2.distance);
    }
}

#[test]
fn orientation_selects_texture_axis() {
    let maze = open_room(10);
    let player = Player { pos_x: 360448, pos_y: 360448, a: 0, fov: 16384 };
    // Facing east: the first crossing is a vertical grid line.
    let hv = cast_ray(&maze, &player, 0);
    assert!(hv.is_vertical);
    assert_eq!(wall_texture_u(&hv), hv.hit_y.rem_euclid(FP_ONE));
    // Facing south (a quarter turn): the first crossing is horizontal.
    let hh = cast_ray(&maze, &player, 24576);
    assert!(!hh.is_vertical);
    assert_eq!(wall_texture_u(&hh), hh.hit_x.rem_euclid(FP_ONE));
    assert_eq!(hh.hit_y, 11 * FP_ONE);
}

#[test]
fn ray_into_wall_cell_stops_immediately() {
    // A camera standing in a wall cell must not loop: the first entered
    // cell ends the walk at once against the neighbouring wall.
    let maze = open_room(10);
    let player = Player { pos_x: FP_ONE / 2, pos_y: FP_ONE / 2, a: 0, fov: 16384 };
    let hit = cast_ray(&maze, &player, 0);
    assert!(hit.distance >= 1);
}

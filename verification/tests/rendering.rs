use raycaster::{WIDTH, HEIGHT};
use raycaster::fixed::FP_ONE;
use raycaster::player::Player;
use raycaster::texture::{Texture, TextureSet, cell_to_texture_color};
use raycaster::render::{render_sky, render_floor, render3d};

fn tex2(pixels: [u32; 4]) -> Texture {
    Texture::new(2, 2, pixels.to_vec()).unwrap()
}

fn tex1(color: u32) -> Texture {
    Texture::new(1, 1, vec![color]).unwrap()
}

fn test_set() -> TextureSet {
    TextureSet {
        wall1: tex2([0x10, 0x11, 0x12, 0x13]),
        wall2: tex2([0x20, 0x21, 0x22, 0x23]),
        goal: tex2([0x30, 0x31, 0x32, 0x33]),
        floor: tex2([0x40, 0x41, 0x42, 0x43]),
        sky: tex2([0x50, 0x51, 0x52, 0x53]),
        enemy: tex1(0x60),
    }
}

fn open_room(side: usize) -> Vec<Vec<char>> {
    let dim = side + 2;
    let mut maze = Vec::new();
    for y in 0..dim {
        let mut row = Vec::new();
        for x in 0..dim {
            if y == 0 || y == dim - 1 || x == 0 || x == dim - 1 {
                row.push('+');
            } else {
                row.push(' ');
            }
        }
        maze.push(row);
    }
    maze
}

#[test]
fn sky_fills_upper_half_proportionally() {
    let sky = tex2([0x50, 0x51, 0x52, 0x53]);
    let mut fb: Vec<u32> = vec![0xABCD; WIDTH * HEIGHT];
    render_sky(&mut fb, &sky);
    assert_eq!(fb[0], 0x50);
    assert_eq!(fb[520], 0x51);
    assert_eq!(fb[225 * WIDTH], 0x52);
    assert_eq!(fb[225 * WIDTH + 520], 0x53);
    // The lower half is untouched.
    assert_eq!(fb[450 * WIDTH], 0xABCD);
    assert_eq!(fb[899 * WIDTH + 1039], 0xABCD);
}

#[test]
fn floor_fills_lower_half_proportionally() {
    let floor = tex2([0x40, 0x41, 0x42, 0x43]);
    let mut fb: Vec<u32> = vec![0xABCD; WIDTH * HEIGHT];
    render_floor(&mut fb, &floor);
    assert_eq!(fb[450 * WIDTH], 0x40);
    assert_eq!(fb[450 * WIDTH + 520], 0x41);
    assert_eq!(fb[675 * WIDTH], 0x42);
    assert_eq!(fb[675 * WIDTH + 520], 0x43);
    // The upper half is untouched.
    assert_eq!(fb[0], 0xABCD);
    assert_eq!(fb[449 * WIDTH + 1039], 0xABCD);
}

#[test]
fn wall_symbol_selects_texture() {
    let texs = test_set();
    // Texel (1, 1) of the selected texture, at fractional coordinates
    // just past the midpoint.
    let u = FP_ONE / 2;
    assert_eq!(cell_to_texture_color(&texs, '|', u, u), 0x13);
    assert_eq!(cell_to_texture_color(&texs, '-', u, u), 0x23);
    assert_eq!(cell_to_texture_color(&texs, 'g', u, u), 0x33);
    assert_eq!(cell_to_texture_color(&texs, '?', u, u), 0x13);
    assert_eq!(cell_to_texture_color(&texs, '|', 0, 0), 0x10);
}

#[test]
fn texture_constructor_validates_dimensions() {
    assert!(Texture::new(2, 2, vec![1, 2, 3, 4]).is_some());
    assert!(Texture::new(2, 2, vec![1, 2, 3]).is_none());
    assert!(Texture::new(0, 2, vec![]).is_none());
    assert!(Texture::new(5000, 1, vec![0; 5000]).is_none());
}

#[test]
fn center_column_depth_is_wall_distance() {
    // Scenario: a 10 x 10 open room, camera at its centre facing the
    // east wall with a 60 degree field of view. The centre screen
    // column's depth is exactly the Euclidean distance to the wall.
    let maze = open_room(10);
    let player = Player { pos_x: 360448, pos_y: 360448, a: 0, fov: 16384 };
    let texs = test_set();
    let mut fb: Vec<u32> = vec![0; WIDTH * HEIGHT];
    let mut z: Vec<i64> = vec![i64::MAX; WIDTH];
    render3d(&mut fb, &maze, &player, 80, &mut z, &texs);
    assert_eq!(z[520], 5 * FP_ONE + FP_ONE / 2);
    // Columns symmetric about the centre cast rays at angles symmetric
    // about the heading onto the same flat wall: their corrected
    // distances agree exactly.
    assert_eq!(z[455], z[585]);
    assert_eq!(z[325], z[715]);
    // The wall stake of the centre column: height 81 px, rows 410..490;
    // the horizon row samples texel (1, 1) of the default wall texture.
    assert_eq!(fb[450 * WIDTH + 520], 0x13);
    // Above the stake stands sky, below it cast floor.
    assert_eq!(fb[100 * WIDTH + 520], 0x51);
}

#[test]
fn exact_floor_casting_below_the_stake() {
    // Camera on a grid line two cells from the east wall: the wall
    // distance is exactly 2 cells, so at screen row 675 the implied
    // floor distance is also exactly 2 cells, the blend weight is
    // exactly one, and the sampled floor texel is the hit point itself:
    // world (11, 5.5), texel (22 mod 2, 11 mod 2) = (0, 1).
    let maze = open_room(10);
    let player = Player { pos_x: 9 * FP_ONE, pos_y: 360448, a: 0, fov: 16384 };
    let texs = test_set();
    let mut fb: Vec<u32> = vec![0; WIDTH * HEIGHT];
    let mut z: Vec<i64> = vec![i64::MAX; WIDTH];
    render3d(&mut fb, &maze, &player, 80, &mut z, &texs);
    assert_eq!(z[520], 2 * FP_ONE);
    assert_eq!(fb[675 * WIDTH + 520], 0x42);
    // The stake spans rows 338..562; the horizon row samples texel (1, 1).
    assert_eq!(fb[450 * WIDTH + 520], 0x13);
    assert_eq!(fb[337 * WIDTH + 520], 0x53);
}

#[test]
fn identical_frames_are_byte_identical() {
    // Two consecutive renders from the same camera state produce
    // byte-identical framebuffers and depth buffers: the frame depends
    // on nothing but its inputs.
    let maze = open_room(10);
    let player = Player { pos_x: 231110, pos_y: 402717, a: 7777, fov: 16384 };
    let texs = test_set();
    let mut fb1: Vec<u32> = vec![0; WIDTH * HEIGHT];
    let mut z1: Vec<i64> = vec![i64::MAX; WIDTH];
    render3d(&mut fb1, &maze, &player, 80, &mut z1, &texs);
    let mut fb2: Vec<u32> = vec![0x1234_5678; WIDTH * HEIGHT];
    let mut z2: Vec<i64> = vec![12345; WIDTH];
    render3d(&mut fb2, &maze, &player, 80, &mut z2, &texs);
    assert_eq!(fb1, fb2);
    assert_eq!(z1, z2);
}

#[test]
fn every_pixel_is_written_each_frame() {
    // Sky, stake and floor cover every row of every column: no pixel of
    // a fresh buffer keeps its initial colour (the test colour does not
    // occur in any texture).
    let maze = open_room(10);
    let player = Player { pos_x: 360448, pos_y: 360448, a: 0, fov: 16384 };
    let texs = test_set();
    let sentinel = 0xDEAD_BEEF;
    let mut fb: Vec<u32> = vec![sentinel; WIDTH * HEIGHT];
    let mut z: Vec<i64> = vec![i64::MAX; WIDTH];
    render3d(&mut fb, &maze, &player, 80, &mut z, &texs);
    for &px in fb.iter() {
        assert_ne!(px, sentinel);
    }
}

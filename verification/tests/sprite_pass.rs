use raycaster::{WIDTH, HEIGHT};
use raycaster::fixed::FP_ONE;
use raycaster::player::Player;
use raycaster::texture::Texture;
use raycaster::sprites::render_enemy;

fn keyed_tex() -> Texture {
    // Left texel column opaque red, right texel column colour-keyed
    // transparent white.
    Texture::new(2, 2, vec![0xFF0000, 0xFFFFFF, 0xFF0000, 0xFFFFFF]).unwrap()
}

#[test]
fn sprite_behind_wall_draws_nothing() {
    // The sprite is farther than every column's wall: no pixel changes
    // and the depth buffer keeps its wall distances.
    let player = Player { pos_x: 98304, pos_y: 327680, a: 0, fov: 16384 };
    let tex = keyed_tex();
    let bg = 0x123456;
    let mut fb: Vec<u32> = vec![bg; WIDTH * HEIGHT];
    let wall_d = 2 * FP_ONE;
    let mut z: Vec<i64> = vec![wall_d; WIDTH];
    // Sprite straight ahead at 3.5 cells, walls at 2 cells.
    render_enemy(&mut fb, &player, 5 * FP_ONE, 327680, &tex, &mut z);
    for &px in fb.iter() {
        assert_eq!(px, bg);
    }
    for &d in z.iter() {
        assert_eq!(d, wall_d);
    }
}

#[test]
fn sprite_in_front_draws_opaque_texels_only() {
    // The sprite is nearer than the walls: its opaque texels are drawn,
    // its colour-keyed texels leave the background, and the centre
    // column's depth takes the sprite distance.
    let player = Player { pos_x: 98304, pos_y: 327680, a: 0, fov: 16384 };
    let tex = keyed_tex();
    let bg = 0x123456;
    let mut fb: Vec<u32> = vec![bg; WIDTH * HEIGHT];
    let far = 100 * FP_ONE;
    let mut z: Vec<i64> = vec![far; WIDTH];
    let d = 229376i64; // 3.5 cells straight ahead
    render_enemy(&mut fb, &player, 5 * FP_ONE, 327680, &tex, &mut z);
    // Footprint: size = 360 * FP_ONE / d = 102 px, centred at column 520.
    let size = 360 * FP_ONE / d;
    assert_eq!(size, 102);
    let x0 = 520 - size / 2;
    let y0 = (HEIGHT as i64) / 2 - size / 2;
    // A pixel in the left (opaque) half is the sprite colour.
    let lx = (x0 + 10) as usize;
    let ly = (y0 + 10) as usize;
    assert_eq!(fb[ly * WIDTH + lx], 0xFF0000);
    // A pixel in the right (colour-keyed) half keeps the background.
    let rx = (x0 + size - 10) as usize;
    assert_eq!(fb[ly * WIDTH + rx], bg);
    // Pixels outside the footprint keep the background.
    assert_eq!(fb[0], bg);
    // Only the centre column's depth was updated, to the distance.
    assert_eq!(z[520], d);
    assert_eq!(z[519], far);
    assert_eq!(z[521], far);
}

#[test]
fn sprite_outside_field_of_view_is_culled() {
    // A sprite behind the camera changes nothing.
    let player = Player { pos_x: 5 * FP_ONE, pos_y: 327680, a: 0, fov: 16384 };
    let tex = keyed_tex();
    let bg = 0x777777;
    let mut fb: Vec<u32> = vec![bg; WIDTH * HEIGHT];
    let mut z: Vec<i64> = vec![100 * FP_ONE; WIDTH];
    render_enemy(&mut fb, &player, FP_ONE, 327680, &tex, &mut z);
    for &px in fb.iter() {
        assert_eq!(px, bg);
    }
}

#[test]
fn sprite_too_near_is_culled() {
    // A sprite nearer than half a cell is near-plane culled.
    let player = Player { pos_x: 5 * FP_ONE, pos_y: 327680, a: 0, fov: 16384 };
    let tex = keyed_tex();
    let bg = 0x777777;
    let mut fb: Vec<u32> = vec![bg; WIDTH * HEIGHT];
    let mut z: Vec<i64> = vec![100 * FP_ONE; WIDTH];
    render_enemy(&mut fb, &player, 5 * FP_ONE + FP_ONE / 4, 327680, &tex, &mut z);
    for &px in fb.iter() {
        assert_eq!(px, bg);
    }
}

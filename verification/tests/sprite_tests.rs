use raycaster::color::{color_distance, is_transparent, CHROMA_KEY, CHROMA_THRESHOLD};
use raycaster::depth::{new_depth_buffer, DEPTH_FAR};
use raycaster::fixed::{Direction, Point, ONE};
use raycaster::framebuffer::Framebuffer;
use raycaster::player::Player;
use raycaster::sprites::{
    draw_billboard, project_sprite, render_enemies, render_enemy, Billboard,
};
use raycaster::texture::{Texture, WallTextures};
use raycaster::walls::render3d;

const EAST: Direction = Direction { dx: 65536, dy: 0 };
const SOUTH: Direction = Direction { dx: 0, dy: 65536 };
const UNIT: u64 = 65536;
const BLUE: u32 = 0x0000FF;
const GREEN: u32 = 0x00FF00;

fn player(x: i64, y: i64, heading: Direction) -> Player {
    Player { pos: Point { x: x * ONE, y: y * ONE }, heading, half_fov: 34315 }
}

fn at(x: i64, y: i64) -> Point {
    Point { x: x * ONE, y: y * ONE }
}

fn flat(color: u32) -> Texture {
    Texture::new(2, 2, vec![color; 4]).unwrap()
}

fn quarters() -> Texture {
    Texture::new(2, 2, vec![0x1, 0x2, 0x3, 0x4]).unwrap()
}

#[test]
fn color_distance_exact_values() {
    assert_eq!(color_distance(0x000000, 0x000000), 0);
    assert_eq!(color_distance(0x000000, 0xFFFFFF), 765);
    assert_eq!(color_distance(0xFFFFFF, 0x000000), 765);
    assert_eq!(color_distance(0x102030, 0x302010), 64);
    assert_eq!(color_distance(0xFF0000, 0x00FF00), 510);
    assert_eq!(color_distance(0x010203, 0x030201), 4);
    assert_eq!(color_distance(0xFF66C4, 0xFF66C4), 0);
    // Bits above the three channels do not count.
    assert_eq!(color_distance(0xAB123456, 0x00123456), 0);
    assert_eq!(color_distance(0xFF000001, 0x00000000), 1);
}

#[test]
fn is_transparent_chroma_key_and_threshold() {
    assert_eq!(CHROMA_KEY, 0xFF66C4);
    assert!(is_transparent(CHROMA_KEY));
    // Distance 150 is below the threshold, 151 is not.
    assert!(is_transparent(0xFF662E));
    assert!(!is_transparent(0xFF662D));
    // Red 50 below the key's, green 100 or 101 below.
    assert!(is_transparent(0xCD02C4));
    assert!(!is_transparent(0xCD01C4));
    assert_eq!(color_distance(0xFF662D, CHROMA_KEY), CHROMA_THRESHOLD);
    assert!(!is_transparent(0x000000));
    assert!(!is_transparent(0xFFFFFF));
    assert!(is_transparent(0xFF66C5));
}

#[test]
fn project_sprite_straight_ahead() {
    let p = player(1000, 1000, EAST);
    let board = project_sprite(&p, &at(1100, 1000), 100, 100);
    assert_eq!(
        board,
        Some(Billboard { left: 15, top: 15, size: 70, distance: 100 * UNIT })
    );
    let near = project_sprite(&p, &at(1050, 1000), 100, 100);
    assert_eq!(
        near,
        Some(Billboard { left: -20, top: -20, size: 140, distance: 50 * UNIT })
    );
}

#[test]
fn project_sprite_off_to_either_side() {
    let p = player(1000, 1000, EAST);
    // The tangent is one half: 0.5 * 50 / 0.5236 = 47.7 pixels from the middle.
    let right = project_sprite(&p, &at(1100, 1050), 100, 100);
    assert_eq!(
        right,
        Some(Billboard { left: 66, top: 19, size: 62, distance: 7327147 })
    );
    let left = project_sprite(&p, &at(1100, 950), 100, 100);
    assert_eq!(
        left,
        Some(Billboard { left: -29, top: 19, size: 62, distance: 7327147 })
    );
}

#[test]
fn project_sprite_rounds_the_left_edge_once() {
    // 56 units ahead and 42 to the side, 70 away: three pixels tall on a
    // screen of three rows. The tangent is 3/4 and half the field of view
    // one radian, so the square starts at 3.75 + 5 - 1.5 = 7.25.
    let p = Player { half_fov: 65536, ..player(1000, 1000, EAST) };
    let board = project_sprite(&p, &at(1056, 1042), 10, 3);
    assert_eq!(
        board,
        Some(Billboard { left: 7, top: 0, size: 3, distance: 70 * UNIT })
    );
    let mut fb = Framebuffer::new(10, 3);
    let z = new_depth_buffer(10, 3);
    render_enemy(&mut fb, &p, &at(1056, 1042), &z, &Texture::new(1, 1, vec![BLUE]).unwrap());
    for y in 0..3usize {
        for x in 0..10usize {
            let expected = if x >= 7 { BLUE } else { 0 };
            assert_eq!(fb.buffer[y * 10 + x], expected, "pixel ({}, {})", x, y);
        }
    }
    // On the other side the square starts at -3.75 + 5 - 1.5 = -0.25.
    let other = project_sprite(&p, &at(1056, 958), 10, 3);
    assert_eq!(
        other,
        Some(Billboard { left: -1, top: 0, size: 3, distance: 70 * UNIT })
    );
    // With an even difference of widths only the offset is rounded.
    let even = project_sprite(&p, &at(1056, 1042), 11, 3);
    assert_eq!(even.unwrap().left, 8);
}

#[test]
fn project_sprite_behind_the_player_mirrors() {
    let p = player(1000, 1000, EAST);
    assert_eq!(
        project_sprite(&p, &at(900, 1000), 100, 100),
        Some(Billboard { left: 15, top: 15, size: 70, distance: 100 * UNIT })
    );
    assert_eq!(
        project_sprite(&p, &at(900, 1050), 100, 100),
        Some(Billboard { left: -29, top: 19, size: 62, distance: 7327147 })
    );
}

#[test]
fn project_sprite_without_a_billboard() {
    let p = player(1000, 1000, EAST);
    // Exactly beside the player, and where the player stands.
    assert_eq!(project_sprite(&p, &at(1000, 1100), 100, 100), None);
    assert_eq!(project_sprite(&p, &at(1000, 900), 100, 100), None);
    assert_eq!(project_sprite(&p, &at(1000, 1000), 100, 100), None);
    let blind = Player { half_fov: 0, ..p };
    assert_eq!(project_sprite(&blind, &at(1100, 1000), 100, 100), None);
}

#[test]
fn project_sprite_very_close_and_other_heading() {
    let p = player(1000, 1000, EAST);
    let close = Point { x: 1000 * ONE + 1, y: 1000 * ONE };
    assert_eq!(
        project_sprite(&p, &close, 100, 100),
        Some(Billboard { left: -229375950, top: -229375950, size: 458752000, distance: 1 })
    );
    let q = player(1000, 1000, SOUTH);
    assert_eq!(
        project_sprite(&q, &at(1010, 1200), 1300, 900),
        Some(Billboard { left: 430, top: 293, size: 314, distance: 13123573 })
    );
}

#[test]
fn project_sprite_at_the_corners_of_the_world() {
    let p = Player {
        pos: Point { x: -0x8000_0000_0000, y: -0x8000_0000_0000 },
        heading: Direction { dx: 65536, dy: 65536 },
        half_fov: u32::MAX,
    };
    let far = Point { x: 0x8000_0000_0000, y: 0x8000_0000_0000 };
    let board = project_sprite(&p, &far, 0x7fff_ffff, 0x7fff_ffff).unwrap();
    // The diagonal of the world: 2^48 times the square root of two.
    assert_eq!(board.distance, 398065729532860);
    assert_eq!(board.size, 24);
    assert_eq!(board.left, 1073741811);
    assert_eq!(board.top, 1073741811);
}

#[test]
fn draw_billboard_scales_the_texture_over_the_square() {
    let mut fb = Framebuffer::new(8, 8);
    let z = new_depth_buffer(8, 8);
    let board = Billboard { left: 1, top: 2, size: 4, distance: 10 };
    draw_billboard(&mut fb, &z, &quarters(), &board);
    for y in 0..8usize {
        for x in 0..8usize {
            let inside = (1..5).contains(&x) && (2..6).contains(&y);
            let expected = if inside {
                let tx = (x - 1) * 2 / 4;
                let ty = (y - 2) * 2 / 4;
                [0x1, 0x2, 0x3, 0x4][ty * 2 + tx]
            } else {
                0
            };
            assert_eq!(fb.buffer[y * 8 + x], expected, "pixel ({}, {})", x, y);
        }
    }
}

#[test]
fn draw_billboard_clipped_at_the_left_counts_from_the_screen_edge() {
    let mut fb = Framebuffer::new(4, 4);
    let z = new_depth_buffer(4, 4);
    let board = Billboard { left: -2, top: -1, size: 4, distance: 10 };
    draw_billboard(&mut fb, &z, &quarters(), &board);
    // Columns 0 and 1, rows 0 to 2 are on the screen; offsets count from there.
    assert_eq!(
        fb.buffer,
        vec![0x1, 0x1, 0, 0, 0x1, 0x1, 0, 0, 0x3, 0x3, 0, 0, 0, 0, 0, 0]
    );
}

#[test]
fn draw_billboard_clipped_at_the_right_and_bottom() {
    let mut fb = Framebuffer::new(4, 4);
    let z = new_depth_buffer(4, 4);
    let board = Billboard { left: 2, top: 3, size: 8, distance: 10 };
    draw_billboard(&mut fb, &z, &quarters(), &board);
    assert_eq!(
        fb.buffer,
        vec![0, 0, 0, 0, 0, 0, 0, 0, 0, 0, 0, 0, 0, 0, 0x1, 0x1]
    );
}

#[test]
fn draw_billboard_larger_than_texture_keeps_coordinates_inside() {
    let mut fb = Framebuffer::new(3, 1);
    let z = new_depth_buffer(3, 1);
    // Three pixels over a texture of two: 0 * 2 / 3, 1 * 2 / 3, 2 * 2 / 3.
    let board = Billboard { left: 0, top: 0, size: 3, distance: 10 };
    draw_billboard(&mut fb, &z, &quarters(), &board);
    assert_eq!(fb.buffer, vec![0x1, 0x1, 0x2]);
    // One pixel shows the first texel.
    let mut one = Framebuffer::new(3, 1);
    draw_billboard(&mut one, &z, &quarters(), &Billboard { left: 1, top: 0, size: 1, distance: 10 });
    assert_eq!(one.buffer, vec![0, 0x1, 0]);
}

#[test]
fn draw_billboard_off_the_screen_or_empty_draws_nothing() {
    let z = new_depth_buffer(4, 4);
    for board in [
        Billboard { left: 4, top: 0, size: 4, distance: 1 },
        Billboard { left: -4, top: 0, size: 4, distance: 1 },
        Billboard { left: 0, top: 4, size: 4, distance: 1 },
        Billboard { left: 0, top: -4, size: 4, distance: 1 },
        Billboard { left: 0, top: 0, size: 0, distance: 1 },
        Billboard { left: i128::MAX, top: i64::MAX, size: u64::MAX, distance: 1 },
        Billboard { left: i128::MIN, top: i64::MIN, size: u64::MAX, distance: 1 },
    ] {
        let mut fb = Framebuffer::new(4, 4);
        draw_billboard(&mut fb, &z, &flat(BLUE), &board);
        assert_eq!(fb.buffer, vec![0; 16]);
    }
    let mut fb = Framebuffer::new(4, 4);
    let huge = Billboard { left: -1_000_000, top: i64::MIN, size: u64::MAX, distance: 1 };
    draw_billboard(&mut fb, &z, &flat(BLUE), &huge);
    assert_eq!(fb.buffer, vec![BLUE; 16]);
}

#[test]
fn draw_billboard_skips_the_chroma_key_everywhere() {
    let mut fb = Framebuffer::new(6, 6);
    let z = new_depth_buffer(6, 6);
    for left in -3..6 {
        for top in -3..6 {
            let board = Billboard { left, top, size: 4, distance: 0 };
            draw_billboard(&mut fb, &z, &flat(CHROMA_KEY), &board);
        }
    }
    assert_eq!(fb.buffer, vec![0; 36]);
}

#[test]
fn draw_billboard_transparent_texels_show_what_is_behind() {
    let mut fb = Framebuffer::new(2, 2);
    fb.set_background_color(0x777777);
    fb.clear();
    let z = new_depth_buffer(2, 2);
    let texture = Texture::new(2, 2, vec![CHROMA_KEY, BLUE, 0xFF662E, 0xFF662D]).unwrap();
    draw_billboard(&mut fb, &z, &texture, &Billboard { left: 0, top: 0, size: 2, distance: 0 });
    assert_eq!(fb.buffer, vec![0x777777, BLUE, 0x777777, 0xFF662D]);
}

#[test]
fn draw_billboard_hidden_behind_nearer_depth() {
    let mut fb = Framebuffer::new(4, 1);
    let z = vec![74 * UNIT, 75 * UNIT, 75 * UNIT + 1, DEPTH_FAR];
    let board = Billboard { left: 0, top: 0, size: 4, distance: 75 * UNIT };
    draw_billboard(&mut fb, &z, &flat(BLUE), &board);
    assert_eq!(fb.buffer, vec![0, 0, BLUE, BLUE]);
    assert_eq!(z, vec![74 * UNIT, 75 * UNIT, 75 * UNIT + 1, DEPTH_FAR]);
}

#[test]
fn draw_billboard_skips_pixels_beyond_the_depth_buffer() {
    let mut fb = Framebuffer::new(2, 2);
    let z = vec![DEPTH_FAR; 3];
    draw_billboard(&mut fb, &z, &flat(BLUE), &Billboard { left: 0, top: 0, size: 2, distance: 0 });
    assert_eq!(fb.buffer, vec![BLUE, BLUE, BLUE, 0]);
    let mut other = Framebuffer::new(2, 2);
    draw_billboard(&mut other, &Vec::new(), &flat(BLUE), &Billboard {
        left: 0,
        top: 0,
        size: 2,
        distance: 0,
    });
    assert_eq!(other.buffer, vec![0; 4]);
}

#[test]
fn render_enemy_wall_between_camera_and_far_sprite() {
    // A wall at corrected distance 75 fills the depth buffer; one sprite
    // stands 100 units away, the other 50.
    let p = player(1000, 1000, EAST);
    let z = vec![75 * UNIT; 100 * 100];
    let mut fb = Framebuffer::new(100, 100);
    fb.set_background_color(0x555555);
    fb.clear();
    render_enemy(&mut fb, &p, &at(1100, 1000), &z, &flat(BLUE));
    assert!(fb.buffer.iter().all(|&c| c == 0x555555));
    render_enemy(&mut fb, &p, &at(1050, 1000), &z, &flat(GREEN));
    assert!(fb.buffer.iter().all(|&c| c == GREEN));
    assert!(z.iter().all(|&d| d == 75 * UNIT));
}

#[test]
fn render_enemy_wall_covers_part_of_the_far_sprite() {
    // The wall covers the left half of the screen only.
    let p = player(1000, 1000, EAST);
    let mut z = vec![DEPTH_FAR; 100 * 100];
    for y in 0..100 {
        for x in 0..50 {
            z[y * 100 + x] = 75 * UNIT;
        }
    }
    let mut fb = Framebuffer::new(100, 100);
    render_enemy(&mut fb, &p, &at(1100, 1000), &z, &flat(BLUE));
    for y in 0..100usize {
        for x in 0..100usize {
            let in_square = (15..85).contains(&x) && (15..85).contains(&y);
            let expected = if in_square && x >= 50 { BLUE } else { 0 };
            assert_eq!(fb.buffer[y * 100 + x], expected, "pixel ({}, {})", x, y);
        }
    }
    render_enemy(&mut fb, &p, &at(1050, 1000), &z, &flat(GREEN));
    assert!(fb.buffer.iter().all(|&c| c == GREEN));
}

#[test]
fn render_enemy_without_billboard_draws_nothing() {
    let p = player(1000, 1000, EAST);
    let z = new_depth_buffer(10, 10);
    let mut fb = Framebuffer::new(10, 10);
    render_enemy(&mut fb, &p, &at(1000, 1000), &z, &flat(BLUE));
    render_enemy(&mut fb, &p, &at(1000, 1040), &z, &flat(BLUE));
    assert_eq!(fb.buffer, vec![0; 100]);
}

#[test]
fn render_enemies_later_sprite_shows_over_earlier() {
    let p = player(1000, 1000, EAST);
    let z = new_depth_buffer(100, 100);
    // The far sprite is rendered last and shows over the near one.
    let mut fb = Framebuffer::new(100, 100);
    render_enemies(&mut fb, &p, &z, &flat(BLUE), &vec![at(1050, 1000), at(1100, 1000)]);
    assert!(fb.buffer.iter().all(|&c| c == BLUE));
    let mut first = Framebuffer::new(100, 100);
    render_enemy(&mut first, &p, &at(1050, 1000), &z, &flat(GREEN));
    render_enemy(&mut first, &p, &at(1100, 1000), &z, &flat(BLUE));
    for y in 0..100usize {
        for x in 0..100usize {
            let in_far = (15..85).contains(&x) && (15..85).contains(&y);
            let expected = if in_far { BLUE } else { GREEN };
            assert_eq!(first.buffer[y * 100 + x], expected);
        }
    }
    let mut none = Framebuffer::new(4, 4);
    render_enemies(&mut none, &p, &z, &flat(BLUE), &Vec::new());
    assert_eq!(none.buffer, vec![0; 16]);
}

#[test]
fn render_enemies_behind_rendered_walls() {
    // Walls first, then sprites against the same depth buffer: the sprite
    // in the corridor shows in front of the far wall, the sprite beyond
    // the wall does not.
    let maze: Vec<Vec<char>> =
        ["+++++++", "+     +", "+++++++"].iter().map(|l| l.chars().collect()).collect();
    let wall = Texture::new(1, 1, vec![0x880000]).unwrap();
    let textures = WallTextures {
        corner: Texture::new(1, 1, vec![0x880000]).unwrap(),
        horizontal: Texture::new(1, 1, vec![0x880000]).unwrap(),
        vertical: Texture::new(1, 1, vec![0x880000]).unwrap(),
        goal: wall,
    };
    let sky = Texture::new(1, 1, vec![0x0000AA]).unwrap();
    let p = player(150, 150, EAST);
    let mut fb = Framebuffer::new(5, 90);
    let mut z = new_depth_buffer(5, 90);
    render3d(&mut fb, &p, &maze, 100, &mut z, &textures, &sky, &vec![EAST; 5]);
    let walls = fb.buffer.clone();
    assert_eq!(walls[45 * 5 + 2], 0x880000);
    render_enemies(&mut fb, &p, &z, &flat(BLUE), &vec![at(650, 150)]);
    // 500 units away: 12 rows tall, rows 39 to 50, all inside the wall's stake.
    assert_eq!(fb.buffer, walls);
    render_enemies(&mut fb, &p, &z, &flat(GREEN), &vec![at(550, 150)]);
    // 400 units away: 15 rows tall, rows 37 to 51; columns -5 to 9.
    for y in 0..90usize {
        for x in 0..5usize {
            let expected = if (37..52).contains(&y) { GREEN } else { walls[y * 5 + x] };
            assert_eq!(fb.buffer[y * 5 + x], expected, "pixel ({}, {})", x, y);
        }
    }
}

use raycaster::caster::RAY_COLOR;
use raycaster::fixed::{Direction, Point, ONE};
use raycaster::framebuffer::{Framebuffer, SCREEN_MAX};
use raycaster::maze::cell_to_color;
use raycaster::overhead::{
    draw_cell, draw_grid, draw_minimap, render2d, MARKER_COLOR, PLAYER_COLOR,
};
use raycaster::player::Player;
use raycaster::text::{draw_char, draw_pixel, draw_text, glyph_of, TEXT_COLOR};
use raycaster::texture::{Texture, WallTextures};
use raycaster::timing::calculate_fps;

const EAST: Direction = Direction { dx: 65536, dy: 0 };
const SOUTH: Direction = Direction { dx: 0, dy: 65536 };
const WALL: u32 = 0x333333;
const OPEN: u32 = 0xAAAAAA;
const GOAL: u32 = 0xFF0000;
const W: u32 = 0xFFFFFF;

fn rows(lines: &[&str]) -> Vec<Vec<char>> {
    lines.iter().map(|l| l.chars().collect()).collect()
}

fn textures() -> WallTextures {
    let t = || Texture::new(1, 1, vec![0]).unwrap();
    WallTextures { corner: t(), horizontal: t(), vertical: t(), goal: t() }
}

fn player(x: i64, y: i64) -> Player {
    Player { pos: Point { x: x * ONE, y: y * ONE }, heading: EAST, half_fov: 34315 }
}

/// The pixels of the framebuffer as rows of characters, by colour.
fn picture(fb: &Framebuffer) -> Vec<String> {
    (0..fb.height)
        .map(|y| {
            (0..fb.width)
                .map(|x| match fb.buffer[y * fb.width + x] {
                    0 => '.',
                    WALL => '#',
                    OPEN => 'o',
                    GOAL => 'R',
                    W => 'W',
                    RAY_COLOR => '*',
                    PLAYER_COLOR => 'P',
                    _ => '?',
                })
                .collect()
        })
        .collect()
}

#[test]
fn framebuffer_new_is_black_and_draws_white() {
    let fb = Framebuffer::new(3, 2);
    assert_eq!((fb.width, fb.height), (3, 2));
    assert_eq!(fb.buffer, vec![0; 6]);
    assert_eq!(fb.background_color, 0x000000);
    assert_eq!(fb.current_color, 0xFFFFFF);
    assert!(Framebuffer::new(0, 7).buffer.is_empty());
    assert_eq!(SCREEN_MAX, 0x7fff_ffff);
}

#[test]
fn framebuffer_validity_follows_the_buffer() {
    let mut fb = Framebuffer::new(3, 2);
    assert!(fb.is_wf());
    fb.buffer.push(0);
    assert!(!fb.is_wf());
    fb.buffer.truncate(5);
    assert!(!fb.is_wf());
    fb.width = 5;
    fb.height = 1;
    assert!(fb.is_wf());
    fb.width = SCREEN_MAX + 1;
    fb.height = 0;
    fb.buffer.clear();
    assert!(!fb.is_wf());
    fb.width = SCREEN_MAX;
    assert!(fb.is_wf());
}

#[test]
fn framebuffer_point_paints_in_the_current_colour() {
    let mut fb = Framebuffer::new(3, 2);
    fb.point(1, 0);
    fb.set_current_color(0x123456);
    fb.point(2, 1);
    assert_eq!(fb.buffer, vec![0, 0xFFFFFF, 0, 0, 0, 0x123456]);
    assert_eq!(fb.get(2, 1), 0x123456);
    assert_eq!(fb.get(0, 0), 0);
}

#[test]
fn framebuffer_point_outside_is_skipped() {
    let mut fb = Framebuffer::new(3, 2);
    fb.point(3, 0);
    fb.point(0, 2);
    fb.point(usize::MAX, usize::MAX);
    fb.paint(3, 1, 0x1);
    fb.paint(usize::MAX, 0, 0x1);
    assert_eq!(fb.buffer, vec![0; 6]);
}

#[test]
fn framebuffer_clear_paints_the_background() {
    let mut fb = Framebuffer::new(2, 2);
    fb.point(0, 0);
    fb.set_background_color(0xAAAAAA);
    assert_eq!(fb.buffer, vec![0xFFFFFF, 0, 0, 0]);
    fb.clear();
    assert_eq!(fb.buffer, vec![0xAAAAAA; 4]);
    assert_eq!(fb.current_color, 0xFFFFFF);
}

#[test]
fn framebuffer_fill_rect_is_clipped() {
    let mut fb = Framebuffer::new(4, 3);
    fb.fill_rect(1, 1, 2, 1, W);
    assert_eq!(picture(&fb), vec!["....", ".WW.", "...."]);
    fb.fill_rect(3, 2, usize::MAX, usize::MAX, WALL);
    assert_eq!(picture(&fb), vec!["....", ".WW.", "...#"]);
    fb.fill_rect(4, 0, 1, 1, WALL);
    fb.fill_rect(0, 3, 1, 1, WALL);
    fb.fill_rect(0, 0, 0, 5, WALL);
    fb.fill_rect(0, 0, 5, 0, WALL);
    assert_eq!(picture(&fb), vec!["....", ".WW.", "...#"]);
    fb.fill_square(0, 0, 2, OPEN);
    assert_eq!(picture(&fb), vec!["oo..", "ooW.", "...#"]);
}

#[test]
fn cell_to_color_by_kind() {
    assert_eq!(cell_to_color('+'), 0x333333);
    assert_eq!(cell_to_color('-'), 0x333333);
    assert_eq!(cell_to_color('|'), 0x333333);
    assert_eq!(cell_to_color(' '), 0xAAAAAA);
    assert_eq!(cell_to_color('g'), 0xFF0000);
    assert_eq!(cell_to_color('x'), 0xAAAAAA);
    assert_eq!(cell_to_color('\0'), 0xAAAAAA);
}

#[test]
fn draw_cell_paints_walls_and_skips_open_cells() {
    let mut fb = Framebuffer::new(5, 4);
    draw_cell(&mut fb, 1, 1, 2, '+');
    draw_cell(&mut fb, 3, 0, 2, 'g');
    draw_cell(&mut fb, 0, 0, 2, ' ');
    draw_cell(&mut fb, 4, 3, 2, 'x');
    assert_eq!(picture(&fb), vec!["...RR", ".##RR", ".##..", "....o"]);
}

#[test]
fn draw_grid_cells_by_row_and_column() {
    let maze = rows(&["+g", " "]);
    let mut fb = Framebuffer::new(7, 6);
    draw_grid(&mut fb, &maze, 1, 1, 2, false);
    assert_eq!(
        picture(&fb),
        vec![".......", ".##RR..", ".##RR..", ".oo....", ".oo....", "......."]
    );
    let mut skipping = Framebuffer::new(7, 6);
    draw_grid(&mut skipping, &maze, 1, 1, 2, true);
    assert_eq!(
        picture(&skipping),
        vec![".......", ".##RR..", ".##RR..", ".......", ".......", "......."]
    );
}

#[test]
fn draw_grid_clipped_empty_and_far_away() {
    let maze = rows(&["+g+", "+g+"]);
    let mut fb = Framebuffer::new(4, 3);
    draw_grid(&mut fb, &maze, 1, 0, 2, false);
    assert_eq!(picture(&fb), vec![".##R", ".##R", ".##R"]);
    let mut none = Framebuffer::new(4, 3);
    draw_grid(&mut none, &maze, 0, 0, 0, false);
    draw_grid(&mut none, &maze, usize::MAX, usize::MAX, usize::MAX, false);
    draw_grid(&mut none, &maze, 4, 0, 1, false);
    draw_grid(&mut none, &Vec::new(), 0, 0, 5, false);
    assert_eq!(picture(&none), vec!["....", "....", "...."]);
    let mut big = Framebuffer::new(4, 3);
    draw_grid(&mut big, &maze, 0, 0, usize::MAX, false);
    assert_eq!(picture(&big), vec!["####", "####", "####"]);
}

#[test]
fn render2d_cells_player_and_rays() {
    let maze = rows(&["+-+", "| g", "+-+"]);
    let mut fb = Framebuffer::new(7, 7);
    let rays = vec![EAST, SOUTH];
    render2d(&mut fb, &player(2, 3), &maze, 2, &textures(), &rays);
    // East: samples at x = 2, 3 and 4, where the goal cell begins. South:
    // samples at y = 3 and 4, where the wall begins. The rays cover the
    // player's dot at (2, 3).
    assert_eq!(
        picture(&fb),
        vec![
            "######.", "######.", "##..RR.", "##***R.", "##*###.", "######.", "......."
        ]
    );
}

#[test]
fn render2d_without_rays_shows_the_player() {
    let maze = rows(&["+-+", "| g", "+-+"]);
    let mut fb = Framebuffer::new(6, 6);
    render2d(&mut fb, &player(3, 2), &maze, 2, &textures(), &Vec::new());
    assert_eq!(
        picture(&fb),
        vec!["######", "######", "##.PRR", "##..RR", "######", "######"]
    );
    let mut outside = Framebuffer::new(2, 2);
    render2d(&mut outside, &player(-1, 0), &maze, 2, &textures(), &vec![EAST]);
    assert_eq!(picture(&outside), vec!["##", "##"]);
}

#[test]
fn draw_minimap_cells_and_marker() {
    let maze = rows(&["+-", "| ", "+g"]);
    let mut fb = Framebuffer::new(14, 14);
    // The player at (150, 250) in cells of 100 stands at (4, 7) on a map
    // with cells of 3; the map's corner is at (2, 1).
    draw_minimap(&mut fb, &player(150, 250), &maze, 3, 2, 1, 100);
    let picture = picture(&fb);
    for y in 0..14usize {
        for x in 0..14usize {
            let expected = if (3..9).contains(&x) && (5..11).contains(&y) {
                'R'
            } else if (2..8).contains(&x) && (1..10).contains(&y) {
                let cell = maze[(y - 1) / 3][(x - 2) / 3];
                match cell {
                    ' ' => 'o',
                    'g' => 'R',
                    _ => '#',
                }
            } else {
                '.'
            };
            assert_eq!(picture[y].as_bytes()[x] as char, expected, "pixel ({}, {})", x, y);
        }
    }
    assert_eq!(MARKER_COLOR, 0xFF0000);
}

#[test]
fn draw_minimap_marker_follows_the_position_within_a_world_unit() {
    // The player at (0.9, 0.9) in cells of 2 stands at 1.35 on a map with
    // cells of 3: the marker is centred on pixel 1 of the map, whose corner
    // is at (3, 3).
    let p = Player {
        pos: Point { x: 58982, y: 58982 },
        heading: EAST,
        half_fov: 34315,
    };
    let mut fb = Framebuffer::new(20, 20);
    draw_minimap(&mut fb, &p, &Vec::new(), 3, 3, 3, 2);
    for y in 0..20usize {
        for x in 0..20usize {
            let inside = (1..7).contains(&x) && (1..7).contains(&y);
            let expected = if inside { MARKER_COLOR } else { 0 };
            assert_eq!(fb.buffer[y * 20 + x], expected, "pixel ({}, {})", x, y);
        }
    }
    // One fixed-point unit short of 2/3 of a world unit the marker is a
    // pixel further left.
    let q = Player { pos: Point { x: 43690, y: 43691 }, ..p };
    let mut other = Framebuffer::new(20, 20);
    draw_minimap(&mut other, &q, &Vec::new(), 3, 3, 3, 2);
    assert_eq!(other.buffer[2 * 20 + 0], MARKER_COLOR);
    assert_eq!(other.buffer[2 * 20 + 6], 0);
    assert_eq!(other.buffer[0 * 20 + 3], 0);
    assert_eq!(other.buffer[1 * 20 + 3], MARKER_COLOR);
    assert_eq!(other.buffer[6 * 20 + 3], MARKER_COLOR);
}

#[test]
fn draw_minimap_marker_at_the_screen_corner() {
    let maze: Vec<Vec<char>> = Vec::new();
    let mut fb = Framebuffer::new(5, 5);
    draw_minimap(&mut fb, &player(0, 0), &maze, 20, 0, 0, 100);
    assert_eq!(picture(&fb), vec!["RRR..", "RRR..", "RRR..", ".....", "....."]);
    // A position left of or above the world counts as zero.
    let mut negative = Framebuffer::new(5, 5);
    draw_minimap(&mut negative, &player(-500, 10), &maze, 20, 0, 0, 100);
    assert_eq!(picture(&negative), vec!["RRR..", "RRR..", "RRR..", "RRR..", "RRR.."]);
    let mut far = Framebuffer::new(5, 5);
    draw_minimap(&mut far, &player(1000, 1000), &maze, usize::MAX, 0, 0, 1);
    draw_minimap(&mut far, &player(40, 0), &maze, 20, 0, 0, 100);
    assert_eq!(picture(&far), vec!["....." ; 5]);
    draw_minimap(&mut far, &player(39, 0), &maze, 20, 0, 0, 100);
    assert_eq!(picture(&far), vec!["....R", "....R", "....R", ".....", "....."]);
}

#[test]
fn glyph_of_known_and_unknown_characters() {
    assert_eq!(glyph_of('0'), [0x7E, 0x99, 0x91, 0x89, 0x7E]);
    assert_eq!(glyph_of('1'), [0x00, 0x00, 0xFF, 0x00, 0x00]);
    assert_eq!(glyph_of('Y'), [0x07, 0x08, 0xF0, 0x08, 0x07]);
    assert_eq!(glyph_of('\''), [0x00, 0x07, 0x00, 0x00, 0x00]);
    assert_eq!(glyph_of(' '), [0; 5]);
    assert_eq!(glyph_of('a'), [0; 5]);
    assert_eq!(glyph_of('B'), [0; 5]);
}

#[test]
fn draw_pixel_is_a_white_square() {
    let mut fb = Framebuffer::new(4, 4);
    fb.set_current_color(0x123456);
    draw_pixel(&mut fb, 1, 2, 2);
    assert_eq!(picture(&fb), vec!["....", "....", ".WW.", ".WW."]);
    draw_pixel(&mut fb, 3, 0, 5);
    assert_eq!(picture(&fb), vec!["...W", "...W", ".WWW", ".WWW"]);
    assert_eq!(fb.current_color, 0x123456);
    assert_eq!(TEXT_COLOR, 0xFFFFFF);
}

#[test]
fn draw_char_dots_are_squares_of_five() {
    let mut fb = Framebuffer::new(30, 45);
    draw_char(&mut fb, 'T', 2, 3);
    // 'T': the top row of every column, and all of the middle column.
    for y in 0..45usize {
        for x in 0..30usize {
            let top_bar = (2..27).contains(&x) && (3..8).contains(&y);
            let stem = (12..17).contains(&x) && (3..43).contains(&y);
            let expected = if top_bar || stem { W } else { 0 };
            assert_eq!(fb.buffer[y * 30 + x], expected, "pixel ({}, {})", x, y);
        }
    }
}

#[test]
fn draw_char_bits_run_from_the_top() {
    let mut fb = Framebuffer::new(25, 40);
    draw_char(&mut fb, '\'', 0, 0);
    // Column 1 holds 0x07: rows 0, 1 and 2.
    for y in 0..40usize {
        for x in 0..25usize {
            let expected = if (5..10).contains(&x) && y < 15 { W } else { 0 };
            assert_eq!(fb.buffer[y * 25 + x], expected, "pixel ({}, {})", x, y);
        }
    }
    let mut blank = Framebuffer::new(25, 40);
    draw_char(&mut blank, '?', 0, 0);
    draw_char(&mut blank, ' ', 0, 0);
    assert!(blank.buffer.iter().all(|&c| c == 0));
}

#[test]
fn draw_char_clipped_and_off_the_screen() {
    let mut fb = Framebuffer::new(12, 4);
    draw_char(&mut fb, '1', 0, 1);
    assert_eq!(
        picture(&fb),
        vec!["............", "..........WW", "..........WW", "..........WW"]
    );
    let mut none = Framebuffer::new(12, 4);
    draw_char(&mut none, '1', usize::MAX, 0);
    draw_char(&mut none, '1', 0, usize::MAX);
    draw_char(&mut none, '1', usize::MAX - 9, usize::MAX - 30);
    draw_char(&mut none, '1', 2, 4);
    assert!(none.buffer.iter().all(|&c| c == 0));
}

#[test]
fn draw_text_advances_thirty_pixels_per_character() {
    let mut fb = Framebuffer::new(100, 42);
    draw_text(&mut fb, "1 1!", 3, 1);
    for y in 0..42usize {
        for x in 0..100usize {
            let rows = (1..41).contains(&y);
            let first = (13..18).contains(&x) && rows;
            let third = (73..78).contains(&x) && rows;
            // '!' holds 0xCF in its middle column: rows 0 to 3, 6 and 7;
            // only its left two pixels are still on the screen.
            let bang_rows = (1..21).contains(&y) || (31..41).contains(&y);
            let fourth = (103..108).contains(&x) && bang_rows;
            let expected = if first || third || fourth { W } else { 0 };
            assert_eq!(fb.buffer[y * 100 + x], expected, "pixel ({}, {})", x, y);
        }
    }
}

#[test]
fn draw_text_matches_draw_char_per_character() {
    let text = "FPS: 60 YOU WON!";
    let mut whole = Framebuffer::new(500, 60);
    draw_text(&mut whole, text, 7, 11);
    let mut parts = Framebuffer::new(500, 60);
    for (i, ch) in text.chars().enumerate() {
        draw_char(&mut parts, ch, 7 + 30 * i, 11);
    }
    assert_eq!(whole.buffer, parts.buffer);
    assert!(whole.buffer.iter().any(|&c| c == W));
}

#[test]
fn draw_text_empty_off_screen_and_non_ascii() {
    let mut fb = Framebuffer::new(40, 40);
    draw_text(&mut fb, "", 0, 0);
    draw_text(&mut fb, "111", 40, 0);
    draw_text(&mut fb, "111", usize::MAX, 0);
    draw_text(&mut fb, "111", 0, usize::MAX);
    assert!(fb.buffer.iter().all(|&c| c == 0));
    // Characters count, not bytes: the second character is the '1'.
    draw_text(&mut fb, "é1", 0, 0);
    let mut expected = Framebuffer::new(40, 40);
    draw_char(&mut expected, '1', 30, 0);
    assert_eq!(fb.buffer, expected.buffer);
}

#[test]
fn calculate_fps_exact_values() {
    assert_eq!(calculate_fps(0), 0);
    assert_eq!(calculate_fps(1), 1_000_000_000);
    assert_eq!(calculate_fps(16_666_667), 59);
    assert_eq!(calculate_fps(16_666_666), 60);
    assert_eq!(calculate_fps(2_000_000), 500);
    assert_eq!(calculate_fps(1_000_000_000), 1);
    assert_eq!(calculate_fps(1_000_000_001), 0);
    assert_eq!(calculate_fps(u64::MAX), 0);
}

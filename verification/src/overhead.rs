//! The overhead views: the maze seen from above, as a debug view with the
//! player's rays and as a minimap.

use vstd::prelude::*;
use crate::caster::{
    cast_ray, hit_step, maze_fits, paint_world_point, ray_covers, world_unit, RAY_COLOR,
};
use crate::fixed::{Direction, ONE};
use crate::framebuffer::{in_square, Framebuffer, SCREEN_MAX};
use crate::maze::{cell_color, cell_to_color, grid, in_grid, OPEN};
use crate::player::Player;
use crate::texture::WallTextures;

verus! {

/// The colour of the player's dot in the debug view.
pub const PLAYER_COLOR: u32 = 0x00FF00;

/// The colour of the player's marker on the minimap.
pub const MARKER_COLOR: u32 = 0xFF0000;

/// The side, in pixels, of the player's marker on the minimap.
pub const MARKER_SIZE: usize = 6;

/// The colour that a grid of square cells, drawn with its top left corner
/// at (`left`, `top`), gives pixel (`u`, `v`), if any: the flat colour of
/// the cell that the pixel falls in. With `skip_open` set, open cells are
/// not drawn.
pub open spec fn grid_pixel(
    g: Seq<Seq<char>>,
    left: int,
    top: int,
    cell_size: int,
    skip_open: bool,
    u: int,
    v: int,
) -> Option<u32> {
    if cell_size > 0 && left <= u && top <= v && in_grid(
        g,
        (u - left) / cell_size,
        (v - top) / cell_size,
    ) {
        let cell = g[(v - top) / cell_size][(u - left) / cell_size];
        if skip_open && cell == OPEN {
            None
        } else {
            Some(cell_color(cell))
        }
    } else {
        None
    }
}

/// A pixel lies in the `index`-th cell along an axis exactly if its offset
/// from the grid's edge, divided by the cell size, is `index`.
proof fn lemma_cell_of_pixel(edge: int, cell_size: int, index: int, p: int)
    requires
        cell_size > 0,
        0 <= index,
    ensures
        (edge + index * cell_size <= p < edge + index * cell_size + cell_size) <==> (edge <= p && (p
            - edge) / cell_size == index),
{
    let d = p - edge;
    vstd::arithmetic::div_mod::lemma_fundamental_div_mod(d, cell_size);
    vstd::arithmetic::div_mod::lemma_mod_bound(d, cell_size);
    let q = d / cell_size;
    if index * cell_size <= d < index * cell_size + cell_size {
        vstd::arithmetic::div_mod::lemma_fundamental_div_mod_converse(
            d,
            cell_size,
            index,
            d - index * cell_size,
        );
    }
    if edge <= p && q == index {
        assert(cell_size * q == index * cell_size) by (nonlinear_arith)
            requires
                q == index,
        ;
    }
}

/// Paints a cell of the debug view: the square of side `block_size` whose
/// top left corner is (`xo`, `yo`), in the cell's flat colour. An open cell
/// is not painted.
pub fn draw_cell(framebuffer: &mut Framebuffer, xo: usize, yo: usize, block_size: usize, cell: char)
    requires
        old(framebuffer).wf(),
    ensures
        final(framebuffer).wf(),
        final(framebuffer).same_frame(*old(framebuffer)),
        forall|u: int, v: int|
            final(framebuffer).contains(u, v) ==> #[trigger] final(framebuffer).pixel(u, v) == (
            if cell != OPEN && in_square(xo as int, yo as int, block_size as int, u, v) {
                cell_color(cell)
            } else {
                old(framebuffer).pixel(u, v)
            }),
{
    if cell != ' ' {
        let color = cell_to_color(cell);
        framebuffer.fill_square(xo, yo, block_size, color);
    }
}

/// Whether the cell in column `column` of row `row` comes before the cell
/// in column `next_column` of row `next_row`, row by row.
spec fn cell_done(column: int, row: int, next_column: int, next_row: int) -> bool {
    row < next_row || (row == next_row && column < next_column)
}

/// The position along one axis of the `index`-th cell of a grid that
/// starts at `edge`, unless it lies beyond every screen.
fn cell_edge(edge: usize, index: usize, cell_size: usize) -> (position: Option<usize>)
    ensures
        position matches Some(p) ==> p == edge + index * cell_size,
        position is None ==> edge + index * cell_size > SCREEN_MAX,
{
    match index.checked_mul(cell_size) {
        Some(offset) => match edge.checked_add(offset) {
            Some(p) => Some(p),
            None => None,
        },
        None => None,
    }
}

/// Draws the maze as a grid of square cells of side `cell_size`, with its
/// top left corner at (`left`, `top`), each cell in its flat colour. With
/// `skip_open` set, open cells are not drawn.
pub fn draw_grid(
    framebuffer: &mut Framebuffer,
    maze: &Vec<Vec<char>>,
    left: usize,
    top: usize,
    cell_size: usize,
    skip_open: bool,
)
    requires
        old(framebuffer).wf(),
    ensures
        final(framebuffer).wf(),
        final(framebuffer).same_frame(*old(framebuffer)),
        forall|u: int, v: int|
            final(framebuffer).contains(u, v) ==> #[trigger] final(framebuffer).pixel(u, v)
                == match grid_pixel(
                grid(maze),
                left as int,
                top as int,
                cell_size as int,
                skip_open,
                u,
                v,
            ) {
                Some(color) => color,
                None => old(framebuffer).pixel(u, v),
            },
{
    if cell_size == 0 {
        return ;
    }
    let mut row: usize = 0;
    while row < maze.len()
        invariant
            0 <= row <= maze.len(),
            cell_size > 0,
            framebuffer.wf(),
            framebuffer.same_frame(*old(framebuffer)),
            forall|u: int, v: int|
                framebuffer.contains(u, v) ==> #[trigger] framebuffer.pixel(u, v) == (
                if grid_pixel(grid(maze), left as int, top as int, cell_size as int, skip_open, u, v)
                    is Some && (v - top) / (cell_size as int) < row {
                    grid_pixel(
                        grid(maze),
                        left as int,
                        top as int,
                        cell_size as int,
                        skip_open,
                        u,
                        v,
                    )->0
                } else {
                    old(framebuffer).pixel(u, v)
                }),
        decreases maze.len() - row,
    {
        let mut column: usize = 0;
        while column < maze[row].len()
            invariant
                0 <= row < maze.len(),
                0 <= column <= maze@[row as int]@.len(),
                cell_size > 0,
                framebuffer.wf(),
                framebuffer.same_frame(*old(framebuffer)),
                forall|u: int, v: int|
                    framebuffer.contains(u, v) ==> #[trigger] framebuffer.pixel(u, v) == (
                    if grid_pixel(
                        grid(maze),
                        left as int,
                        top as int,
                        cell_size as int,
                        skip_open,
                        u,
                        v,
                    ) is Some && cell_done(
                        (u - left) / (cell_size as int),
                        (v - top) / (cell_size as int),
                        column as int,
                        row as int,
                    ) {
                        grid_pixel(
                            grid(maze),
                            left as int,
                            top as int,
                            cell_size as int,
                            skip_open,
                            u,
                            v,
                        )->0
                    } else {
                        old(framebuffer).pixel(u, v)
                    }),
            decreases maze@[row as int]@.len() - column,
        {
            let cell = maze[row][column];
            match (cell_edge(left, column, cell_size), cell_edge(top, row, cell_size)) {
                (Some(xo), Some(yo)) => {
                    if skip_open {
                        draw_cell(framebuffer, xo, yo, cell_size, cell);
                    } else {
                        framebuffer.fill_square(xo, yo, cell_size, cell_to_color(cell));
                    }
                },
                _ => {},
            }
            proof {
                assert forall|u: int, v: int| framebuffer.contains(u, v) implies #[trigger]
                    framebuffer.pixel(u, v) == (if grid_pixel(
                    grid(maze),
                    left as int,
                    top as int,
                    cell_size as int,
                    skip_open,
                    u,
                    v,
                ) is Some && cell_done(
                    (u - left) / (cell_size as int),
                    (v - top) / (cell_size as int),
                    column + 1,
                    row as int,
                ) {
                    grid_pixel(
                        grid(maze),
                        left as int,
                        top as int,
                        cell_size as int,
                        skip_open,
                        u,
                        v,
                    )->0
                } else {
                    old(framebuffer).pixel(u, v)
                }) by {
                    lemma_cell_of_pixel(left as int, cell_size as int, column as int, u);
                    lemma_cell_of_pixel(top as int, cell_size as int, row as int, v);
                }
            }
            column += 1;
        }
        row += 1;
    }
}

/// Whether the ray from the player along `dir` has a sample, up to and
/// including its strike, in world unit (`u`, `v`).
pub open spec fn ray_passes(
    g: Seq<Seq<char>>,
    player: Player,
    dir: Direction,
    block_size: int,
    u: int,
    v: int,
) -> bool {
    ray_covers(player.pos, dir, hit_step(g, player.pos, dir, block_size), u, v)
}

/// Whether one of the first `count` rays passes through world unit (`u`, `v`).
pub open spec fn rays_pass(
    g: Seq<Seq<char>>,
    player: Player,
    rays: Seq<Direction>,
    block_size: int,
    count: int,
    u: int,
    v: int,
) -> bool {
    exists|i: int| 0 <= i < count && #[trigger] ray_passes(g, player, rays[i], block_size, u, v)
}

/// Whether the player stands in world unit (`u`, `v`).
pub open spec fn player_at(player: Player, u: int, v: int) -> bool {
    world_unit(player.pos.x as int) == u && world_unit(player.pos.y as int) == v
}

/// The first `count + 1` rays pass where the first `count` pass and where
/// the next one passes; no ray at all passes nowhere.
proof fn lemma_rays_pass_next(
    g: Seq<Seq<char>>,
    player: Player,
    rays: Seq<Direction>,
    block_size: int,
    count: int,
    u: int,
    v: int,
)
    requires
        0 <= count,
    ensures
        rays_pass(g, player, rays, block_size, count + 1, u, v) <==> rays_pass(
            g,
            player,
            rays,
            block_size,
            count,
            u,
            v,
        ) || ray_passes(g, player, rays[count], block_size, u, v),
        !rays_pass(g, player, rays, block_size, 0, u, v),
{
}

/// Renders the debug view, one pixel per world unit: the cells of the maze
/// that are not open, each in its flat colour; over them the player, as one
/// dot; over both the samples of every ray of `rays`, cast from the player
/// up to its strike.
pub fn render2d(
    framebuffer: &mut Framebuffer,
    player: &Player,
    maze: &Vec<Vec<char>>,
    block_size: usize,
    textures: &WallTextures,
    rays: &Vec<Direction>,
)
    requires
        old(framebuffer).wf(),
        maze_fits(grid(maze), block_size as int),
        forall|i: int| 0 <= i < rays@.len() ==> (#[trigger] rays@[i]).wf(),
    ensures
        final(framebuffer).wf(),
        final(framebuffer).same_frame(*old(framebuffer)),
        forall|u: int, v: int|
            final(framebuffer).contains(u, v) ==> #[trigger] final(framebuffer).pixel(u, v) == (
            if rays_pass(grid(maze), *player, rays@, block_size as int, rays@.len() as int, u, v) {
                RAY_COLOR
            } else if player_at(*player, u, v) {
                PLAYER_COLOR
            } else {
                match grid_pixel(grid(maze), 0, 0, block_size as int, true, u, v) {
                    Some(color) => color,
                    None => old(framebuffer).pixel(u, v),
                }
            }),
{
    draw_grid(framebuffer, maze, 0, 0, block_size, true);
    paint_world_point(framebuffer, player.pos.x, player.pos.y, PLAYER_COLOR);
    let ghost base = *framebuffer;
    let mut i: usize = 0;
    while i < rays.len()
        invariant
            0 <= i <= rays@.len(),
            maze_fits(grid(maze), block_size as int),
            forall|j: int| 0 <= j < rays@.len() ==> (#[trigger] rays@[j]).wf(),
            framebuffer.wf(),
            framebuffer.same_frame(*old(framebuffer)),
            base.same_frame(*old(framebuffer)),
            forall|u: int, v: int|
                framebuffer.contains(u, v) ==> #[trigger] framebuffer.pixel(u, v) == (
                if rays_pass(grid(maze), *player, rays@, block_size as int, i as int, u, v) {
                    RAY_COLOR
                } else {
                    base.pixel(u, v)
                }),
        decreases rays@.len() - i,
    {
        cast_ray(framebuffer, maze, textures, player, rays[i], block_size, true);
        proof {
            assert forall|u: int, v: int| framebuffer.contains(u, v) implies #[trigger]
                framebuffer.pixel(u, v) == (if rays_pass(
                grid(maze),
                *player,
                rays@,
                block_size as int,
                i + 1,
                u,
                v,
            ) {
                RAY_COLOR
            } else {
                base.pixel(u, v)
            }) by {
                lemma_rays_pass_next(grid(maze), *player, rays@, block_size as int, i as int, u, v);
            }
        }
        i += 1;
    }
}

/// The first column, or row, of the player's marker on the minimap: the
/// player's fixed-point coordinate, a negative one counting as zero,
/// scaled from the size of a cell of the world to the size of a cell of the
/// minimap and rounded down to a pixel, moved to the minimap's place on the
/// screen, and moved back by half the marker to centre it.
pub open spec fn marker_edge(coordinate: int, scale: int, block_size: int, offset: int) -> int {
    let along = if coordinate < 0 {
        0
    } else {
        coordinate
    };
    along * scale / (block_size * ONE) + offset - MARKER_SIZE / 2
}

/// Whether pixel (`u`, `v`) belongs to the player's marker on the minimap.
pub open spec fn in_marker(
    player: Player,
    scale: int,
    left: int,
    top: int,
    block_size: int,
    u: int,
    v: int,
) -> bool {
    in_square(
        marker_edge(player.pos.x as int, scale, block_size, left),
        marker_edge(player.pos.y as int, scale, block_size, top),
        MARKER_SIZE as int,
        u,
        v,
    )
}

/// The part of the marker's extent along one axis that may be on a screen:
/// its first pixel that is not negative, and how many pixels follow from
/// there. `None` if no part of it can be on any screen.
fn marker_span(coordinate: i64, scale: usize, block_size: usize, offset: usize) -> (span: Option<
    (usize, usize),
>)
    requires
        block_size > 0,
    ensures
        span matches Some((first, count)) ==> {
            let edge = marker_edge(
                coordinate as int,
                scale as int,
                block_size as int,
                offset as int,
            );
            &&& first == (if edge < 0 {
                0
            } else {
                edge
            })
            &&& first + count == edge + MARKER_SIZE
        },
        span is None ==> marker_edge(
            coordinate as int,
            scale as int,
            block_size as int,
            offset as int,
        ) > SCREEN_MAX,
{
    let along: u128 = if coordinate < 0 {
        0
    } else {
        coordinate as u128
    };
    assert(along * scale <= 0x8000_0000_0000_0000 * 0xffff_ffff_ffff_ffff) by (nonlinear_arith)
        requires
            0 <= along <= 0x8000_0000_0000_0000,
            0 <= scale <= 0xffff_ffff_ffff_ffff,
    ;
    assert(0 < block_size * ONE <= 0xffff_ffff_ffff_ffff * 0x1_0000) by (nonlinear_arith)
        requires
            0 < block_size <= 0xffff_ffff_ffff_ffff,
            ONE == 0x1_0000,
    ;
    let cell: u128 = block_size as u128 * (ONE as u128);
    proof {
        vstd::arithmetic::div_mod::lemma_div_is_ordered_by_denominator(
            (along * scale) as int,
            1,
            cell as int,
        );
    }
    let centre: u128 = along * scale as u128 / cell + offset as u128;
    if centre > 0x8000_0002 {
        return None;
    }
    if centre >= 3 {
        Some(((centre - 3) as usize, 6))
    } else {
        Some((0, (centre + 3) as usize))
    }
}

/// Draws the minimap: the maze as a grid of square cells of side
/// `minimap_scale`, with its top left corner at (`minimap_x`, `minimap_y`),
/// every cell in its flat colour, and over it the player's marker.
pub fn draw_minimap(
    framebuffer: &mut Framebuffer,
    player: &Player,
    maze: &Vec<Vec<char>>,
    minimap_scale: usize,
    minimap_x: usize,
    minimap_y: usize,
    block_size: usize,
)
    requires
        old(framebuffer).wf(),
        block_size > 0,
    ensures
        final(framebuffer).wf(),
        final(framebuffer).same_frame(*old(framebuffer)),
        forall|u: int, v: int|
            final(framebuffer).contains(u, v) ==> #[trigger] final(framebuffer).pixel(u, v) == (
            if in_marker(
                *player,
                minimap_scale as int,
                minimap_x as int,
                minimap_y as int,
                block_size as int,
                u,
                v,
            ) {
                MARKER_COLOR
            } else {
                match grid_pixel(
                    grid(maze),
                    minimap_x as int,
                    minimap_y as int,
                    minimap_scale as int,
                    false,
                    u,
                    v,
                ) {
                    Some(color) => color,
                    None => old(framebuffer).pixel(u, v),
                }
            }),
{
    draw_grid(framebuffer, maze, minimap_x, minimap_y, minimap_scale, false);
    match marker_span(player.pos.x, minimap_scale, block_size, minimap_x) {
        Some((x, width)) => match marker_span(player.pos.y, minimap_scale, block_size, minimap_y) {
            Some((y, height)) => {
                framebuffer.fill_rect(x, y, width, height, MARKER_COLOR);
            },
            None => {},
        },
        None => {},
    }
}

} // verus!

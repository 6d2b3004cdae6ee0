//! The ray caster: steps a ray through the maze until it strikes a blocking cell.

use vstd::prelude::*;
use crate::fixed::{
    hypot, isqrt, lemma_isqrt_exists, lemma_isqrt_unique, length, Direction, Point, COORD_MAX, ONE,
};
use crate::framebuffer::Framebuffer;
use crate::maze::{blocked, grid, is_blocked, symbol_at, OUTSIDE};
use crate::player::Player;
use crate::texture::WallTextures;

verus! {

/// The colour in which a cast draws its samples when asked to.
pub const RAY_COLOR: u32 = 0xFFDDDD;

/// The largest extent of a maze along either axis, in whole world units.
pub const EXTENT_MAX: usize = 0x8000_0000;

/// The largest distance a ray can report, in fixed-point units.
pub const DISTANCE_MAX: u64 = 0x1_0000_0000_0000;

/// What a ray struck.
#[derive(Clone, Copy, Debug, PartialEq, Eq, Structural)]
pub struct Intersect {
    /// The distance from the ray's origin to the sample that struck, in
    /// fixed-point units, rounded down.
    pub distance: u64,
    /// The symbol of the struck cell; `OUTSIDE` if the ray left the grid.
    pub impact: char,
    /// The texture column of the strike, below the width of the texture
    /// bound to `impact`.
    pub tx: u32,
}

/// The whole world unit that holds the fixed-point coordinate `c`.
pub open spec fn world_unit(c: int) -> int {
    c / (ONE as int)
}

/// The index, along one axis, of the cell that holds the fixed-point coordinate `c`.
pub open spec fn cell_index(c: int, block_size: int) -> int {
    world_unit(c) / block_size
}

/// The offset of the fixed-point coordinate `c` inside its cell, in whole world units.
pub open spec fn cell_offset(c: int, block_size: int) -> int {
    world_unit(c) % block_size
}

/// The maze, with cells of `block_size` world units, lies within the
/// representable world: no side is longer than `EXTENT_MAX` world units.
pub open spec fn maze_fits(g: Seq<Seq<char>>, block_size: int) -> bool {
    &&& 0 < block_size <= EXTENT_MAX
    &&& g.len() * block_size <= EXTENT_MAX
    &&& forall|row: int| 0 <= row < g.len() ==> (#[trigger] g[row]).len() * block_size <= EXTENT_MAX
}

/// Whether the `k`-th sample of the ray lies in a blocking cell.
pub open spec fn sample_blocked(
    g: Seq<Seq<char>>,
    origin: Point,
    dir: Direction,
    block_size: int,
    k: int,
) -> bool {
    let (x, y) = origin.advanced(dir, k);
    blocked(g, cell_index(x, block_size), cell_index(y, block_size))
}

/// `k` is the step at which the ray strikes: the first sample in a blocking cell.
pub open spec fn is_hit_step(
    g: Seq<Seq<char>>,
    origin: Point,
    dir: Direction,
    block_size: int,
    k: int,
) -> bool {
    &&& 0 <= k
    &&& sample_blocked(g, origin, dir, block_size, k)
    &&& forall|j: int| 0 <= j < k ==> !#[trigger] sample_blocked(g, origin, dir, block_size, j)
}

/// The step at which the ray strikes.
pub open spec fn hit_step(g: Seq<Seq<char>>, origin: Point, dir: Direction, block_size: int) -> int {
    choose|k: int| is_hit_step(g, origin, dir, block_size, k)
}

/// The texture column of a strike at the given offsets inside the struck
/// cell. A strike well inside the cell's horizontal extent came through a
/// horizontal edge, and the offset along x counts; otherwise the offset
/// along y does. The offset is scaled from the cell's size to the texture's width.
pub open spec fn texture_u(offset_x: int, offset_y: int, block_size: int, width: int) -> int {
    let along = if 1 < offset_x < block_size - 1 {
        offset_x
    } else {
        offset_y
    };
    along * width / block_size
}

/// The length of the ray from `origin` to its `k`-th sample, rounded down.
pub open spec fn ray_length(dir: Direction, k: int) -> int {
    hypot(k * dir.dx, k * dir.dy)
}

/// What the ray reports if it strikes at step `k`.
pub open spec fn strike(
    g: Seq<Seq<char>>,
    textures: WallTextures,
    origin: Point,
    dir: Direction,
    block_size: int,
    k: int,
) -> Intersect {
    let (x, y) = origin.advanced(dir, k);
    let impact = symbol_at(g, cell_index(x, block_size), cell_index(y, block_size));
    Intersect {
        distance: ray_length(dir, k) as u64,
        impact,
        tx: texture_u(
            cell_offset(x, block_size),
            cell_offset(y, block_size),
            block_size,
            textures.width_of(impact),
        ) as u32,
    }
}

/// What a ray from `origin` along `dir` strikes.
pub open spec fn intersect(
    g: Seq<Seq<char>>,
    textures: WallTextures,
    origin: Point,
    dir: Direction,
    block_size: int,
) -> Intersect {
    strike(g, textures, origin, dir, block_size, hit_step(g, origin, dir, block_size))
}

/// Whether the `j`-th sample of the ray lies in world unit (`u`, `v`).
pub open spec fn on_sample(origin: Point, dir: Direction, j: int, u: int, v: int) -> bool {
    let (x, y) = origin.advanced(dir, j);
    world_unit(x) == u && world_unit(y) == v
}

/// Whether one of the samples 0 to `k` of the ray lies in world unit (`u`, `v`).
pub open spec fn ray_covers(origin: Point, dir: Direction, k: int, u: int, v: int) -> bool {
    exists|j: int| 0 <= j <= k && #[trigger] on_sample(origin, dir, j, u, v)
}

/// A coordinate whose cell index is one of `cells` cells, with cells of
/// `block_size` world units that together fit the world, lies inside the world.
proof fn lemma_cell_bound(c: int, block_size: int, cells: int)
    requires
        0 < block_size,
        0 <= cell_index(c, block_size) < cells,
        cells * block_size <= EXTENT_MAX,
    ensures
        0 <= c < COORD_MAX,
{
    let w = world_unit(c);
    let q = w / block_size;
    vstd::arithmetic::div_mod::lemma_fundamental_div_mod(w, block_size);
    vstd::arithmetic::div_mod::lemma_fundamental_div_mod(c, ONE as int);
    assert(block_size * (q + 1) <= cells * block_size) by (nonlinear_arith)
        requires
            q + 1 <= cells,
            0 < block_size,
    ;
    assert(block_size * (q + 1) == block_size * q + block_size) by (nonlinear_arith);
}

/// A sample in a cell that does not block lies inside the grid, hence inside the world.
pub proof fn lemma_unblocked_in_world(g: Seq<Seq<char>>, block_size: int, x: int, y: int)
    requires
        maze_fits(g, block_size),
        !blocked(g, cell_index(x, block_size), cell_index(y, block_size)),
    ensures
        0 <= x < COORD_MAX,
        0 <= y < COORD_MAX,
{
    let row = cell_index(y, block_size);
    lemma_cell_bound(y, block_size, g.len() as int);
    lemma_cell_bound(x, block_size, g[row].len() as int);
}

/// Each sample lies one step of the direction beyond the one before, and
/// the first at the origin.
proof fn lemma_advance(origin: Point, dir: Direction, k: int)
    ensures
        origin.advanced(dir, k + 1).0 == origin.advanced(dir, k).0 + dir.dx,
        origin.advanced(dir, k + 1).1 == origin.advanced(dir, k).1 + dir.dy,
        origin.advanced(dir, 0) == (origin.x as int, origin.y as int),
{
    assert((k + 1) * dir.dx == k * dir.dx + dir.dx) by (nonlinear_arith);
    assert((k + 1) * dir.dy == k * dir.dy + dir.dy) by (nonlinear_arith);
}

/// Below a blocked sample there is a first one.
proof fn lemma_first_blocked(
    g: Seq<Seq<char>>,
    origin: Point,
    dir: Direction,
    block_size: int,
    n: int,
)
    requires
        0 <= n,
        sample_blocked(g, origin, dir, block_size, n),
    ensures
        exists|k: int| 0 <= k <= n && is_hit_step(g, origin, dir, block_size, k),
    decreases n,
{
    if forall|j: int| 0 <= j < n ==> !#[trigger] sample_blocked(g, origin, dir, block_size, j) {
        assert(is_hit_step(g, origin, dir, block_size, n));
    } else {
        let j = choose|j: int| 0 <= j < n && #[trigger] sample_blocked(g, origin, dir, block_size, j);
        lemma_first_blocked(g, origin, dir, block_size, j);
    }
}

/// The step at which a ray strikes is unique.
pub proof fn lemma_hit_step_unique(
    g: Seq<Seq<char>>,
    origin: Point,
    dir: Direction,
    block_size: int,
    k: int,
)
    requires
        is_hit_step(g, origin, dir, block_size, k),
    ensures
        hit_step(g, origin, dir, block_size) == k,
{
    let h = hit_step(g, origin, dir, block_size);
    assert(is_hit_step(g, origin, dir, block_size, h));
    if h < k {
        assert(!sample_blocked(g, origin, dir, block_size, h));
    } else if k < h {
        assert(!sample_blocked(g, origin, dir, block_size, k));
    }
}

/// Every ray strikes: the cells beyond the grid block, and a direction is
/// not zero, so the samples leave the grid after finitely many steps.
pub proof fn lemma_ray_strikes(g: Seq<Seq<char>>, origin: Point, dir: Direction, block_size: int)
    requires
        dir.wf(),
        maze_fits(g, block_size),
    ensures
        is_hit_step(g, origin, dir, block_size, hit_step(g, origin, dir, block_size)),
{
    let n = COORD_MAX as int;
    if sample_blocked(g, origin, dir, block_size, 0) {
        lemma_first_blocked(g, origin, dir, block_size, 0);
    } else {
        lemma_advance(origin, dir, 0);
        lemma_unblocked_in_world(g, block_size, origin.x as int, origin.y as int);
        if !sample_blocked(g, origin, dir, block_size, n) {
            let (x, y) = origin.advanced(dir, n);
            lemma_unblocked_in_world(g, block_size, x, y);
        }
        lemma_first_blocked(g, origin, dir, block_size, n);
    }
}

/// Whether the maze, with cells of `block_size` world units, lies within the
/// representable world.
pub fn fits_world(maze: &Vec<Vec<char>>, block_size: usize) -> (fits: bool)
    ensures
        fits == maze_fits(grid(maze), block_size as int),
{
    if block_size == 0 || block_size > EXTENT_MAX {
        return false;
    }
    let limit: usize = EXTENT_MAX / block_size;
    proof {
        vstd::arithmetic::div_mod::lemma_fundamental_div_mod(
            EXTENT_MAX as int,
            block_size as int,
        );
        vstd::arithmetic::div_mod::lemma_mod_bound(EXTENT_MAX as int, block_size as int);
        assert(block_size * (limit + 1) == block_size * limit + block_size) by (nonlinear_arith);
    }
    if maze.len() > limit {
        assert(maze.len() * block_size > EXTENT_MAX) by (nonlinear_arith)
            requires
                maze.len() >= limit + 1,
                block_size * (limit + 1) > EXTENT_MAX,
                block_size > 0,
        ;
        return false;
    }
    assert(maze.len() * block_size <= EXTENT_MAX) by (nonlinear_arith)
        requires
            maze.len() <= limit,
            block_size * limit <= EXTENT_MAX,
            block_size > 0,
    ;
    let mut row: usize = 0;
    while row < maze.len()
        invariant
            0 <= row <= maze.len(),
            0 < block_size <= EXTENT_MAX,
            block_size * limit <= EXTENT_MAX,
            block_size * (limit + 1) > EXTENT_MAX,
            forall|r: int| 0 <= r < row ==> (#[trigger] grid(maze)[r]).len() * block_size <= EXTENT_MAX,
        decreases maze.len() - row,
    {
        let len = maze[row].len();
        assert(grid(maze)[row as int].len() == len);
        if len > limit {
            assert(len * block_size > EXTENT_MAX) by (nonlinear_arith)
                requires
                    len >= limit + 1,
                    block_size * (limit + 1) > EXTENT_MAX,
                    block_size > 0,
            ;
            return false;
        }
        assert(len * block_size <= EXTENT_MAX) by (nonlinear_arith)
            requires
                len <= limit,
                block_size * limit <= EXTENT_MAX,
                block_size > 0,
        ;
        row += 1;
    }
    true
}

/// The number of rows of a maze, and the length of each, fit a `usize`.
pub proof fn lemma_grid_lengths(maze: &Vec<Vec<char>>)
    ensures
        grid(maze).len() <= usize::MAX,
        forall|row: int|
            0 <= row < grid(maze).len() ==> (#[trigger] grid(maze)[row]).len() <= usize::MAX,
{
    assert(grid(maze).len() == maze.len());
    assert forall|row: int| 0 <= row < grid(maze).len() implies (#[trigger] grid(maze)[row]).len()
        <= usize::MAX by {
        assert(grid(maze)[row].len() == maze@[row].len());
    }
}

/// The index of the cell that holds the coordinate `c`, unless the index is
/// negative or does not fit a `usize`.
pub fn cell_of(c: i64, block_size: usize) -> (cell: Option<usize>)
    requires
        0 < block_size <= EXTENT_MAX,
    ensures
        cell is Some <==> 0 <= cell_index(c as int, block_size as int) <= usize::MAX,
        cell matches Some(i) ==> i == cell_index(c as int, block_size as int),
{
    if c < 0 {
        proof {
            lemma_world_unit_bounds(c as int);
            let w = world_unit(c as int);
            vstd::arithmetic::div_mod::lemma_fundamental_div_mod(w, block_size as int);
        }
        return None;
    }
    let unit: u64 = (c / ONE) as u64;
    let index: u64 = unit / (block_size as u64);
    if index > usize::MAX as u64 {
        None
    } else {
        Some(index as usize)
    }
}

/// The offset of the coordinate `c` inside its cell, in whole world units.
pub fn offset_of(c: i64, block_size: usize) -> (offset: u64)
    requires
        0 < block_size <= EXTENT_MAX,
    ensures
        offset == cell_offset(c as int, block_size as int),
        offset < block_size,
{
    let size: i64 = block_size as i64;
    let unit: Option<i64> = c.checked_div_euclid(ONE);
    proof {
        vstd::arithmetic::div_mod::lemma_fundamental_div_mod(c as int, ONE as int);
        vstd::arithmetic::div_mod::lemma_mod_bound(world_unit(c as int), block_size as int);
    }
    match unit {
        Some(w) => match w.checked_rem_euclid(size) {
            Some(r) => r as u64,
            None => 0,
        },
        None => 0,
    }
}

/// Whether the cell that holds the point (`x`, `y`) blocks.
pub fn blocked_at(maze: &Vec<Vec<char>>, x: i64, y: i64, block_size: usize) -> (b: bool)
    requires
        0 < block_size <= EXTENT_MAX,
    ensures
        b == blocked(
            grid(maze),
            cell_index(x as int, block_size as int),
            cell_index(y as int, block_size as int),
        ),
{
    proof {
        lemma_grid_lengths(maze);
    }
    match cell_of(y, block_size) {
        Some(row) => match cell_of(x, block_size) {
            Some(col) => is_blocked(maze, col, row),
            None => true,
        },
        None => true,
    }
}

/// The symbol of the cell that holds the point (`x`, `y`); `OUTSIDE` beyond the grid.
pub fn symbol_of(maze: &Vec<Vec<char>>, x: i64, y: i64, block_size: usize) -> (symbol: char)
    requires
        0 < block_size <= EXTENT_MAX,
    ensures
        symbol == symbol_at(
            grid(maze),
            cell_index(x as int, block_size as int),
            cell_index(y as int, block_size as int),
        ),
{
    proof {
        lemma_grid_lengths(maze);
    }
    match cell_of(y, block_size) {
        Some(row) => match cell_of(x, block_size) {
            Some(col) => {
                if row < maze.len() && col < maze[row].len() {
                    maze[row][col]
                } else {
                    OUTSIDE
                }
            },
            None => OUTSIDE,
        },
        None => OUTSIDE,
    }
}

/// The texture column of a strike at the given offsets inside the struck
/// cell, for a texture of the given width.
pub fn texture_column(offset_x: u64, offset_y: u64, block_size: usize, width: u32) -> (tx: u32)
    requires
        0 < block_size <= EXTENT_MAX,
        offset_x < block_size,
        offset_y < block_size,
    ensures
        tx == texture_u(offset_x as int, offset_y as int, block_size as int, width as int),
        width > 0 ==> tx < width,
        width == 0 ==> tx == 0,
{
    let size: u64 = block_size as u64;
    let along: u64 = if 1 < offset_x && offset_x < size - 1 {
        offset_x
    } else {
        offset_y
    };
    assert(along * width <= 0x8000_0000 * 0xffff_ffff) by (nonlinear_arith)
        requires
            0 <= along <= 0x8000_0000,
            0 <= width <= 0xffff_ffff,
    ;
    let scaled: u64 = along * (width as u64) / size;
    proof {
        if width > 0 {
            assert(along * width < size * width) by (nonlinear_arith)
                requires
                    along < size,
                    width > 0,
            ;
            vstd::arithmetic::div_mod::lemma_div_by_multiple_is_strongly_ordered(
                along * width,
                size * width,
                width as int,
                size as int,
            );
            vstd::arithmetic::div_mod::lemma_div_by_multiple(width as int, size as int);
        }
    }
    scaled as u32
}

/// A coordinate is negative exactly if its world unit is, and the world
/// unit of a coordinate that fits 64 bits is below 2 to the 47th.
pub proof fn lemma_world_unit_bounds(c: int)
    ensures
        c < 0 <==> world_unit(c) < 0,
        c <= i64::MAX ==> world_unit(c) < 0x8000_0000_0000,
{
    vstd::arithmetic::div_mod::lemma_fundamental_div_mod(c, ONE as int);
}

/// The samples 0 to `k + 1` cover what the samples 0 to `k` cover and what
/// sample `k + 1` covers.
proof fn lemma_covers_next(origin: Point, dir: Direction, k: int, u: int, v: int)
    requires
        0 <= k,
    ensures
        ray_covers(origin, dir, k + 1, u, v) <==> ray_covers(origin, dir, k, u, v) || on_sample(
            origin,
            dir,
            k + 1,
            u,
            v,
        ),
        ray_covers(origin, dir, 0, u, v) <==> on_sample(origin, dir, 0, u, v),
{
}

/// A vector whose components stay within the world, and one step beyond,
/// is no longer than `DISTANCE_MAX`.
proof fn lemma_length_bound(dx: int, dy: int)
    requires
        -(COORD_MAX + ONE) <= dx <= COORD_MAX + ONE,
        -(COORD_MAX + ONE) <= dy <= COORD_MAX + ONE,
    ensures
        hypot(dx, dy) <= DISTANCE_MAX,
{
    let a = dx * dx + dy * dy;
    let limit = (COORD_MAX + ONE) as int;
    assert(0 <= dx * dx <= limit * limit) by (nonlinear_arith)
        requires
            -limit <= dx <= limit,
    ;
    assert(0 <= dy * dy <= limit * limit) by (nonlinear_arith)
        requires
            -limit <= dy <= limit,
    ;
    assert(limit * limit == 0x4000_0001_0000_0001_0000_0000) by (nonlinear_arith)
        requires
            limit == 0x8000_0001_0000,
    ;
    lemma_isqrt_exists(a);
    let r = isqrt(a);
    if r > DISTANCE_MAX {
        assert(r * r >= 0x1_0000_0000_0001 * 0x1_0000_0000_0001) by (nonlinear_arith)
            requires
                r >= 0x1_0000_0000_0001,
        ;
    }
}

/// The distance still to go before a sample must have left the world,
/// along the first axis on which the direction moves.
spec fn remaining(dir: Direction, x: int, y: int) -> int {
    if dir.dx > 0 {
        COORD_MAX + ONE - x
    } else if dir.dx < 0 {
        x + ONE + 1
    } else if dir.dy > 0 {
        COORD_MAX + ONE - y
    } else {
        y + ONE + 1
    }
}

/// Paints in `color` the pixel that stands for the world unit holding the
/// point (`x`, `y`), in a view of one pixel per world unit. A point that
/// falls outside the framebuffer is skipped.
pub fn paint_world_point(framebuffer: &mut Framebuffer, x: i64, y: i64, color: u32)
    requires
        old(framebuffer).wf(),
    ensures
        final(framebuffer).wf(),
        final(framebuffer).same_frame(*old(framebuffer)),
        forall|u: int, v: int|
            final(framebuffer).contains(u, v) ==> #[trigger] final(framebuffer).pixel(u, v) == (
            if world_unit(x as int) == u && world_unit(y as int) == v {
                color
            } else {
                old(framebuffer).pixel(u, v)
            }),
{
    proof {
        lemma_world_unit_bounds(x as int);
        lemma_world_unit_bounds(y as int);
    }
    if x >= 0 && y >= 0 {
        let px: u64 = (x / ONE) as u64;
        let py: u64 = (y / ONE) as u64;
        if px <= usize::MAX as u64 && py <= usize::MAX as u64 {
            framebuffer.paint(px as usize, py as usize, color);
        }
    }
}

/// Casts a ray from the player's position along `dir` and reports what it
/// strikes. The ray is sampled at the player's position and then after each
/// whole step of `dir`; it strikes at the first sample that lies in a
/// blocking cell, and every cell outside the grid blocks. With `draw_line`
/// set, each sample up to and including the strike is painted in
/// `RAY_COLOR`, one pixel per world unit; otherwise the framebuffer is left
/// as it was. The current colour is never changed.
pub fn cast_ray(
    framebuffer: &mut Framebuffer,
    maze: &Vec<Vec<char>>,
    textures: &WallTextures,
    player: &Player,
    dir: Direction,
    block_size: usize,
    draw_line: bool,
) -> (hit: Intersect)
    requires
        old(framebuffer).wf(),
        dir.wf(),
        maze_fits(grid(maze), block_size as int),
    ensures
        is_hit_step(
            grid(maze),
            player.pos,
            dir,
            block_size as int,
            hit_step(grid(maze), player.pos, dir, block_size as int),
        ),
        hit == intersect(grid(maze), *textures, player.pos, dir, block_size as int),
        hit.distance == ray_length(dir, hit_step(grid(maze), player.pos, dir, block_size as int)),
        hit.distance <= DISTANCE_MAX,
        sample_blocked(grid(maze), player.pos, dir, block_size as int, 0) ==> hit.distance == 0,
        textures.width_of(hit.impact) > 0 ==> hit.tx < textures.width_of(hit.impact),
        final(framebuffer).wf(),
        final(framebuffer).same_frame(*old(framebuffer)),
        !draw_line ==> *final(framebuffer) == *old(framebuffer),
        draw_line ==> forall|u: int, v: int|
            final(framebuffer).contains(u, v) ==> #[trigger] final(framebuffer).pixel(u, v) == (
            if ray_covers(
                player.pos,
                dir,
                hit_step(grid(maze), player.pos, dir, block_size as int),
                u,
                v,
            ) {
                RAY_COLOR
            } else {
                old(framebuffer).pixel(u, v)
            }),
{
    let mut x: i64 = player.pos.x;
    let mut y: i64 = player.pos.y;
    let ghost mut k: int = 0;
    proof {
        lemma_advance(player.pos, dir, 0);
    }
    if draw_line {
        paint_world_point(framebuffer, x, y, RAY_COLOR);
        proof {
            assert forall|u: int, v: int| framebuffer.contains(u, v) implies #[trigger]
                framebuffer.pixel(u, v) == (if ray_covers(player.pos, dir, 0, u, v) {
                RAY_COLOR
            } else {
                old(framebuffer).pixel(u, v)
            }) by {
                lemma_covers_next(player.pos, dir, 0, u, v);
            }
        }
    }
    while !blocked_at(maze, x, y, block_size)
        invariant
            dir.wf(),
            maze_fits(grid(maze), block_size as int),
            0 <= k,
            (x as int, y as int) == player.pos.advanced(dir, k),
            k == 0 ==> x == player.pos.x && y == player.pos.y,
            k > 0 ==> 0 <= player.pos.x < COORD_MAX && 0 <= player.pos.y < COORD_MAX,
            k > 0 ==> -ONE <= x <= COORD_MAX + ONE && -ONE <= y <= COORD_MAX + ONE,
            forall|j: int|
                0 <= j < k ==> !#[trigger] sample_blocked(
                    grid(maze),
                    player.pos,
                    dir,
                    block_size as int,
                    j,
                ),
            framebuffer.wf(),
            framebuffer.same_frame(*old(framebuffer)),
            !draw_line ==> *framebuffer == *old(framebuffer),
            draw_line ==> forall|u: int, v: int|
                framebuffer.contains(u, v) ==> #[trigger] framebuffer.pixel(u, v) == (
                if ray_covers(player.pos, dir, k, u, v) {
                    RAY_COLOR
                } else {
                    old(framebuffer).pixel(u, v)
                }),
        decreases remaining(dir, x as int, y as int),
    {
        proof {
            lemma_unblocked_in_world(grid(maze), block_size as int, x as int, y as int);
            lemma_advance(player.pos, dir, k);
        }
        x = x + dir.dx as i64;
        y = y + dir.dy as i64;
        proof {
            k = k + 1;
        }
        if draw_line {
            paint_world_point(framebuffer, x, y, RAY_COLOR);
            proof {
                assert forall|u: int, v: int| framebuffer.contains(u, v) implies #[trigger]
                    framebuffer.pixel(u, v) == (if ray_covers(player.pos, dir, k, u, v) {
                    RAY_COLOR
                } else {
                    old(framebuffer).pixel(u, v)
                }) by {
                    lemma_covers_next(player.pos, dir, k - 1, u, v);
                }
            }
        }
    }
    proof {
        lemma_hit_step_unique(grid(maze), player.pos, dir, block_size as int, k);
        lemma_isqrt_unique(0, 0);
    }
    let impact = symbol_of(maze, x, y, block_size);
    let tx = texture_column(
        offset_of(x, block_size),
        offset_of(y, block_size),
        block_size,
        textures.texture_width(impact),
    );
    let distance = length(x - player.pos.x, y - player.pos.y);
    proof {
        lemma_length_bound((x - player.pos.x) as int, (y - player.pos.y) as int);
    }
    Intersect { distance, impact, tx }
}

/// A ray whose origin lies in a blocking cell, or outside the grid, strikes
/// at once: at step zero and at distance zero.
pub proof fn lemma_blocked_origin_strikes_at_once(
    g: Seq<Seq<char>>,
    textures: WallTextures,
    origin: Point,
    dir: Direction,
    block_size: int,
)
    requires
        sample_blocked(g, origin, dir, block_size, 0),
    ensures
        hit_step(g, origin, dir, block_size) == 0,
        intersect(g, textures, origin, dir, block_size).distance == 0,
{
    lemma_hit_step_unique(g, origin, dir, block_size, 0);
    lemma_isqrt_unique(0, 0);
}

/// A ray of more steps is longer by at least the length of one step: by
/// any `gap` whose square is at most the squared length of the direction.
pub proof fn lemma_ray_length_gap(dir: Direction, n: int, k: int, gap: int)
    requires
        0 <= n < k,
        0 <= gap,
        gap * gap <= dir.dx * dir.dx + dir.dy * dir.dy,
    ensures
        ray_length(dir, n) + gap <= ray_length(dir, k),
{
    let dx = dir.dx as int;
    let dy = dir.dy as int;
    let l = dx * dx + dy * dy;
    let a = (n * dx) * (n * dx) + (n * dy) * (n * dy);
    let b = (k * dx) * (k * dx) + (k * dy) * (k * dy);
    assert(a == n * n * l && 0 <= a) by (nonlinear_arith)
        requires
            a == (n * dx) * (n * dx) + (n * dy) * (n * dy),
            l == dx * dx + dy * dy,
    ;
    assert(b == k * k * l && 0 <= b) by (nonlinear_arith)
        requires
            b == (k * dx) * (k * dx) + (k * dy) * (k * dy),
            l == dx * dx + dy * dy,
    ;
    lemma_isqrt_exists(a);
    lemma_isqrt_exists(b);
    let r = isqrt(a);
    let s = isqrt(b);
    assert(r * gap <= n * l) by (nonlinear_arith)
        requires
            0 <= r,
            0 <= gap,
            0 <= n,
            r * r <= n * n * l,
            gap * gap <= l,
    {
        if r * gap > n * l {
            assert((r * gap) * (r * gap) > (n * l) * (n * l));
            assert((r * r) * (gap * gap) <= (n * n * l) * l);
        }
    }
    assert((r + gap) * (r + gap) <= b) by (nonlinear_arith)
        requires
            r * gap <= n * l,
            r * r <= n * n * l,
            gap * gap <= l,
            b == k * k * l,
            0 <= n,
            n + 1 <= k,
            0 <= l,
    {
        assert((r + gap) * (r + gap) == r * r + 2 * (r * gap) + gap * gap);
        assert((n + 1) * (n + 1) * l == n * n * l + 2 * (n * l) + l);
        assert((n + 1) * (n + 1) * l <= k * k * l);
    }
    if s < r + gap {
        assert((s + 1) * (s + 1) <= (r + gap) * (r + gap)) by (nonlinear_arith)
            requires
                0 <= s,
                s + 1 <= r + gap,
        ;
    }
}

/// A ray of more steps is strictly longer, even after rounding down.
pub proof fn lemma_ray_length_increases(dir: Direction, n: int, k: int)
    requires
        dir.wf(),
        0 <= n < k,
    ensures
        ray_length(dir, n) < ray_length(dir, k),
{
    assert(1 <= dir.dx * dir.dx + dir.dy * dir.dy) by (nonlinear_arith)
        requires
            dir.dx != 0 || dir.dy != 0,
    ;
    lemma_ray_length_gap(dir, n, k, 1);
}

/// No ray is longer than `DISTANCE_MAX`: its strike lies at most one step
/// beyond the world.
pub proof fn lemma_ray_length_bounded(
    g: Seq<Seq<char>>,
    origin: Point,
    dir: Direction,
    block_size: int,
)
    requires
        dir.wf(),
        maze_fits(g, block_size),
    ensures
        0 <= ray_length(dir, hit_step(g, origin, dir, block_size)) <= DISTANCE_MAX,
{
    let k = hit_step(g, origin, dir, block_size);
    lemma_ray_strikes(g, origin, dir, block_size);
    if k == 0 {
        lemma_isqrt_unique(0, 0);
    } else {
        assert(!sample_blocked(g, origin, dir, block_size, 0));
        assert(!sample_blocked(g, origin, dir, block_size, k - 1));
        lemma_advance(origin, dir, 0);
        lemma_advance(origin, dir, k - 1);
        let (x0, y0) = origin.advanced(dir, 0);
        let (x1, y1) = origin.advanced(dir, k - 1);
        lemma_unblocked_in_world(g, block_size, x0, y0);
        lemma_unblocked_in_world(g, block_size, x1, y1);
        lemma_length_bound(k * dir.dx, k * dir.dy);
    }
    let squared = (k * dir.dx) * (k * dir.dx) + (k * dir.dy) * (k * dir.dy);
    assert(0 <= squared) by (nonlinear_arith)
        requires
            squared == (k * dir.dx) * (k * dir.dx) + (k * dir.dy) * (k * dir.dy),
    ;
    lemma_isqrt_exists(squared);
}

/// Moving the origin of a ray closer to what it strikes, by whole steps
/// along the ray and no further than the strike, moves the strike as many
/// steps closer and makes the ray strictly shorter.
pub proof fn lemma_closer_origin_shorter_ray(
    g: Seq<Seq<char>>,
    origin: Point,
    moved: Point,
    dir: Direction,
    block_size: int,
    m: int,
)
    requires
        dir.wf(),
        maze_fits(g, block_size),
        0 < m <= hit_step(g, origin, dir, block_size),
        (moved.x as int, moved.y as int) == origin.advanced(dir, m),
    ensures
        hit_step(g, moved, dir, block_size) == hit_step(g, origin, dir, block_size) - m,
        ray_length(dir, hit_step(g, moved, dir, block_size)) < ray_length(
            dir,
            hit_step(g, origin, dir, block_size),
        ),
{
    let k = hit_step(g, origin, dir, block_size);
    lemma_ray_strikes(g, origin, dir, block_size);
    assert forall|j: int|
        sample_blocked(g, moved, dir, block_size, j) == sample_blocked(
            g,
            origin,
            dir,
            block_size,
            j + m,
        ) by {
        assert((j + m) * dir.dx == m * dir.dx + j * dir.dx) by (nonlinear_arith);
        assert((j + m) * dir.dy == m * dir.dy + j * dir.dy) by (nonlinear_arith);
    }
    lemma_hit_step_unique(g, moved, dir, block_size, k - m);
    lemma_ray_length_increases(dir, k - m, k);
}

} // verus!

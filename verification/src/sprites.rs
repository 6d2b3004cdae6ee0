//! Billboard sprites: flat images that face the camera, sized by their distance
//! and hidden by nearer walls.

use vstd::prelude::*;
use crate::color::{is_transparent, transparent};
use crate::depth::depth_at;
use crate::fixed::{hypot, length, Point, ONE};
use crate::framebuffer::{lemma_pixel_index_bounds, pixel_index, Framebuffer, SCREEN_MAX};
use crate::player::Player;
use crate::texture::Texture;
use crate::walls::{project, projected_size};

verus! {

/// A sprite as it appears on the screen: a square of `size` pixels whose
/// top left corner is the pixel (`left`, `top`), at the given distance from
/// the camera. The corner may lie off the screen.
#[derive(Clone, Copy, Debug, PartialEq, Eq, Structural)]
pub struct Billboard {
    pub left: i128,
    pub top: i64,
    pub size: u64,
    pub distance: u64,
}

/// How far the point lies ahead of the player: the offset from the player
/// to the point, projected on the heading. For a heading of length `ONE` it
/// is `ONE` times the distance times the cosine of the angle between the
/// heading and the offset.
pub open spec fn forward_of(player: Player, pos: Point) -> int {
    (pos.x - player.pos.x) * player.heading.dx + (pos.y - player.pos.y) * player.heading.dy
}

/// How far the point lies to the side of the player: as `forward_of`, with
/// the sine in place of the cosine.
pub open spec fn side_of(player: Player, pos: Point) -> int {
    player.heading.dx * (pos.y - player.pos.y) - player.heading.dy * (pos.x - player.pos.x)
}

/// The numerator of the horizontal offset of the sprite's centre from the
/// centre of a screen of the given width. The offset is the tangent of the
/// angle between heading and sprite, times half the screen's width, divided
/// by half the field of view; as a fraction it is `shift_numerator` over
/// `shift_denominator`.
pub open spec fn shift_numerator(forward: int, side: int, width: int) -> int {
    if forward < 0 {
        -side * width * ONE
    } else {
        side * width * ONE
    }
}

/// The denominator of the horizontal offset of the sprite's centre; see
/// `shift_numerator`. It is positive unless `forward` or `half_fov` is zero.
pub open spec fn shift_denominator(forward: int, half_fov: int) -> int {
    if forward < 0 {
        2 * -forward * half_fov
    } else {
        2 * forward * half_fov
    }
}

/// The first column of the sprite's square: the centre of the screen, plus
/// the horizontal offset of the sprite's centre, minus half the square's
/// size, the sum rounded down once.
pub open spec fn sprite_left(forward: int, side: int, half_fov: int, width: int, size: int) -> int {
    let n = shift_numerator(forward, side, width);
    let d = shift_denominator(forward, half_fov);
    (2 * n + (width - size) * d) / (2 * d)
}

/// The billboard of a sprite at `pos` on a screen of the given size. The
/// square is as tall as a wall at the sprite's distance, centred on the
/// horizon, and its first column is `sprite_left`. A sprite that is neither
/// ahead of nor behind the player has no billboard, and with a field of
/// view of zero none has.
pub open spec fn billboard_of(player: Player, pos: Point, width: int, height: int) -> Option<
    Billboard,
> {
    let forward = forward_of(player, pos);
    let side = side_of(player, pos);
    if forward == 0 || player.half_fov == 0 {
        None
    } else {
        let distance = hypot(pos.x - player.pos.x, pos.y - player.pos.y);
        let size = projected_size(height, distance);
        Some(
            Billboard {
                left: sprite_left(forward, side, player.half_fov as int, width, size) as i128,
                top: ((height - size) / 2) as i64,
                size: size as u64,
                distance: distance as u64,
            },
        )
    }
}

/// Whether pixel (`x`, `y`) lies in the billboard's square.
pub open spec fn sprite_covers(board: Billboard, x: int, y: int) -> bool {
    &&& board.left <= x < board.left + board.size
    &&& board.top <= y < board.top + board.size
}

/// The first column or row of the part of a billboard that is on the
/// screen, given the billboard's own first column or row.
pub open spec fn clipped(start: int) -> int {
    if start < 0 {
        0
    } else {
        start
    }
}

/// The texture coordinate shown at `offset` pixels into a billboard of the
/// given size: the offset scaled to the texture's extent, and kept inside it.
pub open spec fn sprite_coordinate(offset: int, size: int, extent: int) -> int {
    let scaled = offset * extent / size;
    if scaled < extent - 1 {
        scaled
    } else {
        extent - 1
    }
}

/// The colour of the sprite texture that the billboard shows at pixel
/// (`x`, `y`). Offsets count from the first column and row that are on the
/// screen.
pub open spec fn sprite_texel(texture: Texture, board: Billboard, x: int, y: int) -> u32 {
    texture.texel(
        sprite_coordinate(x - clipped(board.left as int), board.size as int, texture.width as int),
        sprite_coordinate(y - clipped(board.top as int), board.size as int, texture.height as int),
    )
}

/// Whether the billboard is drawn at pixel (`x`, `y`): the pixel lies in
/// its square, the depth buffer has an entry for the pixel, the texture is
/// not transparent there, and the sprite is strictly nearer than what the
/// depth buffer records.
pub open spec fn sprite_drawn(
    width: int,
    depths: Seq<u64>,
    texture: Texture,
    board: Billboard,
    x: int,
    y: int,
) -> bool {
    &&& sprite_covers(board, x, y)
    &&& pixel_index(width, x, y) < depths.len()
    &&& !transparent(sprite_texel(texture, board, x, y))
    &&& board.distance < depth_at(depths, width, x, y)
}

/// The colour of pixel (`u`, `v`) once the sprite at `pos` has been
/// rendered over `before`: the sprite's texel where its billboard is drawn,
/// and what was there before everywhere else.
pub open spec fn sprite_pixel(
    before: Framebuffer,
    player: Player,
    pos: Point,
    depths: Seq<u64>,
    texture: Texture,
    u: int,
    v: int,
) -> u32 {
    match billboard_of(player, pos, before.width as int, before.height as int) {
        Some(board) => if sprite_drawn(before.width as int, depths, texture, board, u, v) {
            sprite_texel(texture, board, u, v)
        } else {
            before.pixel(u, v)
        },
        None => before.pixel(u, v),
    }
}

/// A sprite behind a nearer surface is hidden, and a sprite in front of a
/// farther one shows wherever its texture is not transparent.
pub proof fn lemma_depth_occlusion(
    width: int,
    depths: Seq<u64>,
    texture: Texture,
    board: Billboard,
    x: int,
    y: int,
)
    requires
        sprite_covers(board, x, y),
        0 <= pixel_index(width, x, y) < depths.len(),
    ensures
        board.distance > depth_at(depths, width, x, y) ==> !sprite_drawn(
            width,
            depths,
            texture,
            board,
            x,
            y,
        ),
        board.distance < depth_at(depths, width, x, y) ==> (sprite_drawn(
            width,
            depths,
            texture,
            board,
            x,
            y,
        ) <==> !transparent(sprite_texel(texture, board, x, y))),
{
}

/// A pixel whose texel is the chroma key is never drawn, wherever it lies
/// and whatever the depth buffer holds.
pub proof fn lemma_chroma_key_skipped(
    width: int,
    depths: Seq<u64>,
    texture: Texture,
    board: Billboard,
    x: int,
    y: int,
)
    requires
        sprite_texel(texture, board, x, y) == crate::color::CHROMA_KEY,
    ensures
        !sprite_drawn(width, depths, texture, board, x, y),
{
}

/// The texture coordinate shown at `offset` pixels into a billboard of the
/// given size.
fn scale_coordinate(offset: usize, size: u64, extent: u32) -> (c: u32)
    requires
        offset <= SCREEN_MAX,
        size > 0,
        extent > 0,
    ensures
        c == sprite_coordinate(offset as int, size as int, extent as int),
        c < extent,
{
    assert(offset * extent <= 0x7fff_ffff * 0xffff_ffff) by (nonlinear_arith)
        requires
            0 <= offset <= 0x7fff_ffff,
            0 <= extent <= 0xffff_ffff,
    ;
    let scaled: u64 = offset as u64 * extent as u64 / size;
    if scaled < (extent - 1) as u64 {
        scaled as u32
    } else {
        extent - 1
    }
}

/// The part of the billboard's extent along one axis that is on a screen
/// of the given extent: the first pixel that is on it, and the pixel after
/// the last.
fn clip(start: i128, size: u64, extent: usize) -> (range: (usize, usize))
    requires
        extent <= SCREEN_MAX,
        -0x4000_0000_0000_0000_0000_0000_0000_0000 <= start
            <= 0x4000_0000_0000_0000_0000_0000_0000_0000,
    ensures
        range.0 <= range.1 <= extent,
        range.0 < range.1 ==> range.0 == clipped(start as int) && (range.1 == start + size
            || range.1 == extent) && range.1 <= start + size,
        range.0 == range.1 ==> start + size <= 0 || start >= extent || size == 0 || extent == 0,
{
    let end: i128 = start + size as i128;
    if end <= 0 || start >= extent as i128 {
        return (0, 0);
    }
    let first: usize = if start < 0 {
        0
    } else {
        start as usize
    };
    let last: usize = if end < extent as i128 {
        end as usize
    } else {
        extent
    };
    if first <= last {
        (first, last)
    } else {
        (0, 0)
    }
}

/// Draws a billboard. Each pixel of its square that is on the screen shows
/// the texel that the pixel's offset in the square, scaled to the texture,
/// points at, provided the depth buffer has an entry for the pixel, the
/// texel is not transparent, and the sprite is strictly nearer than what the
/// depth buffer records. Everything else is left as it was; the depth buffer
/// is only read.
pub fn draw_billboard(
    framebuffer: &mut Framebuffer,
    zbuffer: &Vec<u64>,
    texture: &Texture,
    board: &Billboard,
)
    requires
        old(framebuffer).wf(),
        texture.wf(),
    ensures
        final(framebuffer).wf(),
        final(framebuffer).same_frame(*old(framebuffer)),
        forall|u: int, v: int|
            final(framebuffer).contains(u, v) ==> #[trigger] final(framebuffer).pixel(u, v) == (
            if sprite_drawn(old(framebuffer).width as int, zbuffer@, *texture, *board, u, v) {
                sprite_texel(*texture, *board, u, v)
            } else {
                old(framebuffer).pixel(u, v)
            }),
{
    let width = framebuffer.width;
    let height = framebuffer.height;
    if board.size == 0
        || board.left < -0x4000_0000_0000_0000_0000_0000_0000_0000
        || board.left > 0x4000_0000_0000_0000_0000_0000_0000_0000 {
        return ;
    }
    let (start_x, end_x) = clip(board.left, board.size, width);
    let (start_y, end_y) = clip(board.top as i128, board.size, height);
    if start_x >= end_x || start_y >= end_y {
        return ;
    }
    let mut x: usize = start_x;
    while x < end_x
        invariant
            start_x <= x <= end_x <= width,
            start_y < end_y <= height,
            width == framebuffer.width,
            height == framebuffer.height,
            width == old(framebuffer).width,
            board.size > 0,
            start_x == clipped(board.left as int),
            start_y == clipped(board.top as int),
            end_x <= board.left + board.size,
            end_x == board.left + board.size || end_x == width,
            end_y <= board.top + board.size,
            end_y == board.top + board.size || end_y == height,
            framebuffer.wf(),
            framebuffer.same_frame(*old(framebuffer)),
            texture.wf(),
            forall|u: int, v: int|
                framebuffer.contains(u, v) ==> #[trigger] framebuffer.pixel(u, v) == (if u < x
                    && sprite_drawn(width as int, zbuffer@, *texture, *board, u, v) {
                    sprite_texel(*texture, *board, u, v)
                } else {
                    old(framebuffer).pixel(u, v)
                }),
        decreases end_x - x,
    {
        let tx = scale_coordinate(x - start_x, board.size, texture.width);
        let mut y: usize = start_y;
        while y < end_y
            invariant
                start_x <= x < end_x <= width,
                start_y <= y <= end_y <= height,
                width == framebuffer.width,
                height == framebuffer.height,
                width == old(framebuffer).width,
                board.size > 0,
                start_x == clipped(board.left as int),
                start_y == clipped(board.top as int),
                tx == sprite_coordinate(
                    x - clipped(board.left as int),
                    board.size as int,
                    texture.width as int,
                ),
                tx < texture.width,
                end_x <= board.left + board.size,
                end_x == board.left + board.size || end_x == width,
                end_y <= board.top + board.size,
                end_y == board.top + board.size || end_y == height,
                framebuffer.wf(),
                framebuffer.same_frame(*old(framebuffer)),
                texture.wf(),
                forall|u: int, v: int|
                    framebuffer.contains(u, v) ==> #[trigger] framebuffer.pixel(u, v) == (if (u
                        < x || (u == x && v < y)) && sprite_drawn(
                        width as int,
                        zbuffer@,
                        *texture,
                        *board,
                        u,
                        v,
                    ) {
                        sprite_texel(*texture, *board, u, v)
                    } else {
                        old(framebuffer).pixel(u, v)
                    }),
            decreases end_y - y,
        {
            proof {
                lemma_pixel_index_bounds(width as int, height as int, x as int, y as int);
                assert(width * height == framebuffer.buffer.len());
            }
            let index = y * width + x;
            if index < zbuffer.len() {
                let ty = scale_coordinate(y - start_y, board.size, texture.height);
                let color = texture.get_pixel_color(tx, ty);
                if !is_transparent(color) && board.distance < zbuffer[index] {
                    framebuffer.paint(x, y, color);
                }
            }
            y += 1;
        }
        x += 1;
    }
}

/// Half of `n`, rounded down.
fn half(n: i128) -> (h: i128)
    requires
        -0x4000_0000_0000_0000_0000 <= n <= 0x4000_0000_0000_0000_0000,
    ensures
        h == n / 2,
{
    match n.checked_div_euclid(2) {
        Some(h) => h,
        None => 0,
    }
}

/// The billboard of a sprite at `pos` on a screen of the given size, if it has one.
pub fn project_sprite(player: &Player, pos: &Point, width: usize, height: usize) -> (board: Option<
    Billboard,
>)
    requires
        player.pos.in_world(),
        player.heading.wf(),
        pos.in_world(),
        width <= SCREEN_MAX,
        height <= SCREEN_MAX,
    ensures
        board == billboard_of(*player, *pos, width as int, height as int),
{
    let vx: i128 = (pos.x - player.pos.x) as i128;
    let vy: i128 = (pos.y - player.pos.y) as i128;
    let hx: i128 = player.heading.dx as i128;
    let hy: i128 = player.heading.dy as i128;
    let fov: i128 = player.half_fov as i128;
    proof {
        lemma_product_bound(vx as int, hx as int, 0x1_0000_0000_0000, 0x1_0000);
        lemma_product_bound(vy as int, hy as int, 0x1_0000_0000_0000, 0x1_0000);
        lemma_product_bound(hx as int, vy as int, 0x1_0000, 0x1_0000_0000_0000);
        lemma_product_bound(hy as int, vx as int, 0x1_0000, 0x1_0000_0000_0000);
    }
    let forward: i128 = vx * hx + vy * hy;
    let side: i128 = hx * vy - hy * vx;
    if forward == 0 || player.half_fov == 0 {
        return None;
    }
    let distance = length(pos.x - player.pos.x, pos.y - player.pos.y);
    let size = project(height, distance);
    let ahead: i128 = if forward < 0 {
        -forward
    } else {
        forward
    };
    let across: i128 = if forward < 0 {
        -side
    } else {
        side
    };
    proof {
        lemma_product_bound(across as int, width as int, 0x2_0000_0000_0000_0000, 0x8000_0000);
        lemma_product_bound(
            across * width,
            ONE as int,
            0x1_0000_0000_0000_0000_0000_0000,
            0x1_0000,
        );
        lemma_product_bound(2 * ahead, fov as int, 0x4_0000_0000_0000_0000, 0x1_0000_0000);
        assert(2 * ahead * fov > 0) by (nonlinear_arith)
            requires
                ahead > 0,
                fov > 0,
        ;
    }
    let numerator: i128 = across * width as i128 * 65536;
    let denominator: i128 = 2 * ahead * fov;
    proof {
        let q = (numerator as int) / (denominator as int);
        let r = (numerator as int) % (denominator as int);
        vstd::arithmetic::div_mod::lemma_fundamental_div_mod(numerator as int, denominator as int);
        vstd::arithmetic::div_mod::lemma_mod_bound(numerator as int, denominator as int);
        assert(-0x1_0000_0000_0000_0000_0000_0000_0000 <= q <= 0x1_0000_0000_0000_0000_0000_0000_0000)
            by (nonlinear_arith)
            requires
                numerator == denominator * q + r,
                0 <= r < denominator,
                -0x1_0000_0000_0000_0000_0000_0000_0000 <= numerator
                    <= 0x1_0000_0000_0000_0000_0000_0000_0000,
        ;
    }
    let shift: i128 = match numerator.checked_div_euclid(denominator) {
        Some(q) => q,
        None => 0,
    };
    let rest: i128 = match numerator.checked_rem_euclid(denominator) {
        Some(r) => r,
        None => 0,
    };
    let room: i128 = width as i128 - size as i128;
    let half_room: i128 = half(room);
    let carry: i128 = if room - 2 * half_room == 1 && 2 * rest >= denominator {
        1
    } else {
        0
    };
    proof {
        lemma_sum_rounded_once(
            numerator as int,
            denominator as int,
            room as int,
            shift + half_room + carry,
        );
        assert(numerator == shift_numerator(forward as int, side as int, width as int));
        assert(denominator == shift_denominator(forward as int, player.half_fov as int));
    }
    let left: i128 = shift + half_room + carry;
    let top: i64 = half(height as i128 - size as i128) as i64;
    Some(Billboard { left, top, size, distance })
}

/// The sum of the fraction `n` / `d` and half of `e`, rounded down once, is
/// the fraction rounded down, plus half of `e` rounded down, plus one where
/// both roundings lost a half or more between them.
proof fn lemma_sum_rounded_once(n: int, d: int, e: int, sum: int)
    requires
        d > 0,
        sum == n / d + e / 2 + (if e % 2 == 1 && 2 * (n % d) >= d {
            1int
        } else {
            0int
        }),
    ensures
        sum == (2 * n + e * d) / (2 * d),
{
    let q = n / d;
    let r = n % d;
    let f = e / 2;
    vstd::arithmetic::div_mod::lemma_fundamental_div_mod(n, d);
    vstd::arithmetic::div_mod::lemma_mod_bound(n, d);
    let total = 2 * n + e * d;
    if e % 2 == 0 {
        assert(total == (2 * d) * (q + f) + 2 * r) by (nonlinear_arith)
            requires
                total == 2 * n + e * d,
                n == d * q + r,
                e == 2 * f,
        ;
        vstd::arithmetic::div_mod::lemma_fundamental_div_mod_converse(total, 2 * d, q + f, 2 * r);
    } else if 2 * r >= d {
        assert(total == (2 * d) * (q + f + 1) + (2 * r - d)) by (nonlinear_arith)
            requires
                total == 2 * n + e * d,
                n == d * q + r,
                e == 2 * f + 1,
        ;
        vstd::arithmetic::div_mod::lemma_fundamental_div_mod_converse(
            total,
            2 * d,
            q + f + 1,
            2 * r - d,
        );
    } else {
        assert(total == (2 * d) * (q + f) + (2 * r + d)) by (nonlinear_arith)
            requires
                total == 2 * n + e * d,
                n == d * q + r,
                e == 2 * f + 1,
        ;
        vstd::arithmetic::div_mod::lemma_fundamental_div_mod_converse(
            total,
            2 * d,
            q + f,
            2 * r + d,
        );
    }
}

/// The product of two bounded numbers is bounded by the product of the bounds.
proof fn lemma_product_bound(a: int, b: int, bound_a: int, bound_b: int)
    by (nonlinear_arith)
    requires
        -bound_a <= a <= bound_a,
        -bound_b <= b <= bound_b,
    ensures
        -(bound_a * bound_b) <= a * b <= bound_a * bound_b,
{
}

/// Renders the sprite at `pos` as a billboard: projects it to the screen
/// and draws what the depth buffer and the chroma key let through.
pub fn render_enemy(
    framebuffer: &mut Framebuffer,
    player: &Player,
    pos: &Point,
    zbuffer: &Vec<u64>,
    texture: &Texture,
)
    requires
        old(framebuffer).wf(),
        player.pos.in_world(),
        player.heading.wf(),
        pos.in_world(),
        texture.wf(),
    ensures
        final(framebuffer).wf(),
        final(framebuffer).same_frame(*old(framebuffer)),
        forall|u: int, v: int|
            final(framebuffer).contains(u, v) ==> #[trigger] final(framebuffer).pixel(u, v)
                == sprite_pixel(
                *old(framebuffer),
                *player,
                *pos,
                zbuffer@,
                *texture,
                u,
                v,
            ),
{
    match project_sprite(player, pos, framebuffer.width, framebuffer.height) {
        Some(board) => draw_billboard(framebuffer, zbuffer, texture, &board),
        None => {},
    }
}

/// The colour of pixel (`u`, `v`) once the first `count` of the sprites
/// have been rendered over `before`, one after the other. Where billboards
/// overlap, the one rendered last shows: sprites do not hide each other by
/// distance.
pub open spec fn sprites_pixel(
    before: Framebuffer,
    player: Player,
    enemies: Seq<Point>,
    depths: Seq<u64>,
    texture: Texture,
    count: int,
    u: int,
    v: int,
) -> u32
    decreases count,
{
    if count <= 0 {
        before.pixel(u, v)
    } else {
        let below = sprites_pixel(before, player, enemies, depths, texture, count - 1, u, v);
        match billboard_of(player, enemies[count - 1], before.width as int, before.height as int) {
            Some(board) => if sprite_drawn(before.width as int, depths, texture, board, u, v) {
                sprite_texel(texture, board, u, v)
            } else {
                below
            },
            None => below,
        }
    }
}

/// Renders every sprite of `enemies`, in order, as `render_enemy` does.
pub fn render_enemies(
    framebuffer: &mut Framebuffer,
    player: &Player,
    zbuffer: &Vec<u64>,
    texture: &Texture,
    enemies: &Vec<Point>,
)
    requires
        old(framebuffer).wf(),
        player.pos.in_world(),
        player.heading.wf(),
        forall|i: int| 0 <= i < enemies@.len() ==> (#[trigger] enemies@[i]).in_world(),
        texture.wf(),
    ensures
        final(framebuffer).wf(),
        final(framebuffer).same_frame(*old(framebuffer)),
        forall|u: int, v: int|
            final(framebuffer).contains(u, v) ==> #[trigger] final(framebuffer).pixel(u, v)
                == sprites_pixel(
                *old(framebuffer),
                *player,
                enemies@,
                zbuffer@,
                *texture,
                enemies@.len() as int,
                u,
                v,
            ),
{
    let mut i: usize = 0;
    while i < enemies.len()
        invariant
            0 <= i <= enemies@.len(),
            framebuffer.wf(),
            framebuffer.same_frame(*old(framebuffer)),
            player.pos.in_world(),
            player.heading.wf(),
            forall|j: int| 0 <= j < enemies@.len() ==> (#[trigger] enemies@[j]).in_world(),
            texture.wf(),
            forall|u: int, v: int|
                framebuffer.contains(u, v) ==> #[trigger] framebuffer.pixel(u, v) == sprites_pixel(
                    *old(framebuffer),
                    *player,
                    enemies@,
                    zbuffer@,
                    *texture,
                    i as int,
                    u,
                    v,
                ),
        decreases enemies@.len() - i,
    {
        render_enemy(framebuffer, player, &enemies[i], zbuffer, texture);
        i += 1;
    }
}

} // verus!

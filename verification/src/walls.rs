//! The first-person view: sky and floor, then one textured wall column per ray.

use vstd::prelude::*;
use crate::caster::{
    cast_ray, hit_step, intersect, lemma_ray_length_bounded, maze_fits, ray_length, Intersect,
    DISTANCE_MAX,
};
use crate::depth::{depth_at, DEPTH_FAR};
use crate::fixed::{Direction, ONE};
use crate::framebuffer::{
    lemma_pixel_index_bounds, lemma_pixel_index_injective, pixel_index, Framebuffer, SCREEN_MAX,
};
use crate::maze::grid;
use crate::player::Player;
use crate::texture::{Texture, WallTextures, UNTEXTURED};

verus! {

/// The visual scale of the projection: a surface this many world units away
/// is drawn as tall as the screen.
pub const WALL_SCALE: u64 = 70;

/// The colour of the floor.
pub const FLOOR_COLOR: u32 = 0x717171;

/// The colour behind the walls at pixel (`x`, `y`) of a screen of the given
/// height: above the horizon the sky texture, tiled; below it the floor.
pub open spec fn backdrop(sky: Texture, height: int, x: int, y: int) -> u32 {
    if y < height / 2 {
        sky.texel(x % (sky.width as int), y % (sky.height as int))
    } else {
        FLOOR_COLOR
    }
}

/// The height in pixels at which a surface at the given distance is drawn on
/// a screen of the given height. A distance of zero counts as the smallest
/// distance there is, one fixed-point unit.
pub open spec fn projected_size(screen_height: int, distance: int) -> int {
    screen_height * WALL_SCALE * ONE / (if distance < 1 {
        1
    } else {
        distance
    })
}

/// The first row of a stake of the given height, centred on the horizon.
/// It lies above the screen, and is negative, for a stake taller than the
/// screen.
pub open spec fn stake_start(screen_height: int, stake: int) -> int {
    (screen_height - stake) / 2
}

/// The first row of a stake of the given height that is on the screen.
pub open spec fn stake_top(screen_height: int, stake: int) -> int {
    if stake_start(screen_height, stake) < 0 {
        0
    } else {
        stake_start(screen_height, stake)
    }
}

/// The row after the last row of a stake of the given height, centred on the horizon.
pub open spec fn stake_bottom(screen_height: int, stake: int) -> int {
    (screen_height + stake) / 2
}

/// Whether row `y` of the screen lies in the stake of a wall at the given depth.
pub open spec fn in_stake(screen_height: int, depth: int, y: int) -> bool {
    let stake = projected_size(screen_height, depth);
    stake_top(screen_height, stake) <= y < stake_bottom(screen_height, stake)
}

/// The texture row shown at row `y` of the stake of a wall at the given
/// depth: the position of the row between the stake's first row and its
/// bottom, scaled to the height of the texture. The position counts from the
/// stake's first row also where that row lies above the screen.
pub open spec fn stake_v(screen_height: int, depth: int, y: int, texture_height: int) -> int {
    let stake = projected_size(screen_height, depth);
    let start = stake_start(screen_height, stake);
    let bottom = stake_bottom(screen_height, stake);
    (y - start) * texture_height / (bottom - start)
}

/// The colour of the wall that `hit` struck, at row `y` of its stake.
pub open spec fn wall_color(
    textures: WallTextures,
    hit: Intersect,
    screen_height: int,
    depth: int,
    y: int,
) -> u32 {
    textures.color_of(
        hit.impact,
        hit.tx as int,
        stake_v(screen_height, depth, y, textures.height_of(hit.impact)),
    )
}

/// Whether a wall at the given depth is drawn at pixel (`x`, `y`): the row
/// lies in the wall's stake, the depth buffer has an entry for the pixel, and
/// the wall is strictly nearer than what the entry records.
pub open spec fn wall_drawn(
    width: int,
    height: int,
    depths: Seq<u64>,
    x: int,
    y: int,
    depth: int,
) -> bool {
    &&& in_stake(height, depth, y)
    &&& pixel_index(width, x, y) < depths.len()
    &&& depth < depth_at(depths, width, x, y)
}

/// The height in pixels at which a surface at the given distance is drawn.
pub fn project(screen_height: usize, distance: u64) -> (size: u64)
    requires
        screen_height <= SCREEN_MAX,
    ensures
        size == projected_size(screen_height as int, distance as int),
        size <= screen_height * WALL_SCALE * ONE,
{
    let divisor: u64 = if distance < 1 {
        1
    } else {
        distance
    };
    assert(screen_height * WALL_SCALE * ONE <= 0x7fff_ffff * 70 * 65536) by (nonlinear_arith)
        requires
            0 <= screen_height <= 0x7fff_ffff,
            WALL_SCALE == 70,
            ONE == 65536,
    ;
    let scaled: u64 = screen_height as u64 * WALL_SCALE * (ONE as u64);
    proof {
        vstd::arithmetic::div_mod::lemma_div_is_ordered_by_denominator(
            scaled as int,
            1,
            divisor as int,
        );
    }
    scaled / divisor
}

/// Paints the backdrop over the whole frame: the tiled sky above the
/// horizon, the floor below.
pub fn draw_backdrop(framebuffer: &mut Framebuffer, sky: &Texture)
    requires
        old(framebuffer).wf(),
        sky.wf(),
    ensures
        final(framebuffer).wf(),
        final(framebuffer).same_frame(*old(framebuffer)),
        forall|x: int, y: int|
            final(framebuffer).contains(x, y) ==> #[trigger] final(framebuffer).pixel(x, y)
                == backdrop(*sky, final(framebuffer).height as int, x, y),
{
    let width = framebuffer.width;
    let height = framebuffer.height;
    let horizon = height / 2;
    let mut x: usize = 0;
    while x < width
        invariant
            0 <= x <= width,
            width == framebuffer.width,
            height == framebuffer.height,
            horizon == height / 2,
            framebuffer.wf(),
            framebuffer.same_frame(*old(framebuffer)),
            sky.wf(),
            forall|u: int, v: int|
                framebuffer.contains(u, v) && u < x ==> #[trigger] framebuffer.pixel(u, v)
                    == backdrop(*sky, height as int, u, v),
        decreases width - x,
    {
        let mut y: usize = 0;
        while y < height
            invariant
                0 <= y <= height,
                0 <= x < width,
                width == framebuffer.width,
                height == framebuffer.height,
                horizon == height / 2,
                framebuffer.wf(),
                framebuffer.same_frame(*old(framebuffer)),
                sky.wf(),
                forall|u: int, v: int|
                    framebuffer.contains(u, v) && (u < x || (u == x && v < y))
                        ==> #[trigger] framebuffer.pixel(u, v) == backdrop(
                        *sky,
                        height as int,
                        u,
                        v,
                    ),
            decreases height - y,
        {
            let color = if y < horizon {
                let tx = (x % sky.width as usize) as u32;
                let ty = (y % sky.height as usize) as u32;
                sky.get_pixel_color(tx, ty)
            } else {
                FLOOR_COLOR
            };
            framebuffer.paint(x, y, color);
            y += 1;
        }
        x += 1;
    }
}

/// Draws, in column `x`, the stake of the wall that `hit` struck at the
/// given depth. A row of the stake is painted, and its depth recorded, only
/// where the depth buffer has an entry for the pixel and the wall is strictly
/// nearer than the entry; everything else is left as it was. No entry of
/// the depth buffer grows.
pub fn draw_wall_column(
    framebuffer: &mut Framebuffer,
    zbuffer: &mut Vec<u64>,
    textures: &WallTextures,
    x: usize,
    hit: &Intersect,
    depth: u64,
)
    requires
        old(framebuffer).wf(),
        textures.wf(),
        textures.bound_to(hit.impact) is Some ==> hit.tx < textures.width_of(hit.impact),
    ensures
        final(framebuffer).wf(),
        final(framebuffer).same_frame(*old(framebuffer)),
        final(zbuffer)@.len() == old(zbuffer)@.len(),
        forall|u: int, v: int|
            final(framebuffer).contains(u, v) ==> #[trigger] final(framebuffer).pixel(u, v) == (
            if u == x && wall_drawn(
                old(framebuffer).width as int,
                old(framebuffer).height as int,
                old(zbuffer)@,
                u,
                v,
                depth as int,
            ) {
                wall_color(*textures, *hit, old(framebuffer).height as int, depth as int, v)
            } else {
                old(framebuffer).pixel(u, v)
            }),
        forall|u: int, v: int|
            final(framebuffer).contains(u, v) && pixel_index(
                old(framebuffer).width as int,
                u,
                v,
            ) < old(zbuffer)@.len() ==> #[trigger] depth_at(
                final(zbuffer)@,
                old(framebuffer).width as int,
                u,
                v,
            ) == (if u == x && wall_drawn(
                old(framebuffer).width as int,
                old(framebuffer).height as int,
                old(zbuffer)@,
                u,
                v,
                depth as int,
            ) {
                depth
            } else {
                depth_at(old(zbuffer)@, old(framebuffer).width as int, u, v)
            }),
        forall|i: int|
            old(framebuffer).width * old(framebuffer).height <= i < old(zbuffer)@.len()
                ==> final(zbuffer)@[i] == old(zbuffer)@[i],
        forall|i: int| 0 <= i < old(zbuffer)@.len() ==> final(zbuffer)@[i] <= old(zbuffer)@[i],
{
    let width = framebuffer.width;
    let height = framebuffer.height;
    if x >= width {
        return ;
    }
    let stake: u64 = project(height, depth);
    let top: u64 = if stake >= height as u64 {
        0
    } else {
        (height as u64 - stake) / 2
    };
    let above: u64 = if stake >= height as u64 {
        (stake - height as u64 + 1) / 2
    } else {
        0
    };
    let bottom: u64 = (height as u64 + stake) / 2;
    let end: usize = if bottom < height as u64 {
        bottom as usize
    } else {
        height
    };
    let texture = textures.texture_for(hit.impact);
    let mut y: usize = top as usize;
    while y < end
        invariant
            top <= y,
            x < width,
            width == framebuffer.width,
            height == framebuffer.height,
            width == old(framebuffer).width,
            height == old(framebuffer).height,
            end <= height,
            end <= bottom,
            end == height || end == bottom,
            stake == projected_size(height as int, depth as int),
            top == stake_top(height as int, stake as int),
            top - above == stake_start(height as int, stake as int),
            stake <= height * WALL_SCALE * ONE,
            bottom == stake_bottom(height as int, stake as int),
            top < bottom || end <= top,
            framebuffer.wf(),
            framebuffer.same_frame(*old(framebuffer)),
            textures.wf(),
            texture is Some <==> textures.bound_to(hit.impact) is Some,
            texture matches Some(t) ==> Some(*t) == textures.bound_to(hit.impact),
            textures.bound_to(hit.impact) is Some ==> hit.tx < textures.width_of(hit.impact),
            zbuffer@.len() == old(zbuffer)@.len(),
            forall|u: int, v: int|
                framebuffer.contains(u, v) ==> #[trigger] framebuffer.pixel(u, v) == (if u == x
                    && v < y && wall_drawn(
                    width as int,
                    height as int,
                    old(zbuffer)@,
                    u,
                    v,
                    depth as int,
                ) {
                    wall_color(*textures, *hit, height as int, depth as int, v)
                } else {
                    old(framebuffer).pixel(u, v)
                }),
            forall|u: int, v: int|
                framebuffer.contains(u, v) && pixel_index(width as int, u, v) < zbuffer@.len()
                    ==> #[trigger] depth_at(zbuffer@, width as int, u, v) == (if u == x && v < y
                    && wall_drawn(width as int, height as int, old(zbuffer)@, u, v, depth as int) {
                    depth
                } else {
                    depth_at(old(zbuffer)@, width as int, u, v)
                }),
            forall|i: int| width * height <= i < zbuffer@.len() ==> zbuffer@[i] == old(zbuffer)@[i],
            forall|i: int| 0 <= i < zbuffer@.len() ==> zbuffer@[i] <= old(zbuffer)@[i],
        decreases end - y,
    {
        let color = match texture {
            Some(t) => {
                assert(stake <= 0x7fff_ffff * 70 * 65536) by (nonlinear_arith)
                    requires
                        stake <= height * WALL_SCALE * ONE,
                        0 <= height <= 0x7fff_ffff,
                        WALL_SCALE == 70,
                        ONE == 65536,
                ;
                let span: u128 = (bottom - top + above) as u128;
                let offset: u128 = (y as u64 - top + above) as u128;
                assert(offset * t.height <= 0xffff_ffff_ffff_ffff * 0xffff_ffff) by (nonlinear_arith)
                    requires
                        0 <= offset <= 0xffff_ffff_ffff_ffff,
                        0 <= t.height <= 0xffff_ffff,
                ;
                let scaled: u128 = offset * (t.height as u128) / span;
                proof {
                    assert(offset * t.height < span * t.height) by (nonlinear_arith)
                        requires
                            0 <= offset < span,
                            t.height > 0,
                    ;
                    vstd::arithmetic::div_mod::lemma_div_by_multiple_is_strongly_ordered(
                        offset * t.height,
                        span * t.height,
                        t.height as int,
                        span as int,
                    );
                    vstd::arithmetic::div_mod::lemma_div_by_multiple(t.height as int, span as int);
                }
                t.get_pixel_color(hit.tx, scaled as u32)
            },
            None => UNTEXTURED,
        };
        proof {
            lemma_pixel_index_bounds(width as int, height as int, x as int, y as int);
            assert(width * height == framebuffer.buffer.len());
        }
        let index = y * width + x;
        proof {
            if index < zbuffer@.len() {
                assert(depth_at(zbuffer@, width as int, x as int, y as int) == zbuffer@[index as int]);
            }
        }
        if index < zbuffer.len() {
            if depth < zbuffer[index] {
                let ghost z_before = zbuffer@;
                framebuffer.paint(x, y, color);
                zbuffer.set(index, depth);
                proof {
                    assert forall|u: int, v: int|
                        framebuffer.contains(u, v) && pixel_index(width as int, u, v)
                            < zbuffer@.len() implies #[trigger] depth_at(
                        zbuffer@,
                        width as int,
                        u,
                        v,
                    ) == (if u == x && v < y + 1 && wall_drawn(
                        width as int,
                        height as int,
                        old(zbuffer)@,
                        u,
                        v,
                        depth as int,
                    ) {
                        depth
                    } else {
                        depth_at(old(zbuffer)@, width as int, u, v)
                    }) by {
                        if pixel_index(width as int, u, v) == index {
                            lemma_pixel_index_injective(width as int, u, v, x as int, y as int);
                        } else {
                            assert(depth_at(zbuffer@, width as int, u, v) == depth_at(
                                z_before,
                                width as int,
                                u,
                                v,
                            ));
                        }
                    }
                }
            }
        }
        y += 1;
    }
}

/// How far `dir` points along `heading`: the dot product of the two. For
/// two directions of length `ONE` it is `ONE`² times the cosine of the angle
/// between them.
pub open spec fn alignment(dir: Direction, heading: Direction) -> int {
    dir.dx * heading.dx + dir.dy * heading.dy
}

/// The distance of a strike measured along the heading instead of along the
/// ray: the raw distance times the cosine of the angle between ray and
/// heading, rounded down. It is negative for a ray that points backwards.
pub open spec fn corrected_distance(raw: int, dir: Direction, heading: Direction) -> int {
    raw * alignment(dir, heading) / (ONE * ONE)
}

/// The corrected distance of a strike at raw distance `raw`, unless it is negative.
pub fn correct(raw: u64, dir: Direction, heading: Direction) -> (depth: Option<u64>)
    requires
        raw <= DISTANCE_MAX,
        dir.wf(),
        heading.wf(),
    ensures
        depth matches Some(d) ==> d == corrected_distance(raw as int, dir, heading),
        depth is None <==> corrected_distance(raw as int, dir, heading) < 0,
{
    assert(-0x1_0000_0000 <= dir.dx * heading.dx <= 0x1_0000_0000) by (nonlinear_arith)
        requires
            -0x1_0000 <= dir.dx <= 0x1_0000,
            -0x1_0000 <= heading.dx <= 0x1_0000,
    ;
    assert(-0x1_0000_0000 <= dir.dy * heading.dy <= 0x1_0000_0000) by (nonlinear_arith)
        requires
            -0x1_0000 <= dir.dy <= 0x1_0000,
            -0x1_0000 <= heading.dy <= 0x1_0000,
    ;
    let dot: i64 = dir.dx as i64 * heading.dx as i64 + dir.dy as i64 * heading.dy as i64;
    assert(-0x2_0000_0000_0000_0000_0000 <= raw * dot <= 0x2_0000_0000_0000_0000_0000)
        by (nonlinear_arith)
        requires
            0 <= raw <= 0x1_0000_0000_0000,
            -0x2_0000_0000 <= dot <= 0x2_0000_0000,
    ;
    let product: i128 = raw as i128 * dot as i128;
    proof {
        let q = (product as int) / 0x1_0000_0000;
        let r = (product as int) % 0x1_0000_0000;
        vstd::arithmetic::div_mod::lemma_fundamental_div_mod(product as int, 0x1_0000_0000);
        assert(product < 0 <==> q < 0) by (nonlinear_arith)
            requires
                product == 0x1_0000_0000 * q + r,
                0 <= r < 0x1_0000_0000,
        ;
    }
    if product < 0 {
        None
    } else {
        Some((product / 0x1_0000_0000) as u64)
    }
}

/// A ray along the heading itself needs no correction, where the heading
/// has length `ONE` exactly: the corrected distance of the centre column is
/// the raw distance.
pub proof fn lemma_centre_column_uncorrected(raw: int, heading: Direction)
    requires
        alignment(heading, heading) == ONE * ONE,
    ensures
        corrected_distance(raw, heading, heading) == raw,
{
}

/// A flat wall that faces the player is drawn at one height. Two strikes
/// whose offsets along the heading are the same (the raw distance times the
/// ray's alignment with the heading measures that offset) have the same
/// corrected distance, and so the same stake on the screen, whatever the
/// angles of the two rays.
pub proof fn lemma_flat_wall_uniform(
    raw_a: int,
    dir_a: Direction,
    raw_b: int,
    dir_b: Direction,
    heading: Direction,
    screen_height: int,
)
    requires
        raw_a * alignment(dir_a, heading) == raw_b * alignment(dir_b, heading),
    ensures
        corrected_distance(raw_a, dir_a, heading) == corrected_distance(raw_b, dir_b, heading),
        projected_size(screen_height, corrected_distance(raw_a, dir_a, heading)) == projected_size(
            screen_height,
            corrected_distance(raw_b, dir_b, heading),
        ),
        forall|y: int|
            in_stake(screen_height, corrected_distance(raw_a, dir_a, heading), y) == in_stake(
                screen_height,
                corrected_distance(raw_b, dir_b, heading),
                y,
            ),
{
}

/// Whether the direction has length `ONE`, give or take the rounding of its
/// components to whole fixed-point units.
pub open spec fn near_unit(dir: Direction) -> bool {
    (ONE - 1) * (ONE - 1) <= dir.dx * dir.dx + dir.dy * dir.dy <= (ONE + 1) * (ONE + 1)
}

/// How far the `k`-th sample of a ray along `dir` lies from the ray's
/// origin, measured along the heading: the offset of the sample from the
/// origin, projected on the heading, rounded down. This is the distance
/// between the origin and the line through the sample that the heading is
/// perpendicular to.
pub open spec fn offset_along(dir: Direction, heading: Direction, k: int) -> int {
    k * alignment(dir, heading) / (ONE as int)
}

/// A number within `k` multiples of `d` of `m` has a quotient by `d`
/// within `k` of that of `m`.
proof fn lemma_divide_shifted(m: int, n: int, d: int, k: int)
    requires
        0 < d,
        0 <= k,
        m - k * d <= n <= m + k * d,
    ensures
        m / d - k <= n / d <= m / d + k,
{
    let q = m / d;
    let r = m % d;
    vstd::arithmetic::div_mod::lemma_fundamental_div_mod(m, d);
    vstd::arithmetic::div_mod::lemma_mod_bound(m, d);
    assert(m + k * d == d * (q + k) + r && m - k * d == d * (q - k) + r) by (nonlinear_arith)
        requires
            m == d * q + r,
    ;
    vstd::arithmetic::div_mod::lemma_fundamental_div_mod_converse(m + k * d, d, q + k, r);
    vstd::arithmetic::div_mod::lemma_fundamental_div_mod_converse(m - k * d, d, q - k, r);
    vstd::arithmetic::div_mod::lemma_div_is_ordered(n, m + k * d, d);
    vstd::arithmetic::div_mod::lemma_div_is_ordered(m - k * d, n, d);
}

/// The length of a ray of `k` steps along a direction of length `ONE`,
/// give or take rounding, is `k` times `ONE`, give or take `k`.
proof fn lemma_ray_length_near_steps(dir: Direction, k: int)
    requires
        near_unit(dir),
        0 <= k,
    ensures
        k * ONE - k <= ray_length(dir, k) <= k * ONE + k,
{
    let dx = dir.dx as int;
    let dy = dir.dy as int;
    let l = dx * dx + dy * dy;
    let a = (k * dx) * (k * dx) + (k * dy) * (k * dy);
    let one = ONE as int;
    assert(a == k * k * l) by (nonlinear_arith)
        requires
            a == (k * dx) * (k * dx) + (k * dy) * (k * dy),
            l == dx * dx + dy * dy,
    ;
    crate::fixed::lemma_isqrt_exists(a);
    let r = crate::fixed::isqrt(a);
    let upper = k * one + k;
    let lower = k * one - k;
    if r > upper {
        assert(r * r > a) by (nonlinear_arith)
            requires
                r >= upper + 1,
                upper == k * one + k,
                a == k * k * l,
                l <= (one + 1) * (one + 1),
                0 <= k,
                one > 0,
        ;
    }
    if r < lower {
        assert((r + 1) * (r + 1) <= a) by (nonlinear_arith)
            requires
                0 <= r,
                r + 1 <= lower,
                lower == k * one - k,
                a == k * k * l,
                (one - 1) * (one - 1) <= l,
                0 <= k,
                one > 1,
        ;
    }
}

/// The fisheye correction recovers the distance along the heading. For a
/// ray of `k` steps along a direction of length `ONE`, give or take
/// rounding, the corrected distance of the `k`-th sample differs from the
/// sample's offset along the heading by at most two fixed-point units a
/// step.
pub proof fn lemma_corrected_distance_near_offset(dir: Direction, heading: Direction, k: int)
    requires
        dir.wf(),
        heading.wf(),
        near_unit(dir),
        0 <= k,
    ensures
        offset_along(dir, heading, k) - 2 * k <= corrected_distance(
            ray_length(dir, k),
            dir,
            heading,
        ) <= offset_along(dir, heading, k) + 2 * k,
{
    let one = ONE as int;
    let d = one * one;
    let a = alignment(dir, heading);
    let r = ray_length(dir, k);
    lemma_ray_length_near_steps(dir, k);
    assert(-d <= dir.dx * heading.dx <= d) by (nonlinear_arith)
        requires
            -one <= dir.dx <= one,
            -one <= heading.dx <= one,
            d == one * one,
    ;
    assert(-d <= dir.dy * heading.dy <= d) by (nonlinear_arith)
        requires
            -one <= dir.dy <= one,
            -one <= heading.dy <= one,
            d == one * one,
    ;
    let m = k * a * one;
    let n = r * a;
    assert(m - (2 * k) * d <= n <= m + (2 * k) * d) by (nonlinear_arith)
        requires
            m == k * a * one,
            n == r * a,
            k * one - k <= r <= k * one + k,
            -2 * d <= a <= 2 * d,
            0 <= k,
            d > 0,
    ;
    lemma_divide_shifted(m, n, d, 2 * k);
    let q = (k * a) / one;
    let rem = (k * a) % one;
    vstd::arithmetic::div_mod::lemma_fundamental_div_mod(k * a, one);
    vstd::arithmetic::div_mod::lemma_mod_bound(k * a, one);
    vstd::arithmetic::div_mod::lemma_fundamental_div_mod_converse(m, d, q, one * rem);
}

/// A flat wall that faces the player is drawn at nearly one height. Two
/// rays whose strikes lie at the same offset along the heading, as the
/// strikes on such a wall do, have corrected distances that differ by at
/// most two fixed-point units for each step that the rays took.
pub proof fn lemma_flat_wall_nearly_uniform(
    dir_a: Direction,
    k_a: int,
    dir_b: Direction,
    k_b: int,
    heading: Direction,
)
    requires
        dir_a.wf(),
        dir_b.wf(),
        heading.wf(),
        near_unit(dir_a),
        near_unit(dir_b),
        0 <= k_a,
        0 <= k_b,
        offset_along(dir_a, heading, k_a) == offset_along(dir_b, heading, k_b),
    ensures
        corrected_distance(ray_length(dir_a, k_a), dir_a, heading) - corrected_distance(
            ray_length(dir_b, k_b),
            dir_b,
            heading,
        ) <= 2 * (k_a + k_b),
        corrected_distance(ray_length(dir_b, k_b), dir_b, heading) - corrected_distance(
            ray_length(dir_a, k_a),
            dir_a,
            heading,
        ) <= 2 * (k_a + k_b),
{
    lemma_corrected_distance_near_offset(dir_a, heading, k_a);
    lemma_corrected_distance_near_offset(dir_b, heading, k_b);
}

/// The corrected distance of the wall that the ray along `dir` strikes.
pub open spec fn column_depth(
    g: Seq<Seq<char>>,
    player: Player,
    dir: Direction,
    block_size: int,
) -> int {
    corrected_distance(
        ray_length(dir, hit_step(g, player.pos, dir, block_size)),
        dir,
        player.heading,
    )
}

/// Whether the wall that the ray along `dir` strikes is drawn at pixel
/// (`x`, `y`): the ray does not point backwards, and the wall passes the
/// tests of `wall_drawn` at its corrected distance.
pub open spec fn column_drawn(
    g: Seq<Seq<char>>,
    player: Player,
    dir: Direction,
    block_size: int,
    width: int,
    height: int,
    depths: Seq<u64>,
    x: int,
    y: int,
) -> bool {
    let depth = column_depth(g, player, dir, block_size);
    0 <= depth && wall_drawn(width, height, depths, x, y, depth)
}

/// The depth recorded for pixel (`x`, `y`) once the wall that the ray along
/// `dir` strikes has been rendered in column `x`: the wall's corrected
/// distance where the wall is drawn, and what was recorded before elsewhere.
pub open spec fn rendered_depth(
    g: Seq<Seq<char>>,
    player: Player,
    dir: Direction,
    block_size: int,
    width: int,
    height: int,
    depths: Seq<u64>,
    x: int,
    y: int,
) -> u64 {
    if column_drawn(g, player, dir, block_size, width, height, depths, x, y) {
        column_depth(g, player, dir, block_size) as u64
    } else {
        depth_at(depths, width, x, y)
    }
}

/// The corrected distance of every wall is at least zero where the ray does
/// not point backwards, and stays below `DEPTH_FAR`.
pub proof fn lemma_column_depth_bounded(
    g: Seq<Seq<char>>,
    player: Player,
    dir: Direction,
    block_size: int,
)
    requires
        dir.wf(),
        player.heading.wf(),
        maze_fits(g, block_size),
    ensures
        column_depth(g, player, dir, block_size) <= 2 * DISTANCE_MAX < DEPTH_FAR,
        0 <= alignment(dir, player.heading) ==> 0 <= column_depth(g, player, dir, block_size),
{
    let one = ONE as int;
    let d = one * one;
    let a = alignment(dir, player.heading);
    let raw = ray_length(dir, hit_step(g, player.pos, dir, block_size));
    lemma_ray_length_bounded(g, player.pos, dir, block_size);
    assert(-d <= dir.dx * player.heading.dx <= d) by (nonlinear_arith)
        requires
            -one <= dir.dx <= one,
            -one <= player.heading.dx <= one,
            d == one * one,
    ;
    assert(-d <= dir.dy * player.heading.dy <= d) by (nonlinear_arith)
        requires
            -one <= dir.dy <= one,
            -one <= player.heading.dy <= one,
            d == one * one,
    ;
    assert(raw * a <= (2 * raw) * d) by (nonlinear_arith)
        requires
            0 <= raw,
            a <= 2 * d,
    ;
    vstd::arithmetic::div_mod::lemma_div_is_ordered(raw * a, (2 * raw) * d, d);
    vstd::arithmetic::div_mod::lemma_div_by_multiple(2 * raw, d);
    if 0 <= a {
        assert(0 <= raw * a) by (nonlinear_arith)
            requires
                0 <= raw,
                0 <= a,
        ;
        vstd::arithmetic::div_mod::lemma_div_is_ordered(0, raw * a, d);
    }
}

/// A wall that is nearer has a stake that is no shorter: a row of the screen
/// that lies in the stake of the farther wall lies in that of the nearer.
pub proof fn lemma_nearer_wall_taller(screen_height: int, near: int, far: int, y: int)
    requires
        0 <= screen_height,
        0 <= near <= far,
        0 <= y,
        in_stake(screen_height, far, y),
    ensures
        in_stake(screen_height, near, y),
{
    let scaled = screen_height * WALL_SCALE * ONE;
    let by_near = if near < 1 {
        1
    } else {
        near
    };
    let by_far = if far < 1 {
        1
    } else {
        far
    };
    assert(0 <= scaled) by (nonlinear_arith)
        requires
            scaled == screen_height * WALL_SCALE * ONE,
            0 <= screen_height,
            WALL_SCALE == 70,
            ONE == 65536,
    ;
    vstd::arithmetic::div_mod::lemma_div_is_ordered_by_denominator(scaled, by_near, by_far);
}

/// As the player walks towards a wall, the depth that the wall records
/// shrinks. The player walks `m` whole steps of the heading, no further than
/// the wall; the ray runs along the heading, which has length `ONE` give or
/// take rounding; the pixel lies in the wall's stake as seen from the
/// farther place, and nothing was recorded for it before. Then the depth
/// recorded from the nearer place is strictly smaller.
pub proof fn lemma_closer_player_nearer_wall(
    g: Seq<Seq<char>>,
    far: Player,
    near: Player,
    block_size: int,
    m: int,
    width: int,
    height: int,
    depths: Seq<u64>,
    x: int,
    y: int,
)
    requires
        far.heading.wf(),
        near_unit(far.heading),
        near.heading == far.heading,
        maze_fits(g, block_size),
        0 < m <= hit_step(g, far.pos, far.heading, block_size),
        (near.pos.x as int, near.pos.y as int) == far.pos.advanced(far.heading, m),
        0 <= height,
        0 <= y,
        0 <= pixel_index(width, x, y) < depths.len(),
        depth_at(depths, width, x, y) == DEPTH_FAR,
        in_stake(height, column_depth(g, far, far.heading, block_size), y),
    ensures
        rendered_depth(g, near, near.heading, block_size, width, height, depths, x, y)
            < rendered_depth(g, far, far.heading, block_size, width, height, depths, x, y),
        rendered_depth(g, far, far.heading, block_size, width, height, depths, x, y) < DEPTH_FAR,
{
    let one = ONE as int;
    let d = one * one;
    let h = far.heading;
    let a = alignment(h, h);
    let k_far = hit_step(g, far.pos, h, block_size);
    let k_near = hit_step(g, near.pos, h, block_size);
    let raw_far = ray_length(h, k_far);
    let raw_near = ray_length(h, k_near);
    crate::caster::lemma_closer_origin_shorter_ray(g, far.pos, near.pos, h, block_size, m);
    assert((one - 1) * (one - 1) == 65535 * 65535 && d == 0x1_0000_0000) by (nonlinear_arith)
        requires
            one == 65536,
            d == one * one,
    ;
    crate::caster::lemma_ray_length_gap(h, k_near, k_far, one - 1);
    lemma_column_depth_bounded(g, far, h, block_size);
    lemma_column_depth_bounded(g, near, h, block_size);
    assert(raw_near * a + d <= raw_far * a) by (nonlinear_arith)
        requires
            raw_near + 65535 <= raw_far,
            65535 * 65535 <= a,
            d == 0x1_0000_0000,
    ;
    vstd::arithmetic::div_mod::lemma_div_is_ordered(raw_near * a + d, raw_far * a, d);
    let depth_far = column_depth(g, far, h, block_size);
    let depth_near = column_depth(g, near, h, block_size);
    lemma_nearer_wall_taller(height, depth_near, depth_far, y);
}

/// A flat wall that faces the player records nearly one depth. For two rays
/// whose strikes lie at the same offset along the heading, as the strikes
/// on such a wall do, the depths recorded where both walls are drawn differ
/// by at most two fixed-point units for each step that the rays took.
pub proof fn lemma_flat_wall_depths_agree(
    g: Seq<Seq<char>>,
    player: Player,
    block_size: int,
    dir_a: Direction,
    dir_b: Direction,
    width: int,
    height: int,
    depths: Seq<u64>,
    x_a: int,
    x_b: int,
    y: int,
)
    requires
        dir_a.wf(),
        dir_b.wf(),
        player.heading.wf(),
        near_unit(dir_a),
        near_unit(dir_b),
        maze_fits(g, block_size),
        offset_along(dir_a, player.heading, hit_step(g, player.pos, dir_a, block_size))
            == offset_along(dir_b, player.heading, hit_step(g, player.pos, dir_b, block_size)),
        column_drawn(g, player, dir_a, block_size, width, height, depths, x_a, y),
        column_drawn(g, player, dir_b, block_size, width, height, depths, x_b, y),
    ensures
        rendered_depth(g, player, dir_a, block_size, width, height, depths, x_a, y)
            - rendered_depth(g, player, dir_b, block_size, width, height, depths, x_b, y) <= 2 * (
        hit_step(g, player.pos, dir_a, block_size) + hit_step(g, player.pos, dir_b, block_size)),
        rendered_depth(g, player, dir_b, block_size, width, height, depths, x_b, y)
            - rendered_depth(g, player, dir_a, block_size, width, height, depths, x_a, y) <= 2 * (
        hit_step(g, player.pos, dir_a, block_size) + hit_step(g, player.pos, dir_b, block_size)),
{
    crate::caster::lemma_ray_strikes(g, player.pos, dir_a, block_size);
    crate::caster::lemma_ray_strikes(g, player.pos, dir_b, block_size);
    lemma_flat_wall_nearly_uniform(
        dir_a,
        hit_step(g, player.pos, dir_a, block_size),
        dir_b,
        hit_step(g, player.pos, dir_b, block_size),
        player.heading,
    );
    lemma_column_depth_bounded(g, player, dir_a, block_size);
    lemma_column_depth_bounded(g, player, dir_b, block_size);
}

/// A flat wall that faces the player is not bowed. Where two rays strike at
/// the same corrected distance, the two columns record the same depth in
/// the same rows of a depth buffer that held `DEPTH_FAR` throughout: the
/// wall is as tall in the one column as in the other.
pub proof fn lemma_flat_wall_same_rows(
    g: Seq<Seq<char>>,
    player: Player,
    block_size: int,
    dir_a: Direction,
    dir_b: Direction,
    width: int,
    height: int,
    depths: Seq<u64>,
    x_a: int,
    x_b: int,
    y: int,
)
    requires
        column_depth(g, player, dir_a, block_size) == column_depth(g, player, dir_b, block_size),
        0 <= x_a < width,
        0 <= x_b < width,
        0 <= y < height,
        depths.len() == width * height,
        forall|i: int| 0 <= i < depths.len() ==> depths[i] == DEPTH_FAR,
    ensures
        rendered_depth(g, player, dir_a, block_size, width, height, depths, x_a, y)
            == rendered_depth(g, player, dir_b, block_size, width, height, depths, x_b, y),
{
    lemma_pixel_index_bounds(width, height, x_a, y);
    lemma_pixel_index_bounds(width, height, x_b, y);
}

/// Renders the first-person view. The whole frame is first painted with the
/// backdrop. Then, for each screen column `x`, the ray along `rays[x]` is
/// cast from the player's position, the distance of its strike is corrected
/// for the angle between the ray and the player's heading, and the struck
/// wall's stake is drawn in that column, textured, wherever it is strictly
/// nearer than what the depth buffer records; there the corrected distance is
/// recorded in its place. No entry of the depth buffer grows.
pub fn render3d(
    framebuffer: &mut Framebuffer,
    player: &Player,
    maze: &Vec<Vec<char>>,
    block_size: usize,
    zbuffer: &mut Vec<u64>,
    textures: &WallTextures,
    sky: &Texture,
    rays: &Vec<Direction>,
)
    requires
        old(framebuffer).wf(),
        player.heading.wf(),
        maze_fits(grid(maze), block_size as int),
        textures.wf(),
        sky.wf(),
        rays@.len() == old(framebuffer).width,
        forall|i: int| 0 <= i < rays@.len() ==> (#[trigger] rays@[i]).wf(),
    ensures
        final(framebuffer).wf(),
        final(framebuffer).same_frame(*old(framebuffer)),
        final(zbuffer)@.len() == old(zbuffer)@.len(),
        forall|u: int, v: int|
            final(framebuffer).contains(u, v) ==> #[trigger] final(framebuffer).pixel(u, v) == (
            if column_drawn(
                grid(maze),
                *player,
                rays@[u],
                block_size as int,
                old(framebuffer).width as int,
                old(framebuffer).height as int,
                old(zbuffer)@,
                u,
                v,
            ) {
                wall_color(
                    *textures,
                    intersect(grid(maze), *textures, player.pos, rays@[u], block_size as int),
                    old(framebuffer).height as int,
                    column_depth(grid(maze), *player, rays@[u], block_size as int),
                    v,
                )
            } else {
                backdrop(*sky, old(framebuffer).height as int, u, v)
            }),
        forall|u: int, v: int|
            final(framebuffer).contains(u, v) && pixel_index(
                old(framebuffer).width as int,
                u,
                v,
            ) < old(zbuffer)@.len() ==> #[trigger] depth_at(
                final(zbuffer)@,
                old(framebuffer).width as int,
                u,
                v,
            ) == rendered_depth(
                grid(maze),
                *player,
                rays@[u],
                block_size as int,
                old(framebuffer).width as int,
                old(framebuffer).height as int,
                old(zbuffer)@,
                u,
                v,
            ),
        forall|i: int|
            old(framebuffer).width * old(framebuffer).height <= i < old(zbuffer)@.len()
                ==> final(zbuffer)@[i] == old(zbuffer)@[i],
        forall|i: int| 0 <= i < old(zbuffer)@.len() ==> final(zbuffer)@[i] <= old(zbuffer)@[i],
{
    draw_backdrop(framebuffer, sky);
    let width = framebuffer.width;
    let height = framebuffer.height;
    let mut x: usize = 0;
    while x < width
        invariant
            0 <= x <= width,
            width == framebuffer.width,
            height == framebuffer.height,
            rays@.len() == width,
            forall|i: int| 0 <= i < rays@.len() ==> (#[trigger] rays@[i]).wf(),
            player.heading.wf(),
            maze_fits(grid(maze), block_size as int),
            textures.wf(),
            framebuffer.wf(),
            framebuffer.same_frame(*old(framebuffer)),
            zbuffer@.len() == old(zbuffer)@.len(),
            forall|u: int, v: int|
                framebuffer.contains(u, v) ==> #[trigger] framebuffer.pixel(u, v) == (if u < x
                    && column_drawn(
                    grid(maze),
                    *player,
                    rays@[u],
                    block_size as int,
                    width as int,
                    height as int,
                    old(zbuffer)@,
                    u,
                    v,
                ) {
                    wall_color(
                        *textures,
                        intersect(grid(maze), *textures, player.pos, rays@[u], block_size as int),
                        height as int,
                        column_depth(grid(maze), *player, rays@[u], block_size as int),
                        v,
                    )
                } else {
                    backdrop(*sky, height as int, u, v)
                }),
            forall|u: int, v: int|
                framebuffer.contains(u, v) && pixel_index(width as int, u, v) < zbuffer@.len()
                    ==> #[trigger] depth_at(zbuffer@, width as int, u, v) == (if u < x
                    && column_drawn(
                    grid(maze),
                    *player,
                    rays@[u],
                    block_size as int,
                    width as int,
                    height as int,
                    old(zbuffer)@,
                    u,
                    v,
                ) {
                    column_depth(grid(maze), *player, rays@[u], block_size as int) as u64
                } else {
                    depth_at(old(zbuffer)@, width as int, u, v)
                }),
            forall|i: int| width * height <= i < zbuffer@.len() ==> zbuffer@[i] == old(zbuffer)@[i],
            forall|i: int| 0 <= i < zbuffer@.len() ==> zbuffer@[i] <= old(zbuffer)@[i],
        decreases width - x,
    {
        let dir = rays[x];
        let hit = cast_ray(framebuffer, maze, textures, player, dir, block_size, false);
        match correct(hit.distance, dir, player.heading) {
            Some(depth) => {
                draw_wall_column(framebuffer, zbuffer, textures, x, &hit, depth);
            },
            None => {},
        }
        x += 1;
    }
}

} // verus!

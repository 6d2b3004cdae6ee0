//! On-screen text in a built-in bitmap font of five columns by eight rows.

use vstd::prelude::*;
use crate::framebuffer::{in_square, Framebuffer};

verus! {

/// The side, in pixels, of one dot of a glyph.
pub const SCALE: usize = 5;

/// The number of columns of a glyph.
pub const GLYPH_COLUMNS: usize = 5;

/// The number of rows of a glyph.
pub const GLYPH_ROWS: usize = 8;

/// The distance, in pixels, from the left edge of one character to the
/// left edge of the next: four dots and ten pixels more.
pub const ADVANCE: usize = 30;

/// The colour of text.
pub const TEXT_COLOR: u32 = 0xFFFFFF;

/// The bitmap of a character: one byte per column, left to right, whose
/// bit `b` is the dot in row `b`, top to bottom. A character that the font
/// lacks is blank.
pub open spec fn glyph(ch: char) -> Seq<u8> {
    match ch {
        '0' => seq![0x7Eu8, 0x99u8, 0x91u8, 0x89u8, 0x7Eu8],
        '1' => seq![0x00u8, 0x00u8, 0xFFu8, 0x00u8, 0x00u8],
        '2' => seq![0xE2u8, 0x91u8, 0x91u8, 0x91u8, 0x8Eu8],
        '3' => seq![0x42u8, 0x81u8, 0x89u8, 0x89u8, 0x76u8],
        '4' => seq![0x18u8, 0x14u8, 0x92u8, 0xFFu8, 0x90u8],
        '5' => seq![0x4Fu8, 0x89u8, 0x89u8, 0x89u8, 0x71u8],
        '6' => seq![0x7Eu8, 0x89u8, 0x89u8, 0x89u8, 0x72u8],
        '7' => seq![0x01u8, 0xE1u8, 0x11u8, 0x09u8, 0x07u8],
        '8' => seq![0x76u8, 0x89u8, 0x89u8, 0x89u8, 0x76u8],
        '9' => seq![0x4Eu8, 0x91u8, 0x91u8, 0x91u8, 0x7Eu8],
        'A' => seq![0x7Eu8, 0x11u8, 0x11u8, 0x11u8, 0x7Eu8],
        'C' => seq![0x7Eu8, 0x81u8, 0x81u8, 0x81u8, 0x42u8],
        'D' => seq![0xFFu8, 0x81u8, 0x81u8, 0x42u8, 0x3Cu8],
        'E' => seq![0xFFu8, 0x91u8, 0x91u8, 0x91u8, 0x81u8],
        'F' => seq![0xFFu8, 0x09u8, 0x09u8, 0x01u8, 0x00u8],
        'N' => seq![0xFFu8, 0x10u8, 0x20u8, 0x40u8, 0xFFu8],
        'P' => seq![0xFFu8, 0x11u8, 0x11u8, 0x11u8, 0x0Eu8],
        'R' => seq![0xFFu8, 0x19u8, 0x29u8, 0x49u8, 0x86u8],
        'S' => seq![0x8Eu8, 0x91u8, 0x91u8, 0x91u8, 0x62u8],
        'T' => seq![0x01u8, 0x01u8, 0xFFu8, 0x01u8, 0x01u8],
        'U' => seq![0x7Fu8, 0x80u8, 0x80u8, 0x80u8, 0x7Fu8],
        'W' => seq![0xFFu8, 0x40u8, 0x20u8, 0x40u8, 0xFFu8],
        'M' => seq![0xFFu8, 0x02u8, 0x04u8, 0x02u8, 0xFFu8],
        'O' => seq![0x7Eu8, 0x81u8, 0x81u8, 0x81u8, 0x7Eu8],
        'Y' => seq![0x07u8, 0x08u8, 0xF0u8, 0x08u8, 0x07u8],
        'L' => seq![0xFFu8, 0x80u8, 0x80u8, 0x80u8, 0x80u8],
        '!' => seq![0x00u8, 0x00u8, 0xCFu8, 0x00u8, 0x00u8],
        '-' => seq![0x08u8, 0x08u8, 0x08u8, 0x08u8, 0x08u8],
        '\'' => seq![0x00u8, 0x07u8, 0x00u8, 0x00u8, 0x00u8],
        _ => seq![0x00u8, 0x00u8, 0x00u8, 0x00u8, 0x00u8],
    }
}

/// Whether the dot in column `column`, row `row` of the character is set.
pub open spec fn dot(ch: char, column: int, row: int) -> bool {
    glyph(ch)[column] & (1u8 << (row as u8)) != 0
}

/// Whether pixel (`u`, `v`) belongs to a set dot of the character drawn
/// with its top left corner at (`x`, `y`). Each dot is a square of `SCALE`
/// pixels.
pub open spec fn glyph_covers(ch: char, x: int, y: int, u: int, v: int) -> bool {
    &&& x <= u
    &&& y <= v
    &&& (u - x) / (SCALE as int) < GLYPH_COLUMNS
    &&& (v - y) / (SCALE as int) < GLYPH_ROWS
    &&& dot(ch, (u - x) / (SCALE as int), (v - y) / (SCALE as int))
}

/// Whether pixel (`u`, `v`) belongs to a set dot of one of the characters
/// of the text drawn from (`x`, `y`). The characters stand `ADVANCE` pixels
/// apart, so the pixel can belong to one of them only.
pub open spec fn text_covers(text: Seq<char>, x: int, y: int, u: int, v: int) -> bool {
    &&& x <= u
    &&& (u - x) / (ADVANCE as int) < text.len()
    &&& glyph_covers(
        text[(u - x) / (ADVANCE as int)],
        x + (u - x) / (ADVANCE as int) * ADVANCE,
        y,
        u,
        v,
    )
}

/// The bitmap of a character.
pub fn glyph_of(ch: char) -> (bitmap: [u8; 5])
    ensures
        bitmap@ == glyph(ch),
{
    let bitmap: [u8; 5] = match ch {
        '0' => [0x7E, 0x99, 0x91, 0x89, 0x7E],
        '1' => [0x00, 0x00, 0xFF, 0x00, 0x00],
        '2' => [0xE2, 0x91, 0x91, 0x91, 0x8E],
        '3' => [0x42, 0x81, 0x89, 0x89, 0x76],
        '4' => [0x18, 0x14, 0x92, 0xFF, 0x90],
        '5' => [0x4F, 0x89, 0x89, 0x89, 0x71],
        '6' => [0x7E, 0x89, 0x89, 0x89, 0x72],
        '7' => [0x01, 0xE1, 0x11, 0x09, 0x07],
        '8' => [0x76, 0x89, 0x89, 0x89, 0x76],
        '9' => [0x4E, 0x91, 0x91, 0x91, 0x7E],
        'A' => [0x7E, 0x11, 0x11, 0x11, 0x7E],
        'C' => [0x7E, 0x81, 0x81, 0x81, 0x42],
        'D' => [0xFF, 0x81, 0x81, 0x42, 0x3C],
        'E' => [0xFF, 0x91, 0x91, 0x91, 0x81],
        'F' => [0xFF, 0x09, 0x09, 0x01, 0x00],
        'N' => [0xFF, 0x10, 0x20, 0x40, 0xFF],
        'P' => [0xFF, 0x11, 0x11, 0x11, 0x0E],
        'R' => [0xFF, 0x19, 0x29, 0x49, 0x86],
        'S' => [0x8E, 0x91, 0x91, 0x91, 0x62],
        'T' => [0x01, 0x01, 0xFF, 0x01, 0x01],
        'U' => [0x7F, 0x80, 0x80, 0x80, 0x7F],
        'W' => [0xFF, 0x40, 0x20, 0x40, 0xFF],
        'M' => [0xFF, 0x02, 0x04, 0x02, 0xFF],
        'O' => [0x7E, 0x81, 0x81, 0x81, 0x7E],
        'Y' => [0x07, 0x08, 0xF0, 0x08, 0x07],
        'L' => [0xFF, 0x80, 0x80, 0x80, 0x80],
        '!' => [0x00, 0x00, 0xCF, 0x00, 0x00],
        '-' => [0x08, 0x08, 0x08, 0x08, 0x08],
        '\'' => [0x00, 0x07, 0x00, 0x00, 0x00],
        _ => [0x00, 0x00, 0x00, 0x00, 0x00],
    };
    bitmap
}

/// Paints one dot of text: the white square of side `scale` whose top left
/// corner is (`x`, `y`), as far as it lies on the screen.
pub fn draw_pixel(framebuffer: &mut Framebuffer, x: usize, y: usize, scale: usize)
    requires
        old(framebuffer).wf(),
    ensures
        final(framebuffer).wf(),
        final(framebuffer).same_frame(*old(framebuffer)),
        forall|u: int, v: int|
            final(framebuffer).contains(u, v) ==> #[trigger] final(framebuffer).pixel(u, v) == (
            if in_square(x as int, y as int, scale as int, u, v) {
                TEXT_COLOR
            } else {
                old(framebuffer).pixel(u, v)
            }),
{
    framebuffer.fill_square(x, y, scale, TEXT_COLOR);
}

/// Whether the dot in column `column`, row `row` comes before the dot in
/// column `next_column`, row `next_row`, in the order in which a glyph is
/// drawn: column by column, and in a column row by row.
spec fn dot_done(column: int, row: int, next_column: int, next_row: int) -> bool {
    column < next_column || (column == next_column && row < next_row)
}

/// Draws a character with its top left corner at (`x`, `y`): each set dot
/// of its bitmap as a white square of `SCALE` pixels, as far as it lies on
/// the screen.
pub fn draw_char(framebuffer: &mut Framebuffer, ch: char, x: usize, y: usize)
    requires
        old(framebuffer).wf(),
    ensures
        final(framebuffer).wf(),
        final(framebuffer).same_frame(*old(framebuffer)),
        forall|u: int, v: int|
            final(framebuffer).contains(u, v) ==> #[trigger] final(framebuffer).pixel(u, v) == (
            if glyph_covers(ch, x as int, y as int, u, v) {
                TEXT_COLOR
            } else {
                old(framebuffer).pixel(u, v)
            }),
{
    let bitmap = glyph_of(ch);
    let mut column: usize = 0;
    while column < GLYPH_COLUMNS
        invariant
            0 <= column <= GLYPH_COLUMNS,
            bitmap@ == glyph(ch),
            framebuffer.wf(),
            framebuffer.same_frame(*old(framebuffer)),
            forall|u: int, v: int|
                framebuffer.contains(u, v) ==> #[trigger] framebuffer.pixel(u, v) == (
                if glyph_covers(ch, x as int, y as int, u, v) && dot_done(
                    (u - x) / (SCALE as int),
                    (v - y) / (SCALE as int),
                    column as int,
                    0,
                ) {
                    TEXT_COLOR
                } else {
                    old(framebuffer).pixel(u, v)
                }),
        decreases GLYPH_COLUMNS - column,
    {
        let byte = bitmap[column];
        let mut row: u8 = 0;
        while row < 8
            invariant
                0 <= column < GLYPH_COLUMNS,
                0 <= row <= 8,
                bitmap@ == glyph(ch),
                byte == glyph(ch)[column as int],
                framebuffer.wf(),
                framebuffer.same_frame(*old(framebuffer)),
                forall|u: int, v: int|
                    framebuffer.contains(u, v) ==> #[trigger] framebuffer.pixel(u, v) == (
                    if glyph_covers(ch, x as int, y as int, u, v) && dot_done(
                        (u - x) / (SCALE as int),
                        (v - y) / (SCALE as int),
                        column as int,
                        row as int,
                    ) {
                        TEXT_COLOR
                    } else {
                        old(framebuffer).pixel(u, v)
                    }),
            decreases 8 - row,
        {
            if byte & (1u8 << row) != 0 {
                let right = column * SCALE;
                let down = row as usize * SCALE;
                if x <= usize::MAX - right && y <= usize::MAX - down {
                    draw_pixel(framebuffer, x + right, y + down, SCALE);
                }
            }
            row += 1;
        }
        column += 1;
    }
}

/// Draws a text from (`x`, `y`) to the right, one character every
/// `ADVANCE` pixels.
pub fn draw_text(framebuffer: &mut Framebuffer, text: &str, x: usize, y: usize)
    requires
        old(framebuffer).wf(),
    ensures
        final(framebuffer).wf(),
        final(framebuffer).same_frame(*old(framebuffer)),
        forall|u: int, v: int|
            final(framebuffer).contains(u, v) ==> #[trigger] final(framebuffer).pixel(u, v) == (
            if text_covers(text@, x as int, y as int, u, v) {
                TEXT_COLOR
            } else {
                old(framebuffer).pixel(u, v)
            }),
{
    let count = text.unicode_len();
    let width = framebuffer.width;
    let mut cursor_x: usize = x;
    let mut i: usize = 0;
    while i < count && cursor_x < width
        invariant
            0 <= i <= count,
            count == text@.len(),
            width == framebuffer.width,
            cursor_x == x + i * ADVANCE,
            framebuffer.wf(),
            framebuffer.same_frame(*old(framebuffer)),
            forall|u: int, v: int|
                framebuffer.contains(u, v) ==> #[trigger] framebuffer.pixel(u, v) == (
                if text_covers(text@, x as int, y as int, u, v) && (u - x) / (ADVANCE as int) < i {
                    TEXT_COLOR
                } else {
                    old(framebuffer).pixel(u, v)
                }),
        decreases count - i,
    {
        let ch = text.get_char(i);
        draw_char(framebuffer, ch, cursor_x, y);
        cursor_x += ADVANCE;
        i += 1;
    }
}

} // verus!

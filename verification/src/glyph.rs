//! A segment-based fallback font renderer that needs no font asset.
//!
//! An 11-bit mask says which strokes of a fixed 7x8 pixel cell are active
//! for a character: seven structural bars, a center vertical, and three
//! punctuation marks. Unknown characters deliberately map to all
//! structural segments (a filled box) so they stay visible; only the
//! literal space maps to no segments at all.

use vstd::prelude::*;

use crate::color::Rgba;
use crate::frame::Framebuffer;
use crate::texture::lemma_grid_bounds;
use crate::texture::lemma_grid_recompose;

verus! {

/// Horizontal bar along the top of the cell.
pub const SEG_TOP: u16 = 1;

/// Vertical bar, upper left.
pub const SEG_UPPER_LEFT: u16 = 2;

/// Vertical bar, upper right.
pub const SEG_UPPER_RIGHT: u16 = 4;

/// Horizontal bar across the middle.
pub const SEG_MIDDLE: u16 = 8;

/// Vertical bar, lower left.
pub const SEG_LOWER_LEFT: u16 = 16;

/// Vertical bar, lower right.
pub const SEG_LOWER_RIGHT: u16 = 32;

/// Horizontal bar along the bottom.
pub const SEG_BOTTOM: u16 = 64;

/// Full-height center vertical bar.
pub const SEG_CENTER: u16 = 128;

/// Period dot.
pub const SEG_DOT: u16 = 256;

/// Comma with its descender.
pub const SEG_COMMA: u16 = 512;

/// Apostrophe at the cell top.
pub const SEG_APOSTROPHE: u16 = 1024;

/// All structural segments at once: the visible fallback for characters
/// outside the table.
pub const SEG_FALLBACK: u16 = 255;

/// Horizontal advance per character, in pixels.
pub const CELL_WIDTH: i64 = 7;

/// Vertical advance per text line, in pixels.
pub const CELL_HEIGHT: i64 = 8;

/// The segment mask of a character: digits, case-insensitive letters and
/// a fixed punctuation set; space maps to no segments, anything else to
/// the filled fallback box.
pub open spec fn segments_spec(c: char) -> u16 {
    match c {
        ' ' => 0,
        '0' => 119,
        '1' => 36,
        '2' => 109,
        '3' => 77,
        '4' => 46,
        '5' => 107,
        '6' => 123,
        '7' => 37,
        '8' => 127,
        '9' => 111,
        'a' | 'A' => 63,
        'b' | 'B' => 127,
        'c' | 'C' => 83,
        'd' | 'D' => 119,
        'e' | 'E' => 91,
        'f' | 'F' => 27,
        'g' | 'G' => 115,
        'h' | 'H' => 62,
        'i' | 'I' => 193,
        'j' | 'J' => 116,
        'k' | 'K' => 58,
        'l' | 'L' => 82,
        'm' | 'M' => 183,
        'n' | 'N' => 55,
        'o' | 'O' => 119,
        'p' | 'P' => 31,
        'q' | 'Q' => 47,
        'r' | 'R' => 63,
        's' | 'S' => 107,
        't' | 'T' => 129,
        'u' | 'U' => 118,
        'v' | 'V' => 86,
        'w' | 'W' => 246,
        'x' | 'X' => 62,
        'y' | 'Y' => 46,
        'z' | 'Z' => 109,
        '.' => 256,
        ',' => 512,
        '\'' => 1024,
        '-' => 8,
        '_' => 64,
        ':' => 1280,
        '!' => 384,
        '?' => 269,
        _ => 255,
    }
}

/// Look the segment mask of a character up.
pub fn segments_for(c: char) -> (m: u16)
    ensures
        m == segments_spec(c),
{
    match c {
        ' ' => 0,
        '0' => 119,
        '1' => 36,
        '2' => 109,
        '3' => 77,
        '4' => 46,
        '5' => 107,
        '6' => 123,
        '7' => 37,
        '8' => 127,
        '9' => 111,
        'a' | 'A' => 63,
        'b' | 'B' => 127,
        'c' | 'C' => 83,
        'd' | 'D' => 119,
        'e' | 'E' => 91,
        'f' | 'F' => 27,
        'g' | 'G' => 115,
        'h' | 'H' => 62,
        'i' | 'I' => 193,
        'j' | 'J' => 116,
        'k' | 'K' => 58,
        'l' | 'L' => 82,
        'm' | 'M' => 183,
        'n' | 'N' => 55,
        'o' | 'O' => 119,
        'p' | 'P' => 31,
        'q' | 'Q' => 47,
        'r' | 'R' => 63,
        's' | 'S' => 107,
        't' | 'T' => 129,
        'u' | 'U' => 118,
        'v' | 'V' => 86,
        'w' | 'W' => 246,
        'x' | 'X' => 62,
        'y' | 'Y' => 46,
        'z' | 'Z' => 109,
        '.' => 256,
        ',' => 512,
        '\'' => 1024,
        '-' => 8,
        '_' => 64,
        ':' => 1280,
        '!' => 384,
        '?' => 269,
        _ => 255,
    }
}

/// Whether an active segment of `mask` covers the cell-relative pixel
/// `(dx, dy)` of the 7x8 cell (the glyph body is 5 pixels wide; the
/// comma descender uses row 7).
pub open spec fn seg_covers(mask: u16, dx: int, dy: int) -> bool {
    ||| (mask & SEG_TOP != 0 && dy == 0 && 0 <= dx < 5)
    ||| (mask & SEG_UPPER_LEFT != 0 && dx == 0 && 0 <= dy < 4)
    ||| (mask & SEG_UPPER_RIGHT != 0 && dx == 4 && 0 <= dy < 4)
    ||| (mask & SEG_MIDDLE != 0 && dy == 3 && 0 <= dx < 5)
    ||| (mask & SEG_LOWER_LEFT != 0 && dx == 0 && 3 <= dy < 7)
    ||| (mask & SEG_LOWER_RIGHT != 0 && dx == 4 && 3 <= dy < 7)
    ||| (mask & SEG_BOTTOM != 0 && dy == 6 && 0 <= dx < 5)
    ||| (mask & SEG_CENTER != 0 && dx == 2 && 0 <= dy < 7)
    ||| (mask & SEG_DOT != 0 && dx == 2 && dy == 6)
    ||| (mask & SEG_COMMA != 0 && ((dx == 2 && dy == 6) || (dx == 1 && dy == 7)))
    ||| (mask & SEG_APOSTROPHE != 0 && dx == 2 && 0 <= dy < 2)
}

/// Runtime test of [`seg_covers`].
pub fn seg_covers_exec(mask: u16, dx: i64, dy: i64) -> (r: bool)
    ensures
        r == seg_covers(mask, dx as int, dy as int),
{
    (mask & SEG_TOP != 0 && dy == 0 && 0 <= dx && dx < 5) || (mask & SEG_UPPER_LEFT != 0 && dx == 0
        && 0 <= dy && dy < 4) || (mask & SEG_UPPER_RIGHT != 0 && dx == 4 && 0 <= dy && dy < 4) || (
    mask & SEG_MIDDLE != 0 && dy == 3 && 0 <= dx && dx < 5) || (mask & SEG_LOWER_LEFT != 0 && dx
        == 0 && 3 <= dy && dy < 7) || (mask & SEG_LOWER_RIGHT != 0 && dx == 4 && 3 <= dy && dy < 7)
        || (mask & SEG_BOTTOM != 0 && dy == 6 && 0 <= dx && dx < 5) || (mask & SEG_CENTER != 0 && dx
        == 2 && 0 <= dy && dy < 7) || (mask & SEG_DOT != 0 && dx == 2 && dy == 6) || (mask
        & SEG_COMMA != 0 && ((dx == 2 && dy == 6) || (dx == 1 && dy == 7))) || (mask
        & SEG_APOSTROPHE != 0 && dx == 2 && 0 <= dy && dy < 2)
}

/// No segment of the empty mask covers anything: the space character
/// draws nothing.
pub proof fn lemma_empty_mask_covers_nothing(dx: int, dy: int)
    ensures
        !seg_covers(0, dx, dy),
{
    assert(0u16 & 1u16 == 0 && 0u16 & 2u16 == 0 && 0u16 & 4u16 == 0 && 0u16 & 8u16 == 0 && 0u16
        & 16u16 == 0 && 0u16 & 32u16 == 0 && 0u16 & 64u16 == 0 && 0u16 & 128u16 == 0 && 0u16
        & 256u16 == 0 && 0u16 & 512u16 == 0 && 0u16 & 1024u16 == 0) by (bit_vector);
}

/// Pixel `p` after one glyph is drawn at cell origin `(gx, gy)`: the
/// glyph color (with opaque alpha) where an active segment covers it,
/// untouched everywhere else.
pub open spec fn glyph_pixel(
    old: Seq<Rgba>,
    fw: int,
    gx: int,
    gy: int,
    mask: u16,
    color: Rgba,
    p: int,
) -> Rgba {
    let py = p / fw;
    let px = p % fw;
    if seg_covers(mask, px - gx, py - gy) {
        Rgba { r: color.r, g: color.g, b: color.b, a: 255 }
    } else {
        old[p]
    }
}

/// The whole framebuffer after one glyph is drawn.
pub open spec fn glyph_result(
    old: Seq<Rgba>,
    fw: int,
    gx: int,
    gy: int,
    mask: u16,
    color: Rgba,
) -> Seq<Rgba> {
    Seq::new(old.len(), |p: int| glyph_pixel(old, fw, gx, gy, mask, color, p))
}

/// Whether pixel `p` lies in the glyph cell and has been passed when the
/// cell scan is at relative row `cdy`, column `cdx`.
pub open spec fn glyph_visited(fw: int, gx: int, gy: int, p: int, cdy: int, cdx: int) -> bool {
    let py = p / fw;
    let px = p % fw;
    &&& gx <= px < gx + 5
    &&& gy <= py < gy + 8
    &&& {
        ||| py - gy < cdy
        ||| (py - gy == cdy && px - gx < cdx)
    }
}

/// Draw one glyph with its cell origin at pixel `(x, y)`, clipped to the
/// framebuffer; covered pixels take the glyph color with opaque alpha.
#[verifier::loop_isolation(false)]
pub fn draw_glyph(fb: &mut Framebuffer, x: i64, y: i64, c: char, color: Rgba)
    requires
        old(fb).wf(),
        -16777216 <= x <= 16777216,
        -16777216 <= y <= 16777216,
    ensures
        final(fb).wf(),
        final(fb).width == old(fb).width,
        final(fb).height == old(fb).height,
        final(fb).pixels@ == glyph_result(
            old(fb).pixels@,
            old(fb).width as int,
            x as int,
            y as int,
            segments_spec(c),
            color,
        ),
{
    let mask = segments_for(c);
    let fw = fb.width;
    let fh = fb.height;
    let plen = fb.pixels.len();
    let ghost fwi: int = fw as int;
    proof {
        assert(plen == fb.pixels@.len());
    }
    let ghost old_pixels: Seq<Rgba> = fb.pixels@;
    let ghost target: Seq<Rgba> = glyph_result(
        old_pixels,
        fwi,
        x as int,
        y as int,
        mask,
        color,
    );
    let mut dy: i64 = 0;
    while dy < 8
        invariant
            0 <= dy <= 8,
            fb.width == old(fb).width,
            fb.height == old(fb).height,
            fb.pixels@.len() == old_pixels.len(),
            forall|p: int|
                0 <= p < old_pixels.len() ==> fb.pixels@[p] == (if glyph_visited(
                    fwi,
                    x as int,
                    y as int,
                    p,
                    dy as int,
                    0,
                ) {
                    target[p]
                } else {
                    old_pixels[p]
                }),
        decreases 8 - dy,
    {
        let mut dx: i64 = 0;
        while dx < 5
            invariant
                0 <= dx <= 5,
                0 <= dy < 8,
                fb.width == old(fb).width,
                fb.height == old(fb).height,
                fb.pixels@.len() == old_pixels.len(),
                forall|p: int|
                    0 <= p < old_pixels.len() ==> fb.pixels@[p] == (if glyph_visited(
                        fwi,
                        x as int,
                        y as int,
                        p,
                        dy as int,
                        dx as int,
                    ) {
                        target[p]
                    } else {
                        old_pixels[p]
                    }),
            decreases 5 - dx,
        {
            let px = x + dx;
            let py = y + dy;
            if 0 <= px && px < fw as i64 && 0 <= py && py < fh as i64 {
                let covered = seg_covers_exec(mask, dx, dy);
                proof {
                    assert((py as int) * fwi + (px as int) < fwi * (fb.height as int) && 0 <= (
                    py as int) * fwi + (px as int)) by (nonlinear_arith)
                        requires
                            0 <= px as int,
                            (px as int) < fwi,
                            0 <= py as int,
                            py as int + 1 <= fb.height as int;
                    crate::texture::lemma_grid_index(fwi, px as int, py as int);
                }
                let p_idx: usize = (py as usize) * fw + (px as usize);
                if covered {
                    fb.pixels.set(p_idx, Rgba { r: color.r, g: color.g, b: color.b, a: 255 });
                }
                proof {
                    assert forall|p: int|
                        0 <= p < old_pixels.len() implies fb.pixels@[p] == (if glyph_visited(
                        fwi,
                        x as int,
                        y as int,
                        p,
                        dy as int,
                        dx as int + 1,
                    ) {
                        target[p]
                    } else {
                        old_pixels[p]
                    }) by {
                        lemma_grid_recompose(fwi, p);
                    }
                }
            } else {
                proof {
                    assert forall|p: int|
                        0 <= p < old_pixels.len() implies fb.pixels@[p] == (if glyph_visited(
                        fwi,
                        x as int,
                        y as int,
                        p,
                        dy as int,
                        dx as int + 1,
                    ) {
                        target[p]
                    } else {
                        old_pixels[p]
                    }) by {
                        if old_pixels.len() > 0 {
                            lemma_grid_bounds(fwi, fb.height as int, p);
                            lemma_grid_recompose(fwi, p);
                        }
                    }
                }
            }
            dx = dx + 1;
        }
        proof {
            assert forall|p: int|
                0 <= p < old_pixels.len() implies (glyph_visited(
                fwi,
                x as int,
                y as int,
                p,
                dy as int,
                5,
            ) == glyph_visited(fwi, x as int, y as int, p, dy as int + 1, 0)) by {}
        }
        dy = dy + 1;
    }
    proof {
        assert forall|p: int| 0 <= p < old_pixels.len() implies fb.pixels@[p] == target[p] by {
            if old_pixels.len() > 0 {
                lemma_grid_bounds(fwi, fb.height as int, p);
                lemma_grid_recompose(fwi, p);
            }
        }
        assert(fb.pixels@ =~= target);
    }
}

/// Whether the glyph at index `i` of a run starting at `x` still fits
/// before the right limit `max_x`.
pub open spec fn char_fits(x: int, i: int, max_x: int) -> bool {
    x + 7 * i + 7 <= max_x
}

/// The framebuffer after the first `n` characters of a run are drawn at
/// `(x, y)`; a character is drawn whole or not at all.
pub open spec fn text_result(
    old: Seq<Rgba>,
    fw: int,
    x: int,
    y: int,
    chars: Seq<char>,
    color: Rgba,
    max_x: int,
    n: int,
) -> Seq<Rgba>
    decreases n,
{
    if n <= 0 {
        old
    } else {
        let prev = text_result(old, fw, x, y, chars, color, max_x, n - 1);
        if char_fits(x, n - 1, max_x) {
            glyph_result(prev, fw, x + 7 * (n - 1), y, segments_spec(chars[n - 1]), color)
        } else {
            prev
        }
    }
}

/// Once one character fails to fit, no later character fits either, so
/// the run is unchanged from that point on.
pub proof fn lemma_text_stops(
    old: Seq<Rgba>,
    fw: int,
    x: int,
    y: int,
    chars: Seq<char>,
    color: Rgba,
    max_x: int,
    i: int,
    n: int,
)
    requires
        0 <= i <= n,
        !char_fits(x, i, max_x),
    ensures
        text_result(old, fw, x, y, chars, color, max_x, n) == text_result(
            old,
            fw,
            x,
            y,
            chars,
            color,
            max_x,
            i,
        ),
    decreases n - i,
{
    if n > i {
        lemma_text_stops(old, fw, x, y, chars, color, max_x, i, n - 1);
    }
}

/// Draw a run of characters left to right from `(x, y)`, advancing one
/// cell width each; the run stops entirely before the first glyph that
/// would cross `max_x`.
#[verifier::loop_isolation(false)]
pub fn draw_text(fb: &mut Framebuffer, x: i64, y: i64, text: &Vec<char>, color: Rgba, max_x: i64)
    requires
        old(fb).wf(),
        -16777216 <= x <= 16777216,
        -16777216 <= y <= 16777216,
        -16777216 <= max_x <= 16777216,
    ensures
        final(fb).wf(),
        final(fb).width == old(fb).width,
        final(fb).height == old(fb).height,
        final(fb).pixels@ == text_result(
            old(fb).pixels@,
            old(fb).width as int,
            x as int,
            y as int,
            text@,
            color,
            max_x as int,
            text@.len() as int,
        ),
        max_x < x + 7 ==> final(fb).pixels@ == old(fb).pixels@,
{
    let ghost old_pixels: Seq<Rgba> = fb.pixels@;
    let ghost fwi: int = fb.width as int;
    let n = text.len();
    let mut i: usize = 0;
    let mut cx: i64 = x;
    while i < n && cx + 7 <= max_x
        invariant
            0 <= i <= n,
            cx as int == x as int + 7 * (i as int),
            i == 0 || cx <= max_x,
            fb.width == old(fb).width,
            fb.height == old(fb).height,
            fb.pixels@.len() == old_pixels.len(),
            fb.pixels@ == text_result(
                old_pixels,
                fwi,
                x as int,
                y as int,
                text@,
                color,
                max_x as int,
                i as int,
            ),
        decreases n - i,
    {
        draw_glyph(fb, cx, y, text[i], color);
        i = i + 1;
        cx = cx + 7;
    }
    proof {
        if i < n {
            lemma_text_stops(
                old_pixels,
                fwi,
                x as int,
                y as int,
                text@,
                color,
                max_x as int,
                i as int,
                n as int,
            );
        }
        if max_x < x + 7 {
            lemma_text_stops(
                old_pixels,
                fwi,
                x as int,
                y as int,
                text@,
                color,
                max_x as int,
                0,
                n as int,
            );
        }
    }
}

/// Whether text line `k` of a block starting at `y` still fits above the
/// bottom limit `max_y`.
pub open spec fn line_fits(y: int, k: int, max_y: int) -> bool {
    y + 8 * k + 8 <= max_y
}

/// The framebuffer after the first `n` lines of a block are drawn, one
/// cell height apart; a line is drawn whole or not at all.
pub open spec fn multiline_result(
    old: Seq<Rgba>,
    fw: int,
    x: int,
    y: int,
    lines: Seq<Vec<char>>,
    color: Rgba,
    max_x: int,
    max_y: int,
    n: int,
) -> Seq<Rgba>
    decreases n,
{
    if n <= 0 {
        old
    } else {
        let prev = multiline_result(old, fw, x, y, lines, color, max_x, max_y, n - 1);
        if line_fits(y, n - 1, max_y) {
            text_result(
                prev,
                fw,
                x,
                y + 8 * (n - 1),
                lines[n - 1]@,
                color,
                max_x,
                lines[n - 1]@.len() as int,
            )
        } else {
            prev
        }
    }
}

/// Once one line fails to fit, no later line fits either.
pub proof fn lemma_multiline_stops(
    old: Seq<Rgba>,
    fw: int,
    x: int,
    y: int,
    lines: Seq<Vec<char>>,
    color: Rgba,
    max_x: int,
    max_y: int,
    i: int,
    n: int,
)
    requires
        0 <= i <= n,
        !line_fits(y, i, max_y),
    ensures
        multiline_result(old, fw, x, y, lines, color, max_x, max_y, n) == multiline_result(
            old,
            fw,
            x,
            y,
            lines,
            color,
            max_x,
            max_y,
            i,
        ),
    decreases n - i,
{
    if n > i {
        lemma_multiline_stops(old, fw, x, y, lines, color, max_x, max_y, i, n - 1);
    }
}

/// Draw several lines of text top to bottom from `(x, y)`, advancing one
/// cell height per line; the block stops entirely before the first line
/// that would cross `max_y`.
#[verifier::loop_isolation(false)]
pub fn draw_multiline_text(
    fb: &mut Framebuffer,
    x: i64,
    y: i64,
    lines: &Vec<Vec<char>>,
    color: Rgba,
    max_x: i64,
    max_y: i64,
)
    requires
        old(fb).wf(),
        -16777216 <= x <= 16777216,
        -16777216 <= y <= 16777216,
        -16777216 <= max_x <= 16777216,
        -16777216 <= max_y <= 16777216,
    ensures
        final(fb).wf(),
        final(fb).width == old(fb).width,
        final(fb).height == old(fb).height,
        final(fb).pixels@ == multiline_result(
            old(fb).pixels@,
            old(fb).width as int,
            x as int,
            y as int,
            lines@,
            color,
            max_x as int,
            max_y as int,
            lines@.len() as int,
        ),
        max_y < y + 8 ==> final(fb).pixels@ == old(fb).pixels@,
{
    let ghost old_pixels: Seq<Rgba> = fb.pixels@;
    let ghost fwi: int = fb.width as int;
    let n = lines.len();
    let mut k: usize = 0;
    let mut cy: i64 = y;
    while k < n && cy + 8 <= max_y
        invariant
            0 <= k <= n,
            cy as int == y as int + 8 * (k as int),
            k == 0 || cy <= max_y,
            fb.width == old(fb).width,
            fb.height == old(fb).height,
            fb.pixels@.len() == old_pixels.len(),
            fb.pixels@ == multiline_result(
                old_pixels,
                fwi,
                x as int,
                y as int,
                lines@,
                color,
                max_x as int,
                max_y as int,
                k as int,
            ),
        decreases n - k,
    {
        draw_text(fb, x, cy, &lines[k], color, max_x);
        k = k + 1;
        cy = cy + 8;
    }
    proof {
        if k < n {
            lemma_multiline_stops(
                old_pixels,
                fwi,
                x as int,
                y as int,
                lines@,
                color,
                max_x as int,
                max_y as int,
                k as int,
                n as int,
            );
        }
        if max_y < y + 8 {
            lemma_multiline_stops(
                old_pixels,
                fwi,
                x as int,
                y as int,
                lines@,
                color,
                max_x as int,
                max_y as int,
                0,
                n as int,
            );
        }
    }
}

} // verus!

use softrender::color::Rgba;
use softrender::frame::begin_frame;
use softrender::frame::Framebuffer;
use softrender::glyph::draw_glyph;
use softrender::glyph::draw_multiline_text;
use softrender::glyph::draw_text;
use softrender::glyph::segments_for;
use softrender::glyph::SEG_BOTTOM;
use softrender::glyph::SEG_FALLBACK;
use softrender::glyph::SEG_MIDDLE;
use softrender::glyph::SEG_TOP;

fn rgba(r: u8, g: u8, b: u8, a: u8) -> Rgba {
    Rgba { r, g, b, a }
}

fn pixel(fb: &Framebuffer, x: usize, y: usize) -> Rgba {
    fb.pixels[y * fb.width + x]
}

fn all_background(fb: &Framebuffer, bg: Rgba) -> bool {
    fb.pixels.iter().all(|p| *p == bg)
}

#[test]
fn text_narrower_than_one_cell_draws_nothing() {
    let bg = rgba(0, 0, 0, 255);
    let mut fb = begin_frame(20, 10, bg);
    let col = rgba(255, 255, 255, 255);
    draw_text(&mut fb, 0, 0, &vec!['A', 'B'], col, 6);
    assert!(all_background(&fb, bg));
}

#[test]
fn space_draws_nothing() {
    assert_eq!(segments_for(' '), 0);
    let bg = rgba(0, 0, 0, 255);
    let mut fb = begin_frame(20, 10, bg);
    let col = rgba(255, 255, 255, 255);
    draw_text(&mut fb, 0, 0, &vec![' '], col, 100);
    assert!(all_background(&fb, bg));
}

#[test]
fn unknown_character_draws_the_fallback_box() {
    assert_eq!(segments_for('~'), SEG_FALLBACK);
    assert_eq!(segments_for('\u{263a}'), SEG_FALLBACK);
    let bg = rgba(0, 0, 0, 255);
    let col = rgba(200, 150, 100, 200);
    let drawn = rgba(200, 150, 100, 255);
    let mut fb = begin_frame(20, 10, bg);
    draw_glyph(&mut fb, 0, 0, '~', col);
    // Corners and bars of the box are on; the inside stays background.
    assert_eq!(pixel(&fb, 0, 0), drawn);
    assert_eq!(pixel(&fb, 4, 0), drawn);
    assert_eq!(pixel(&fb, 0, 6), drawn);
    assert_eq!(pixel(&fb, 4, 6), drawn);
    assert_eq!(pixel(&fb, 0, 3), drawn);
    assert_eq!(pixel(&fb, 1, 1), bg);
    assert_eq!(pixel(&fb, 3, 2), bg);
}

#[test]
fn known_masks_match_the_table() {
    assert_eq!(segments_for('8'), 127);
    assert_eq!(segments_for('-'), SEG_MIDDLE);
    assert_eq!(segments_for('_'), SEG_BOTTOM);
    assert_eq!(segments_for('t'), segments_for('T'));
    assert_eq!(segments_for('T'), SEG_TOP | 128);
}

#[test]
fn glyphs_are_clipped_at_the_framebuffer_edge() {
    let bg = rgba(0, 0, 0, 255);
    let col = rgba(255, 255, 255, 255);
    let mut fb = begin_frame(3, 3, bg);
    // The cell extends past the 3x3 framebuffer; only in-bounds pixels
    // are written and nothing panics.
    draw_glyph(&mut fb, -1, -1, '8', col);
    // Framebuffer row 2 is cell row 3: the middle bar covers it.
    assert_eq!(pixel(&fb, 1, 2), col);
    // Framebuffer pixel (2,1) is cell (3,2): no active segment there.
    assert_eq!(pixel(&fb, 2, 1), bg);
}

#[test]
fn text_advances_one_cell_per_character() {
    let bg = rgba(0, 0, 0, 255);
    let col = rgba(255, 255, 255, 255);
    let drawn = rgba(255, 255, 255, 255);
    let mut fb = begin_frame(20, 10, bg);
    draw_text(&mut fb, 0, 0, &vec!['-', '-'], col, 20);
    // The middle bar of each glyph sits at cell row 3.
    assert_eq!(pixel(&fb, 0, 3), drawn);
    assert_eq!(pixel(&fb, 7, 3), drawn);
    assert_eq!(pixel(&fb, 0, 0), bg);
    // The second glyph fits (14 <= 20) but a third would not have.
    assert_eq!(pixel(&fb, 14, 3), bg);
}

#[test]
fn multiline_text_stops_before_the_height_limit() {
    let bg = rgba(0, 0, 0, 255);
    let col = rgba(255, 255, 255, 255);
    let drawn = rgba(255, 255, 255, 255);
    let lines = vec![vec!['-'], vec!['-'], vec!['-']];

    let mut fb = begin_frame(20, 30, bg);
    draw_multiline_text(&mut fb, 0, 0, &lines, col, 20, 7);
    assert!(all_background(&fb, bg));

    let mut fb2 = begin_frame(20, 30, bg);
    draw_multiline_text(&mut fb2, 0, 0, &lines, col, 20, 16);
    // Two lines fit; the third (rows 16..24) does not.
    assert_eq!(pixel(&fb2, 0, 3), drawn);
    assert_eq!(pixel(&fb2, 0, 11), drawn);
    assert_eq!(pixel(&fb2, 0, 19), bg);
}

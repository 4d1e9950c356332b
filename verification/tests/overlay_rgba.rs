use backend::frame::{Glyph, GridPosition};
use backend::overlay::{
    fast_overlay_rgba, get_character_size, glyph_placements, glyph_placements_fit, CharacterSize,
    GlyphPlacement, RgbaBuffer,
};

#[test]
fn character_size_by_height() {
    assert_eq!(get_character_size(960, 540), CharacterSize::Race);
    assert_eq!(get_character_size(1280, 720), CharacterSize::Small);
    assert_eq!(get_character_size(1920, 1080), CharacterSize::Large);
    assert_eq!(get_character_size(1440, 1080), CharacterSize::Small);
    assert_eq!(get_character_size(1619, 1080), CharacterSize::Small);
    assert_eq!(get_character_size(1620, 1080), CharacterSize::Large);
    assert_eq!(get_character_size(1920, 1440), CharacterSize::Large);
    assert_eq!(get_character_size(2560, 1440), CharacterSize::XLarge);
    assert_eq!(get_character_size(3840, 2160), CharacterSize::Ultra);
    assert_eq!(get_character_size(640, 480), CharacterSize::Large);
    assert_eq!(get_character_size(0, 0), CharacterSize::Large);
}

fn solid(width: u32, height: u32, px: [u8; 4]) -> RgbaBuffer {
    let mut pixels = Vec::new();
    for _ in 0..width * height {
        pixels.extend_from_slice(&px);
    }
    RgbaBuffer { width, height, pixels }
}

fn pixel(b: &RgbaBuffer, x: u32, y: u32) -> [u8; 4] {
    let i = ((y * b.width + x) * 4) as usize;
    [b.pixels[i], b.pixels[i + 1], b.pixels[i + 2], b.pixels[i + 3]]
}

#[test]
fn opaque_pixels_replace() {
    let mut bottom = solid(4, 3, [10, 20, 30, 40]);
    let top = solid(2, 2, [200, 100, 50, 255]);
    fast_overlay_rgba(&mut bottom, &top, 1, 1);
    for y in 0..3 {
        for x in 0..4 {
            let inside = (1..3).contains(&x) && (1..3).contains(&y);
            let want = if inside { [200, 100, 50, 255] } else { [10, 20, 30, 40] };
            assert_eq!(pixel(&bottom, x, y), want, "pixel {x},{y}");
        }
    }
}

#[test]
fn transparent_pixels_leave_bottom() {
    let mut bottom = solid(2, 2, [1, 2, 3, 4]);
    let top = solid(2, 2, [200, 100, 50, 0]);
    fast_overlay_rgba(&mut bottom, &top, 0, 0);
    assert_eq!(bottom.pixels, solid(2, 2, [1, 2, 3, 4]).pixels);
}

#[test]
fn partial_alpha_blends_colour_keeps_alpha() {
    let mut bottom = solid(1, 1, [0, 100, 255, 77]);
    let top = solid(1, 1, [255, 200, 0, 128]);
    fast_overlay_rgba(&mut bottom, &top, 0, 0);
    // (255*128 + 0*127)/255 = 128, (200*128 + 100*127)/255 = 150, (0*128 + 255*127)/255 = 127
    assert_eq!(pixel(&bottom, 0, 0), [128, 150, 127, 77]);
}

#[test]
fn clipped_at_negative_offset() {
    let mut bottom = solid(3, 3, [0, 0, 0, 0]);
    let mut top = solid(2, 2, [9, 9, 9, 255]);
    // mark top's bottom-right pixel distinctly
    top.pixels[12..16].copy_from_slice(&[5, 6, 7, 255]);
    fast_overlay_rgba(&mut bottom, &top, -1, -1);
    assert_eq!(pixel(&bottom, 0, 0), [5, 6, 7, 255]);
    assert_eq!(pixel(&bottom, 1, 0), [0, 0, 0, 0]);
    assert_eq!(pixel(&bottom, 0, 1), [0, 0, 0, 0]);
}

#[test]
fn clipped_at_right_and_bottom_edges() {
    let mut bottom = solid(3, 2, [0, 0, 0, 0]);
    let top = solid(4, 4, [1, 1, 1, 255]);
    fast_overlay_rgba(&mut bottom, &top, 2, 1);
    assert_eq!(pixel(&bottom, 2, 1), [1, 1, 1, 255]);
    assert_eq!(pixel(&bottom, 1, 1), [0, 0, 0, 0]);
    assert_eq!(pixel(&bottom, 2, 0), [0, 0, 0, 0]);
}

#[test]
fn fully_outside_changes_nothing() {
    let mut bottom = solid(3, 3, [8, 8, 8, 8]);
    let top = solid(2, 2, [1, 1, 1, 255]);
    fast_overlay_rgba(&mut bottom, &top, 3, 0);
    fast_overlay_rgba(&mut bottom, &top, 0, 3);
    fast_overlay_rgba(&mut bottom, &top, -2, 0);
    fast_overlay_rgba(&mut bottom, &top, 0, -2);
    assert_eq!(bottom.pixels, solid(3, 3, [8, 8, 8, 8]).pixels);
}

fn glyph(index: u16, x: u32, y: u32) -> Glyph {
    Glyph { index, grid_position: GridPosition { x, y } }
}

#[test]
fn placements_skip_blank_and_masked_glyphs() {
    let glyphs = vec![glyph(0x41, 2, 3), glyph(0, 4, 4), glyph(0x42, 5, 1), glyph(0x20, 0, 0)];
    let masked = vec![false, false, true, false];
    assert!(glyph_placements_fit(&glyphs, &masked, (24, 36), (10, -5), (1, 2)));
    let p = glyph_placements(&glyphs, &masked, (24, 36), (10, -5), (1, 2));
    assert_eq!(
        p,
        vec![
            GlyphPlacement { index: 0x41, x: 2 * 24 + 10 + 1, y: 3 * 36 - 5 + 2 },
            GlyphPlacement { index: 0x20, x: 11, y: -3 },
        ]
    );
}

#[test]
fn placements_overflowing_i32_are_refused() {
    let glyphs = vec![glyph(1, 100_000, 0)];
    assert!(!glyph_placements_fit(&glyphs, &vec![false], (100_000, 10), (0, 0), (0, 0)));
    // a masked glyph is never placed, so its position does not matter
    assert!(glyph_placements_fit(&glyphs, &vec![true], (100_000, 10), (0, 0), (0, 0)));
    assert_eq!(glyph_placements(&glyphs, &vec![true], (100_000, 10), (0, 0), (0, 0)), vec![]);
    // the sum is checked step by step
    let g = vec![glyph(1, 1, 0)];
    assert!(!glyph_placements_fit(&g, &vec![false], (1, 1), (i32::MAX, 0), (-5, 0)));
    assert!(glyph_placements_fit(&g, &vec![false], (1, 1), (i32::MAX - 1, 0), (-5, 0)));
}

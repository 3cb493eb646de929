use tui_texture::bitmap::Bitmap;
use tui_texture::bitmap::Shape;
use tui_texture::bitmap::OPAQUE_WHITE;
use tui_texture::programmatic::all_programmatic_glyphs;
use tui_texture::programmatic::is_programmatic_glyph;
use tui_texture::programmatic::render_block;
use tui_texture::programmatic::render_box;
use tui_texture::programmatic::render_braille;
use tui_texture::programmatic::render_powerline;
use tui_texture::programmatic::render_programmatic_glyph;
use tui_texture::programmatic::stroke_width;

fn alpha(p: u32) -> u32 {
    p >> 24
}

#[test]
fn test_is_programmatic_glyph() {
    // Box drawing
    assert!(is_programmatic_glyph('─'));
    assert!(is_programmatic_glyph('│'));

    // Block elements
    assert!(is_programmatic_glyph('█'));
    assert!(is_programmatic_glyph('▀'));

    // Braille
    assert!(is_programmatic_glyph('⠀'));
    assert!(is_programmatic_glyph('⣿'));

    // Powerline
    assert!(is_programmatic_glyph('\u{E0B0}'));

    // Not programmatic
    assert!(!is_programmatic_glyph('A'));
    assert!(!is_programmatic_glyph('あ'));
}

#[test]
fn test_glyph_count() {
    let count = all_programmatic_glyphs().len();
    assert_eq!(count, 128 + 32 + 256 + 16); // 432 glyphs in the defined ranges
}

#[test]
fn test_glyph_code_points() {
    let glyphs = all_programmatic_glyphs();
    assert_eq!(glyphs[0] as u32, 0x2500);
    assert_eq!(glyphs[127] as u32, 0x257F);
    assert_eq!(glyphs[128] as u32, 0x2580);
    assert_eq!(glyphs[159] as u32, 0x259F);
    assert_eq!(glyphs[160] as u32, 0x2800);
    assert_eq!(glyphs[415] as u32, 0x28FF);
    assert_eq!(glyphs[416] as u32, 0xE0B0);
    assert_eq!(glyphs[431] as u32, 0xE0BF);
    assert!(glyphs.iter().all(|&c| is_programmatic_glyph(c)));
}

#[test]
fn test_braille_blank() {
    // U+2800 is blank (no dots)
    let bitmap = render_braille('\u{2800}', 32, 32).unwrap();
    // Should have no pixels
    assert!(bitmap.pixels.iter().all(|&p| alpha(p) == 0));
}

#[test]
fn test_braille_full() {
    // U+28FF is full (all 8 dots)
    let bitmap = render_braille('\u{28FF}', 32, 32).unwrap();
    // Should have pixels
    assert!(bitmap.pixels.iter().any(|&p| alpha(p) > 0));
}

#[test]
fn test_braille_single_dot() {
    // U+2801 is dot 1 only (top-left)
    let bitmap = render_braille('\u{2801}', 32, 32).unwrap();
    assert!(bitmap.pixels.iter().any(|&p| alpha(p) > 0));
}

#[test]
fn test_braille_full_covers_every_dot_cell() {
    // Each cell of the 2 x 4 dot grid holds at least one opaque pixel.
    let w: u32 = 32;
    let h: u32 = 32;
    let bitmap = render_braille('\u{28FF}', w, h).unwrap();
    for col in 0..2u32 {
        for row in 0..4u32 {
            let x0 = col * w / 2;
            let x1 = (col + 1) * w / 2;
            let y0 = row * h / 4;
            let y1 = (row + 1) * h / 4;
            let mut found = false;
            for y in y0..y1 {
                for x in x0..x1 {
                    if alpha(bitmap.pixels[(y * w + x) as usize]) == 0xFF {
                        found = true;
                    }
                }
            }
            assert!(found, "dot cell ({col}, {row}) has no opaque pixel");
        }
    }
}

#[test]
fn test_powerline_right_triangle() {
    let bitmap = render_powerline('\u{E0B0}', 32, 32).unwrap();
    assert!(bitmap.pixels.iter().any(|&p| alpha(p) > 0));
}

#[test]
fn test_powerline_left_triangle() {
    let bitmap = render_powerline('\u{E0B2}', 32, 32).unwrap();
    assert!(bitmap.pixels.iter().any(|&p| alpha(p) > 0));
}

#[test]
fn test_stroke_width() {
    assert_eq!(stroke_width(10), 1);
    assert_eq!(stroke_width(20), 2);
    assert_eq!(stroke_width(100), 10);
}

#[test]
fn test_stroke_width_minimum() {
    assert_eq!(stroke_width(1), 1);
    assert_eq!(stroke_width(0), 1);
}

#[test]
fn test_draw_rect() {
    let mut bitmap = Bitmap::new(32, 32);
    bitmap.fill(Shape::Rect { x0: 0, y0: 0, x1: 64, y1: 64 }, OPAQUE_WHITE);
    // Should have drawn pixels
    assert!(bitmap.pixels.iter().any(|&p| alpha(p) > 0));
}

#[test]
fn test_draw_circle() {
    let mut bitmap = Bitmap::new(32, 32);
    bitmap.fill(Shape::Ellipse { cx: 32, cy: 32, a: 16, b: 16 }, OPAQUE_WHITE);
    // Should have drawn pixels
    assert!(bitmap.pixels.iter().any(|&p| alpha(p) > 0));
}

#[test]
fn test_programmatic_determinism() {
    // Two independent calls with equal inputs give byte-identical buffers.
    for &c in &['─', '╔', '▒', '⡇', '\u{E0B4}'] {
        let a = render_programmatic_glyph(c, 24, 48).unwrap();
        let b = render_programmatic_glyph(c, 24, 48).unwrap();
        assert_eq!(a.width, b.width);
        assert_eq!(a.height, b.height);
        assert_eq!(a.pixels, b.pixels);
    }
}

#[test]
fn test_block_upper_half() {
    let w: u32 = 16;
    let h: u32 = 16;
    let bitmap = render_block('▀', w, h).unwrap();
    // Top half opaque, bottom half transparent.
    assert_eq!(alpha(bitmap.pixels[0]), 0xFF);
    assert_eq!(alpha(bitmap.pixels[(7 * w) as usize]), 0xFF);
    assert_eq!(alpha(bitmap.pixels[(8 * w) as usize]), 0);
    assert_eq!(alpha(bitmap.pixels[(15 * w) as usize]), 0);
}

#[test]
fn test_block_full() {
    let bitmap = render_block('█', 16, 16).unwrap();
    assert!(bitmap.pixels.iter().all(|&p| p == OPAQUE_WHITE));
}

#[test]
fn test_box_horizontal_line() {
    let w: u32 = 20;
    let h: u32 = 20;
    let bitmap = render_box('─', w, h).unwrap();
    // The center row is opaque across the full width; the top row is empty.
    for x in 0..w {
        assert_eq!(alpha(bitmap.pixels[(10 * w + x) as usize]), 0xFF);
        assert_eq!(alpha(bitmap.pixels[x as usize]), 0);
    }
}

#[test]
fn test_box_unimplemented_code_point_is_none() {
    // A box-drawing code point outside the implemented set renders as None.
    assert!(render_box('\u{2574}', 32, 32).is_none());
    assert!(render_programmatic_glyph('\u{2574}', 32, 32).is_none());
}

#[test]
fn test_render_rejects_out_of_range_and_degenerate() {
    assert!(render_programmatic_glyph('A', 32, 32).is_none());
    assert!(render_programmatic_glyph('─', 0, 32).is_none());
    assert!(render_programmatic_glyph('─', 32, 0).is_none());
}

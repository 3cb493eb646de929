use tui_texture::raster::bgra_expand;
use tui_texture::raster::compose_glyph;
use tui_texture::raster::gray_expand;
use tui_texture::raster::scale_nearest;
use tui_texture::raster::select_source;
use tui_texture::raster::ColorImage;
use tui_texture::raster::GlyphSource;
use tui_texture::raster::GrayFormat;
use tui_texture::raster::GrayImage;
use tui_texture::unicode::char_cell_width;
use tui_texture::unicode::is_emoji_char;

#[test]
fn test_select_source_priority_order() {
    // Color layers win over everything.
    let r = select_source(
        Some(vec![1, 2, 3, 4]),
        Some(ColorImage { data: vec![], width: 1, height: 1, left: 0, top: 0 }),
        Some(vec![9]),
        Some(GrayImage { format: GrayFormat::Gray8, data: vec![], width: 1, height: 1, left: 0, top: 0 }),
    );
    assert!(matches!(r, GlyphSource::ColorLayers { .. }));
    // Then the embedded color image.
    let r = select_source(
        None,
        Some(ColorImage { data: vec![], width: 1, height: 1, left: 0, top: 0 }),
        Some(vec![9]),
        None,
    );
    assert!(matches!(r, GlyphSource::RasterColor { .. }));
    // Then the filled outline.
    let r = select_source(
        None,
        None,
        Some(vec![9]),
        Some(GrayImage { format: GrayFormat::Gray8, data: vec![], width: 1, height: 1, left: 0, top: 0 }),
    );
    assert!(matches!(r, GlyphSource::OutlineMask { .. }));
    // Then the grayscale image, then nothing.
    let r = select_source(
        None,
        None,
        None,
        Some(GrayImage { format: GrayFormat::Gray8, data: vec![], width: 1, height: 1, left: 0, top: 0 }),
    );
    assert!(matches!(r, GlyphSource::Gray { .. }));
    let r = select_source(None, None, None, None);
    assert!(matches!(r, GlyphSource::Missing));
}

#[test]
fn test_gray8_passthrough() {
    let image = GrayImage {
        format: GrayFormat::Gray8,
        data: vec![0, 128, 255, 7],
        width: 2,
        height: 2,
        left: 0,
        top: 0,
    };
    let px = gray_expand(&image);
    assert_eq!(px[0], 0x00FF_FFFF);
    assert_eq!(px[1], 0x80FF_FFFF);
    assert_eq!(px[2], 0xFFFF_FFFF);
    assert_eq!(px[3], 0x07FF_FFFF);
}

#[test]
fn test_gray2_levels_and_bit_order() {
    // One unpacked row of two 2-bit samples in the byte 0b0000_0111:
    // sample 0 reads bits 0..2 (1, 1) as value 3, sample 1 reads bits 2..4
    // (1, 0) stream-first-is-most-significant as value 2.
    let image = GrayImage {
        format: GrayFormat::Gray2,
        data: vec![0b0000_0111],
        width: 2,
        height: 1,
        left: 0,
        top: 0,
    };
    let px = gray_expand(&image);
    assert_eq!(px[0] >> 24, 255); // 3 * 255 / 3
    assert_eq!(px[1] >> 24, 170); // 2 * 255 / 3
}

#[test]
fn test_mono_levels() {
    // Packed mono: eight samples per byte.
    let image = GrayImage {
        format: GrayFormat::MonoPacked,
        data: vec![0b0000_0101],
        width: 8,
        height: 1,
        left: 0,
        top: 0,
    };
    let px = gray_expand(&image);
    assert_eq!(px[0] >> 24, 255);
    assert_eq!(px[1] >> 24, 0);
    assert_eq!(px[2] >> 24, 255);
    assert_eq!(px[3] >> 24, 0);
}

#[test]
fn test_bgra_swizzle() {
    let image = ColorImage { data: vec![1, 2, 3, 4], width: 1, height: 1, left: 0, top: 0 };
    let px = bgra_expand(&image);
    // BGRA bytes (b=1, g=2, r=3, a=4) become packed RGBA with alpha high.
    assert_eq!(px[0], 0x0401_0203);
}

#[test]
fn test_scale_nearest_identity_and_downsample() {
    let src = vec![10, 20, 30, 40];
    let same = scale_nearest(&src, 2, 2, 2, 2);
    assert_eq!(same, src);
    // Downsampling a 2x-supersampled buffer picks every second pixel.
    let big: Vec<u32> = (0..16).collect();
    let down = scale_nearest(&big, 4, 4, 2, 2);
    assert_eq!(down, vec![0, 2, 8, 10]);
}

#[test]
fn test_compose_missing_is_transparent() {
    let px = compose_glyph(&GlyphSource::Missing, 4, 4);
    assert_eq!(px.len(), 16);
    assert!(px.iter().all(|&p| p == 0));
}

#[test]
fn test_compose_outline_mask_downsamples() {
    // An 8x8 supersampled mask for a 4x4 slot.
    let mut mask = vec![0u32; 64];
    for y in 0..8 {
        for x in 0..8 {
            if x < 4 {
                mask[y * 8 + x] = 0xFFFF_FFFF;
            }
        }
    }
    let px = compose_glyph(&GlyphSource::OutlineMask { pixels: mask }, 4, 4);
    for y in 0..4 {
        assert_eq!(px[y * 4 + 0], 0xFFFF_FFFF);
        assert_eq!(px[y * 4 + 1], 0xFFFF_FFFF);
        assert_eq!(px[y * 4 + 2], 0);
        assert_eq!(px[y * 4 + 3], 0);
    }
}

#[test]
fn test_compose_wrong_size_mask_is_blank() {
    let px = compose_glyph(&GlyphSource::OutlineMask { pixels: vec![1, 2, 3] }, 4, 4);
    assert!(px.iter().all(|&p| p == 0));
}

#[test]
fn test_char_cell_width() {
    assert_eq!(char_cell_width('A'), 1);
    assert_eq!(char_cell_width(' '), 1);
    assert_eq!(char_cell_width('你'), 2);
    // Control characters and zero-width marks occupy one column in a cell.
    assert_eq!(char_cell_width('\n'), 1);
    assert_eq!(char_cell_width('\u{0301}'), 1);
}

#[test]
fn test_is_emoji_char() {
    assert!(is_emoji_char('😀'));
    assert!(!is_emoji_char('A'));
    assert!(!is_emoji_char('─'));
}

#[test]
fn test_compose_places_embedded_image_at_offset() {
    // A 1x1 opaque-white embedded image placed at (2, 1) in a 4x4 slot:
    // the image stretches to the slot size but shifted, so only the
    // region from the offset onward is covered.
    let image = ColorImage {
        data: vec![255, 255, 255, 255],
        width: 1,
        height: 1,
        left: 2,
        top: 1,
    };
    let px = compose_glyph(&GlyphSource::RasterColor { image }, 4, 4);
    for y in 0..4usize {
        for x in 0..4usize {
            let expect = if x >= 2 && y >= 1 { 0xFFFF_FFFF } else { 0 };
            assert_eq!(px[y * 4 + x], expect, "pixel ({x}, {y})");
        }
    }
}

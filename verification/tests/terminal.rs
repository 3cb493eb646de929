use tui_texture::color::Color;
use tui_texture::color::Rgb;
use tui_texture::terminal::Cell;
use tui_texture::terminal::CellUpdate;
use tui_texture::terminal::RowRun;
use tui_texture::terminal::ShapedGlyph;
use tui_texture::terminal::TerminalBuilder;
use tui_texture::terminal::Viewport;
use tui_texture::terminal::MOD_REVERSED;
use tui_texture::Error;

fn glyph(id: u32, cluster: u32) -> ShapedGlyph {
    ShapedGlyph { glyph_id: id, cluster, x_offset: 0, y_offset: 0, x_advance: 10 }
}

fn run(glyphs: Vec<ShapedGlyph>) -> RowRun {
    RowRun { font: 1, fake_bold: false, fake_italic: false, glyphs }
}

#[test]
fn test_builder_defaults() {
    let t = TerminalBuilder::new(8, 16, 99).build().unwrap();
    assert_eq!(t.dimensions(), Some((80, 24)));
    assert_eq!(t.reset_fg, Rgb { r: 255, g: 255, b: 255 });
    assert_eq!(t.reset_bg, Rgb { r: 0, g: 0, b: 0 });
    assert_eq!(t.get_cursor_position(), (0, 0));
}

#[test]
fn test_builder_rejects_zero_dimensions() {
    let e = TerminalBuilder::new(8, 16, 0).with_dimensions(0, 24).build().unwrap_err();
    assert_eq!(e, Error::ZeroGridDimensions);
    let e = TerminalBuilder::new(8, 16, 0).with_dimensions(80, 0).build().unwrap_err();
    assert_eq!(e, Error::ZeroGridDimensions);
    let e = TerminalBuilder::new(0, 16, 0).build().unwrap_err();
    assert_eq!(e, Error::ZeroPixelDimensions);
}

#[test]
fn test_size_and_window_size() {
    let t = TerminalBuilder::new(8, 16, 0).with_dimensions(10, 4).build().unwrap();
    assert_eq!(t.size(), (10, 4));
    let (cells, px) = t.window_size();
    assert_eq!(cells, (10, 4));
    assert_eq!(px.width, 80);
    assert_eq!(px.height, 64);
    let t = TerminalBuilder::new(8, 16, 0)
        .with_dimensions(10, 4)
        .with_viewport(Viewport::Shrink { width: 16, height: 16 })
        .build()
        .unwrap();
    assert_eq!(t.size(), (8, 3));
}

#[test]
fn test_cursor_clamps_into_grid() {
    let mut t = TerminalBuilder::new(8, 16, 0).with_dimensions(10, 4).build().unwrap();
    t.set_cursor_position(3, 2);
    assert_eq!(t.get_cursor_position(), (3, 2));
    t.set_cursor_position(100, 100);
    assert_eq!(t.get_cursor_position(), (9, 3));
}

#[test]
fn test_draw_stores_cell() {
    let mut t = TerminalBuilder::new(8, 16, 0).with_dimensions(4, 1).build().unwrap();
    t.draw(vec![CellUpdate { x: 1, y: 0, cell: Cell::of_char('A', Color::Red, Color::Reset, 0) }]);
    assert_eq!(t.cells[1].symbol, vec!['A']);
    assert_eq!(t.cells[1].fg, Color::Red);
    assert_eq!(t.cells[0].symbol, Vec::<char>::new());
}

#[test]
fn test_draw_wide_char_reserves_continuation() {
    // A two-column grapheme clears the following cell.
    let mut t = TerminalBuilder::new(8, 16, 0).with_dimensions(4, 1).build().unwrap();
    t.draw(vec![
        CellUpdate { x: 1, y: 0, cell: Cell::of_char('x', Color::Reset, Color::Reset, 0) },
        CellUpdate { x: 0, y: 0, cell: Cell::of_char('你', Color::Reset, Color::Reset, 0) },
    ]);
    assert_eq!(t.cells[0].symbol, vec!['你']);
    // Column 1 became the wide character's continuation cell.
    assert!(t.cells[1].symbol.is_empty());
}

#[test]
fn test_flush_skips_continuation_column() {
    // No independent glyph quad is emitted for the continuation column of
    // a wide character.
    let mut t = TerminalBuilder::new(8, 16, 7).with_dimensions(4, 1).build().unwrap();
    t.draw(vec![CellUpdate { x: 0, y: 0, cell: Cell::of_char('你', Color::Reset, Color::Reset, 0) }]);
    // The row's text is the single wide character; one shaped glyph.
    let out = t.flush(&vec![run(vec![glyph(1234, 0)])]);
    assert_eq!(out.fg_quads.len(), 1);
    assert_eq!(out.fg_quads[0].col, 0);
    assert_eq!(out.fg_quads[0].row, 0);
    // The quad spans both columns of the wide character.
    assert_eq!(out.fg_quads[0].width, 16);
    assert_eq!(out.bg_quads.len(), 1);
}

#[test]
fn test_flush_end_to_end_two_cells() {
    // A 2 x 1 grid: 'A' (regular, white on black) and a box-drawing line.
    let mut t = TerminalBuilder::new(8, 16, 7).with_dimensions(2, 1).build().unwrap();
    t.draw(vec![
        CellUpdate { x: 0, y: 0, cell: Cell::of_char('A', Color::Reset, Color::Reset, 0) },
        CellUpdate { x: 1, y: 0, cell: Cell::of_char('─', Color::Reset, Color::Reset, 0) },
    ]);
    let shaping = vec![run(vec![glyph(42, 0), glyph(43, 1)])];
    let out = t.flush(&shaping);
    assert!(!out.evicted);
    // One font-rasterization request for 'A', one programmatic upload for
    // the box-drawing character.
    assert_eq!(out.requests.len(), 1);
    assert_eq!(out.requests[0].ch, 'A');
    assert_eq!(out.requests[0].glyph_id, 42);
    assert_eq!(out.uploads.len(), 1);
    // Two background quads (black) and two foreground quads (white).
    assert_eq!(out.bg_quads.len(), 2);
    assert_eq!(out.fg_quads.len(), 2);
    for q in &out.bg_quads {
        assert_eq!(q.color, 0x0000_00FF); // black, opaque
    }
    for q in &out.fg_quads {
        assert_eq!(q.color, 0xFFFF_FFFF); // white, opaque
    }
    assert_eq!(out.bg_quads[0].x, 0);
    assert_eq!(out.bg_quads[1].x, 8);
    assert_eq!(out.bg_quads[0].width, 8);
    assert_eq!(out.bg_quads[0].height, 16);
    // A second flush of the unchanged grid hits the cache for both keys:
    // no pending uploads, no requests.
    let out2 = t.flush(&shaping);
    assert_eq!(out2.uploads.len(), 0);
    assert_eq!(out2.requests.len(), 0);
    assert_eq!(out2.bg_quads.len(), 2);
    assert_eq!(out2.fg_quads.len(), 2);
    // And the quads still sample the same atlas rectangles.
    assert_eq!(out2.fg_quads[0].u, out.fg_quads[0].u);
    assert_eq!(out2.fg_quads[0].v, out.fg_quads[0].v);
    // The outputs carry the keys their quads sample: the request and the
    // upload each match their glyph's quad.
    assert_eq!(out.requests[0].key, out.fg_quads[0].key);
    assert_eq!(out.uploads[0].key, out.fg_quads[1].key);
    assert_eq!(out.requests[0].rect.x, out.fg_quads[0].u);
    assert_eq!(out.uploads[0].rect.x, out.fg_quads[1].u);
}

#[test]
fn test_flush_reversed_swaps_colors() {
    let mut t = TerminalBuilder::new(8, 16, 7).with_dimensions(1, 1).build().unwrap();
    t.draw(vec![CellUpdate {
        x: 0,
        y: 0,
        cell: Cell::of_char('A', Color::Red, Color::Blue, MOD_REVERSED),
    }]);
    let out = t.flush(&vec![run(vec![glyph(1, 0)])]);
    // Foreground takes the (resolved) background color and vice versa.
    assert_eq!(out.fg_quads[0].color, 0x0000_EEFF); // blue
    assert_eq!(out.bg_quads[0].color, 0xCD00_00FF); // red
}

#[test]
fn test_flush_empty_row_emits_nothing() {
    let mut t = TerminalBuilder::new(8, 16, 7).with_dimensions(4, 2).build().unwrap();
    let out = t.flush(&vec![run(vec![glyph(1, 0)]), run(vec![])]);
    assert_eq!(out.bg_quads.len(), 0);
    assert_eq!(out.fg_quads.len(), 0);
    assert_eq!(out.uploads.len(), 0);
    assert_eq!(out.requests.len(), 0);
}

#[test]
fn test_flush_never_requests_fake_styles_for_emoji() {
    let mut t = TerminalBuilder::new(8, 16, 7).with_dimensions(2, 1).build().unwrap();
    t.draw(vec![
        CellUpdate { x: 0, y: 0, cell: Cell::of_char('😀', Color::Reset, Color::Reset, 0) },
    ]);
    let shaping = vec![RowRun { font: 1, fake_bold: true, fake_italic: true, glyphs: vec![glyph(9, 0)] }];
    let out = t.flush(&shaping);
    assert_eq!(out.requests.len(), 1);
    assert!(!out.requests[0].fake_bold);
    assert!(!out.requests[0].fake_italic);
    // A plain letter keeps the requested synthetic styles.
    let mut t2 = TerminalBuilder::new(8, 16, 7).with_dimensions(2, 1).build().unwrap();
    t2.draw(vec![
        CellUpdate { x: 0, y: 0, cell: Cell::of_char('A', Color::Reset, Color::Reset, 0) },
    ]);
    let shaping2 =
        vec![RowRun { font: 1, fake_bold: true, fake_italic: true, glyphs: vec![glyph(9, 0)] }];
    let out2 = t2.flush(&shaping2);
    assert!(out2.requests[0].fake_bold);
    assert!(out2.requests[0].fake_italic);
}

#[test]
fn test_populate_programmatic_glyphs() {
    let mut t = TerminalBuilder::new(10, 20, 7).with_dimensions(2, 1).build().unwrap();
    let out = t.populate_programmatic_glyphs();
    let uploads = &out.uploads;
    // The atlas easily holds the whole set at this size.
    assert!(!out.evicted);
    // Every implemented glyph got a slot and a pixel buffer of its size,
    // keyed by its code point under the fallback font.
    assert!(!uploads.is_empty());
    assert!(uploads.len() <= 432);
    for u in uploads {
        assert_eq!(u.pixels.len(), (u.rect.width * u.rect.height) as usize);
        assert_eq!(u.rect.width, 10);
        assert_eq!(u.rect.height, 20);
        assert!(!u.is_color);
        assert_eq!(u.key.style, 0);
        assert_eq!(u.key.font, 7);
        assert!(tui_texture::programmatic::is_programmatic_glyph(
            char::from_u32(u.key.glyph).unwrap()
        ));
    }
    // One upload per key.
    for i in 0..uploads.len() {
        for j in (i + 1)..uploads.len() {
            assert_ne!(uploads[i].key, uploads[j].key);
        }
    }
    // A subsequent flush that uses a box-drawing character hits the cache.
    t.draw(vec![CellUpdate { x: 0, y: 0, cell: Cell::of_char('─', Color::Reset, Color::Reset, 0) }]);
    let out = t.flush(&vec![run(vec![glyph(1, 0)])]);
    assert_eq!(out.uploads.len(), 0);
    assert_eq!(out.requests.len(), 0);
}

#[test]
fn test_update_fonts_evicts_cache_and_marks_dirty() {
    let mut t = TerminalBuilder::new(8, 16, 7).with_dimensions(2, 1).build().unwrap();
    t.draw(vec![CellUpdate { x: 0, y: 0, cell: Cell::of_char('─', Color::Reset, Color::Reset, 0) }]);
    let out = t.flush(&vec![run(vec![glyph(1, 0)])]);
    assert_eq!(out.uploads.len(), 1);
    assert_eq!(out.uploads[0].key.glyph, 0x2500);
    t.update_fonts(9, 18, 7);
    assert_eq!(t.atlas.len(), 0);
    assert!(t.dirty_rows.iter().all(|&d| d));
    // The same character misses again at the new size.
    let out2 = t.flush(&vec![run(vec![glyph(1, 0)])]);
    assert_eq!(out2.uploads.len(), 1);
}

#[test]
fn test_clear_resets_cells() {
    let mut t = TerminalBuilder::new(8, 16, 7).with_dimensions(2, 2).build().unwrap();
    t.draw(vec![CellUpdate { x: 1, y: 1, cell: Cell::of_char('A', Color::Red, Color::Blue, 0) }]);
    t.set_cursor_position(1, 1);
    t.clear();
    assert!(t.cells.iter().all(|c| c.symbol.is_empty()));
    assert_eq!(t.get_cursor_position(), (0, 0));
}

#[test]
fn test_flush_degrades_when_glyph_exceeds_atlas() {
    // A cell wider than the whole atlas texture cannot get a slot: the
    // quads are still emitted, but the glyph samples nothing (blank).
    let mut t = TerminalBuilder::new(2000, 16, 7).with_dimensions(1, 1).build().unwrap();
    t.draw(vec![CellUpdate { x: 0, y: 0, cell: Cell::of_char('你', Color::Reset, Color::Reset, 0) }]);
    let out = t.flush(&vec![run(vec![glyph(5, 0)])]);
    assert!(!out.evicted);
    assert_eq!(out.bg_quads.len(), 1);
    assert_eq!(out.fg_quads.len(), 1);
    // The glyph renders blank: a zero-size sample rectangle, no work
    // enqueued, and the failure is isolated to this cell.
    assert_eq!(out.fg_quads[0].uv_w, 0);
    assert_eq!(out.uploads.len(), 0);
    assert_eq!(out.requests.len(), 0);
}

#[test]
fn test_error_descriptions() {
    assert!(!Error::ZeroGridDimensions.describe().is_empty());
    assert!(!Error::ZeroPixelDimensions.describe().is_empty());
    assert!(!Error::DimensionTooLarge.describe().is_empty());
}

#[test]
fn test_builder_rejects_oversized_dimensions() {
    let e = TerminalBuilder::new(8, 16, 0).with_dimensions(5000, 24).build().unwrap_err();
    assert_eq!(e, Error::DimensionTooLarge);
    let e = TerminalBuilder::new(8, 9000, 0).build().unwrap_err();
    assert_eq!(e, Error::DimensionTooLarge);
}

#[test]
fn test_populate_reports_eviction_when_atlas_overflows() {
    // Cell-sized slots of 1000 x 1000 overflow the 1800 x 1200 texture
    // long before the whole programmatic set is packed, so the packer
    // falls back to wholesale eviction and says so.
    let mut t = TerminalBuilder::new(1000, 1000, 7).with_dimensions(1, 1).build().unwrap();
    let out = t.populate_programmatic_glyphs();
    assert!(out.evicted);
    // Uploads are still exact: right size, distinct programmatic keys.
    assert!(!out.uploads.is_empty());
    for u in &out.uploads {
        assert_eq!(u.pixels.len(), (u.rect.width * u.rect.height) as usize);
        assert_eq!(u.rect.width, 1000);
        assert_eq!(u.rect.height, 1000);
    }
}
